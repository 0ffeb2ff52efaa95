//! The rules of a numeric input field: a value with a text beside it, which
//! can be stepped up and down between bounds, typed over, and confirmed.
//!
//! A value is a whole number of units, `10^precision` of which make one, so
//! that a field of tooth counts (precision 0) and a field of ratios in
//! hundredths (precision 2) follow the same rules.

use vstd::prelude::*;
use crate::decimal::fixed_text;
use crate::decimal::format_fixed;
use crate::decimal::lemma_parse_fixed_text;
use crate::decimal::parse_fixed;
use crate::decimal::parse_value;
use crate::decimal::saturate;

verus! {

/// What happened to an input field.
#[derive(Clone, Debug)]
pub enum SpinnerEvent {
    /// A scroll or drag gesture asked for one step up.
    StepUp,
    /// A scroll or drag gesture asked for one step down.
    StepDown,
    /// The text of the field was typed over; this is the new text.
    Edited(String),
    /// The field lost the keyboard focus, which confirms its text.
    LostFocus,
}

/// What an event makes of a field: its value, its text, and whether the
/// value is to be taken as changed.
pub struct Spun {
    pub value: u32,
    pub text: Seq<char>,
    pub changed: bool,
}

/// The smaller of `input` and `max`.
pub open spec fn at_most(input: u32, max: u32) -> u32 {
    if input > max {
        max
    } else {
        input
    }
}

/// `x` forced into the range from `min` to `max`.
pub open spec fn clamped(x: u32, min: u32, max: u32) -> u32 {
    if x < min {
        min
    } else {
        at_most(x, max)
    }
}

/// The value `count` steps above `value`, but no more than `max`.
pub open spec fn stepped_up(value: u32, step: u32, max: u32, count: u32) -> u32 {
    if value + count * step > max {
        max
    } else {
        (value + count * step) as u32
    }
}

/// Whether `value` can go `count` steps down without passing `min`.
pub open spec fn can_step_down(value: u32, step: u32, min: u32, count: u32) -> bool {
    value >= min + count * step
}

/// The value `count` steps below `value`; a value that cannot go that far
/// down stays where it is.
pub open spec fn stepped_down(value: u32, step: u32, min: u32, count: u32) -> u32 {
    if can_step_down(value, step, min, count) {
        (value - count * step) as u32
    } else {
        value
    }
}

/// Whether `text` writes `value` at `precision` decimal places.
pub open spec fn reads_as(text: Seq<char>, precision: nat, value: u32) -> bool {
    parse_value(text, precision) matches Some(x) && saturate(x) == value
}

/// What `event` makes of the field with the given value and text.
///
/// A step moves the value and rewrites the text. Typed text is kept as it
/// was typed, and where it is a numeral the value becomes what it writes,
/// forced into the bounds. Losing the focus leaves a text that writes the
/// value and replaces any other by the value's own text. A field that is not
/// interactive takes neither steps nor typed text.
pub open spec fn spun(
    value: u32,
    text: Seq<char>,
    interactive: bool,
    step: u32,
    min_value: u32,
    max_value: u32,
    precision: nat,
    event: SpinnerEvent,
) -> Spun {
    match event {
        SpinnerEvent::StepUp => if interactive {
            let v = stepped_up(value, step, max_value, 1);
            Spun { value: v, text: fixed_text(v as nat, precision), changed: true }
        } else {
            Spun { value, text, changed: false }
        },
        SpinnerEvent::StepDown => if interactive {
            let v = stepped_down(value, step, min_value, 1);
            Spun { value: v, text: fixed_text(v as nat, precision), changed: true }
        } else {
            Spun { value, text, changed: false }
        },
        SpinnerEvent::Edited(typed) => if interactive {
            match parse_value(typed@, precision) {
                Some(x) => Spun {
                    value: clamped(saturate(x), min_value, max_value),
                    text: typed@,
                    changed: true,
                },
                None => Spun { value, text: typed@, changed: false },
            }
        } else {
            Spun { value, text, changed: false }
        },
        SpinnerEvent::LostFocus => Spun {
            value,
            text: if reads_as(text, precision, value) {
                text
            } else {
                fixed_text(value as nat, precision)
            },
            changed: false,
        },
    }
}

/// Calls `num_traits::clamp_max`, which returns `max` where `input` is
/// greater than `max`, and `input` otherwise.
#[verifier::external_body]
fn clamp_max(input: u32, max: u32) -> (r: u32)
    ensures
        r == at_most(input, max),
{
    num_traits::clamp_max(input, max)
}

/// The value `count` steps above `value`, but no more than `max`.
pub fn step_up(value: u32, step: u32, max_value: u32, count: u32) -> (r: u32)
    ensures
        r == stepped_up(value, step, max_value, count),
{
    assert(count * step <= 0xffff_ffff * 0xffff_ffff) by (nonlinear_arith)
        requires
            count <= 0xffff_ffff,
            step <= 0xffff_ffff,
    ;
    let target: u64 = value as u64 + (count as u64) * (step as u64);
    let reach: u32 = if target > 0xffff_ffff {
        0xffff_ffff
    } else {
        target as u32
    };
    clamp_max(reach, max_value)
}

/// The value `count` steps below `value`, or `None` where that would pass
/// `min`.
pub fn step_down(value: u32, step: u32, min_value: u32, count: u32) -> (r: Option<u32>)
    ensures
        r is Some <==> can_step_down(value, step, min_value, count),
        r matches Some(v) ==> v == value - count * step && v >= min_value,
{
    assert(count * step <= 0xffff_ffff * 0xffff_ffff) by (nonlinear_arith)
        requires
            count <= 0xffff_ffff,
            step <= 0xffff_ffff,
    ;
    let distance: u64 = (count as u64) * (step as u64);
    if value as u64 >= min_value as u64 + distance {
        Some((value as u64 - distance) as u32)
    } else {
        None
    }
}

/// The preview shown above a field: the text of the value `count` steps up.
pub fn peek_above(value: u32, step: u32, max_value: u32, precision: u32, count: u32) -> (text:
    String)
    requires
        precision <= 9,
    ensures
        text@ == fixed_text(stepped_up(value, step, max_value, count) as nat, precision as nat),
{
    format_fixed(step_up(value, step, max_value, count) as u64, precision)
}

/// The preview shown below a field: the text of the value `count` steps
/// down, and no text where the value cannot go that far down.
pub fn peek_below(value: u32, step: u32, min_value: u32, precision: u32, count: u32) -> (text:
    String)
    requires
        precision <= 9,
    ensures
        text@ == if can_step_down(value, step, min_value, count) {
            fixed_text((value - count * step) as nat, precision as nat)
        } else {
            Seq::<char>::empty()
        },
{
    match step_down(value, step, min_value, count) {
        Some(v) => format_fixed(v as u64, precision),
        None => String::new(),
    }
}

/// Applies `event` to a field: `value` and `val_str` become what `spun` says,
/// and the result tells whether the value is to be taken as changed.
pub fn number_spinner(
    value: &mut u32,
    val_str: &mut String,
    interactive: bool,
    step: u32,
    min_value: u32,
    max_value: u32,
    precision: u32,
    event: SpinnerEvent,
) -> (changed: bool)
    requires
        precision <= 9,
    ensures
        (Spun { value: *final(value), text: final(val_str)@, changed }) == spun(
            *old(value),
            old(val_str)@,
            interactive,
            step,
            min_value,
            max_value,
            precision as nat,
            event,
        ),
{
    match event {
        SpinnerEvent::StepUp => {
            if interactive {
                *value = step_up(*value, step, max_value, 1);
                *val_str = format_fixed(*value as u64, precision);
            }
            interactive
        },
        SpinnerEvent::StepDown => {
            if interactive {
                if let Some(v) = step_down(*value, step, min_value, 1) {
                    *value = v;
                }
                *val_str = format_fixed(*value as u64, precision);
            }
            interactive
        },
        SpinnerEvent::Edited(typed) => {
            if interactive {
                *val_str = typed;
                match parse_fixed(val_str.as_str(), precision) {
                    Some(x) => {
                        *value = if x < min_value {
                            min_value
                        } else {
                            clamp_max(x, max_value)
                        };
                        true
                    },
                    None => false,
                }
            } else {
                false
            }
        },
        SpinnerEvent::LostFocus => {
            if parse_fixed(val_str.as_str(), precision) != Some(*value) {
                *val_str = format_fixed(*value as u64, precision);
            }
            false
        },
    }
}

/// The accumulated distance at which a drag or scroll gesture becomes one
/// step: twenty points, in thousandths of a point.
pub const DRAG_THRESHOLD: i32 = 20_000;

/// What a field remembers of a drag or scroll gesture that is under way: the
/// distance gathered so far, in thousandths of a point.
#[derive(Clone, Copy, Debug)]
pub struct NumberSpinnerState {
    pub offset: i32,
}

impl Default for NumberSpinnerState {
    fn default() -> (state: Self)
        ensures
            state.offset == 0,
    {
        NumberSpinnerState { offset: 0 }
    }
}

impl NumberSpinnerState {
    /// The distance remembered after a movement of `delta` from `offset`:
    /// back to zero once the threshold is passed in either direction.
    pub open spec fn gathered(offset: i32, delta: i32) -> i32 {
        if delta == 0 {
            offset
        } else if offset + delta > DRAG_THRESHOLD || offset + delta < -DRAG_THRESHOLD {
            0
        } else {
            (offset + delta) as i32
        }
    }

    /// The step that a movement of `delta` from `offset` asks for: one up
    /// when the distance passes the threshold, one down when it passes the
    /// threshold the other way, and otherwise none.
    pub open spec fn asked(offset: i32, delta: i32) -> Option<SpinnerEvent> {
        if delta == 0 {
            None
        } else if offset + delta > DRAG_THRESHOLD {
            Some(SpinnerEvent::StepUp)
        } else if offset + delta < -DRAG_THRESHOLD {
            Some(SpinnerEvent::StepDown)
        } else {
            None
        }
    }

    /// Adds a movement of `delta` thousandths of a point to the gesture and
    /// returns the step that it asks for, if any.
    pub fn drag(&mut self, delta: i32) -> (event: Option<SpinnerEvent>)
        ensures
            final(self).offset == Self::gathered(old(self).offset, delta),
            event == Self::asked(old(self).offset, delta),
    {
        if delta == 0 {
            return None;
        }
        let sum: i64 = self.offset as i64 + delta as i64;
        if sum > DRAG_THRESHOLD as i64 {
            self.offset = 0;
            Some(SpinnerEvent::StepUp)
        } else if sum < -(DRAG_THRESHOLD as i64) {
            self.offset = 0;
            Some(SpinnerEvent::StepDown)
        } else {
            self.offset = sum as i32;
            None
        }
    }
}

/// A gesture never remembers more than the threshold: from a distance within
/// it, any movement leaves a distance within it.
pub proof fn lemma_gathered_within_threshold(offset: i32, delta: i32)
    requires
        -DRAG_THRESHOLD <= offset <= DRAG_THRESHOLD,
    ensures
        -DRAG_THRESHOLD <= NumberSpinnerState::gathered(offset, delta) <= DRAG_THRESHOLD,
{
}

/// Stepping keeps a value within its bounds: a value at or above `min` never
/// goes below `min`, however large the step, and a value at or below `max`
/// never goes above `max`.
pub proof fn lemma_steps_stay_in_bounds(value: u32, step: u32, min: u32, max: u32, count: u32)
    requires
        min <= value <= max,
    ensures
        min <= stepped_down(value, step, min, count) <= value,
        value <= stepped_up(value, step, max, count) <= max,
{
    assert(count * step >= 0) by (nonlinear_arith);
}

/// No event takes the value of a field out of its bounds, and typed text
/// brings it into them.
pub proof fn lemma_spun_in_bounds(
    value: u32,
    text: Seq<char>,
    interactive: bool,
    step: u32,
    min: u32,
    max: u32,
    precision: nat,
    event: SpinnerEvent,
)
    requires
        min <= max,
    ensures
        min <= value <= max ==> min <= spun(
            value,
            text,
            interactive,
            step,
            min,
            max,
            precision,
            event,
        ).value <= max,
        event is Edited && spun(value, text, interactive, step, min, max, precision, event).changed
            ==> min <= spun(value, text, interactive, step, min, max, precision, event).value
            <= max,
{
    if min <= value <= max {
        lemma_steps_stay_in_bounds(value, step, min, max, 1);
    }
}

/// After a step, and after the focus is lost, the text of a field writes its
/// value.
pub proof fn lemma_spun_in_sync(
    value: u32,
    text: Seq<char>,
    interactive: bool,
    step: u32,
    min: u32,
    max: u32,
    precision: nat,
    event: SpinnerEvent,
)
    requires
        event is LostFocus || (interactive && (event is StepUp || event is StepDown)),
    ensures
        ({
            let after = spun(value, text, interactive, step, min, max, precision, event);
            reads_as(after.text, precision, after.value)
        }),
{
    let after = spun(value, text, interactive, step, min, max, precision, event);
    lemma_parse_fixed_text(after.value as nat, precision);
}

} // verus!
