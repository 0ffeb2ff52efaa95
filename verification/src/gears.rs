//! The constraint model of a gear pair: the teeth of the two gears, the
//! ratio that was asked for, the ratio that the teeth realise, and which of
//! the three linked quantities is locked.
//!
//! After an edit of one quantity, the quantity that is neither edited nor
//! locked is recomputed. Tooth counts are whole, so the realised ratio may
//! differ from the one asked for; it is kept exactly, as a quotient of the
//! two tooth counts.

use vstd::prelude::*;
use crate::column::Column;
use crate::decimal::digits;
use crate::decimal::fixed_text;
use crate::decimal::format_fixed;
use crate::decimal::parse_value;
use crate::decimal::saturate;
use crate::round::round_div;
use crate::round::round_div_u64;
use crate::round::scale_teeth;
use crate::round::scaled_teeth;
use crate::spinner::clamped;
use crate::spinner::lemma_steps_stay_in_bounds;
use crate::spinner::number_spinner;
use crate::spinner::spun;
use crate::spinner::SpinnerEvent;
use crate::spinner::Spun;

verus! {

/// The step of a tooth count.
pub const TEETH_STEP: u32 = 1;

/// The least tooth count: a gear needs one tooth.
pub const TEETH_MIN: u32 = 1;

/// The greatest tooth count: as many as the counter holds.
pub const TEETH_MAX: u32 = 0xffff_ffff;

/// The decimal places of a tooth count.
pub const TEETH_PRECISION: u32 = 0;

/// How many units of the given ratio make one: the ratio is kept in
/// hundredths.
pub const RATIO_UNIT: u32 = 100;

/// The step of the given ratio: one tenth.
pub const RATIO_STEP: u32 = 10;

/// The least given ratio: one tenth.
pub const RATIO_MIN: u32 = 10;

/// The greatest given ratio: one hundred.
pub const RATIO_MAX: u32 = 10_000;

/// The decimal places of the given ratio.
pub const RATIO_PRECISION: u32 = 2;

/// How many units of the displayed actual ratio make one: it is shown in
/// thousandths.
pub const ACTUAL_UNIT: u32 = 1_000;

/// The decimal places of the displayed actual ratio.
pub const ACTUAL_PRECISION: u32 = 3;

/// A ratio as a quotient of two whole numbers.
#[derive(Clone, Copy, Debug)]
pub struct Ratio {
    pub num: u32,
    pub den: u32,
}

impl Ratio {
    /// Whether this ratio is the quotient `num / den`.
    pub open spec fn is_quotient(self, num: int, den: int) -> bool {
        self.den > 0 && den > 0 && self.num * den == num * self.den
    }
}

/// One gear: its number of teeth, and the text of its input field.
pub struct SideVars {
    pub teeth: u32,
    pub t_str: String,
}

impl SideVars {
    /// A gear of the given column with `teeth` teeth, and the numeral of
    /// `teeth` as its text.
    pub fn new(column: Column, teeth: u32) -> (side: SideVars)
        ensures
            side.teeth == teeth,
            side.t_str@ == digits(teeth as nat),
    {
        SideVars { teeth, t_str: format_fixed(teeth as u64, TEETH_PRECISION) }
    }
}

/// The gear pair as a mathematical value: what a `RitzelApp` stands for.
pub struct Gears {
    /// Teeth of the left gear, the motor.
    pub left_teeth: nat,
    /// Teeth of the right gear, the wheel.
    pub right_teeth: nat,
    /// The ratio that was asked for, in hundredths.
    pub given_ratio: nat,
    /// Numerator of the ratio that the teeth realise.
    pub actual_num: nat,
    /// Denominator of the ratio that the teeth realise.
    pub actual_den: nat,
    /// The quantity that is locked.
    pub locked: Column,
    /// Text of the left gear's field.
    pub left_text: Seq<char>,
    /// Text of the right gear's field.
    pub right_text: Seq<char>,
    /// Text of the given ratio's field.
    pub given_text: Seq<char>,
    /// Text that shows the actual ratio.
    pub actual_text: Seq<char>,
}

impl Gears {
    /// The gear pair that a session starts with: 10 and 15 teeth, a given
    /// ratio of 1.5, and the ratio locked.
    pub open spec fn initial() -> Gears {
        Gears {
            left_teeth: 10,
            right_teeth: 15,
            given_ratio: 150,
            actual_num: 15,
            actual_den: 10,
            locked: Column::Ratio,
            left_text: seq!['1', '0'],
            right_text: seq!['1', '5'],
            given_text: seq!['1', '.', '5'],
            actual_text: seq!['1', '.', '5'],
        }
    }

    /// Each gear has at least one tooth, the given ratio is above zero, and
    /// every number fits its counter.
    pub open spec fn valid(self) -> bool {
        &&& 1 <= self.left_teeth <= u32::MAX
        &&& 1 <= self.right_teeth <= u32::MAX
        &&& 1 <= self.given_ratio <= u32::MAX
        &&& self.actual_num <= u32::MAX
        &&& self.actual_den <= u32::MAX
    }

    /// The actual ratio is the quotient of the right gear's teeth by the left
    /// gear's.
    pub open spec fn ratio_current(self) -> bool {
        &&& self.actual_den > 0
        &&& self.left_teeth > 0
        &&& self.actual_num * self.left_teeth == self.right_teeth * self.actual_den
    }

    /// The number in the given column: a tooth count, or the given ratio in
    /// hundredths.
    pub open spec fn quantity(self, column: Column) -> nat {
        match column {
            Column::Left => self.left_teeth,
            Column::Ratio => self.given_ratio,
            Column::Right => self.right_teeth,
        }
    }

    /// The text of the given column's field.
    pub open spec fn text(self, column: Column) -> Seq<char> {
        match column {
            Column::Left => self.left_text,
            Column::Ratio => self.given_text,
            Column::Right => self.right_text,
        }
    }

    /// This gear pair with the number and the text of one column replaced.
    pub open spec fn with_field(self, column: Column, value: nat, text: Seq<char>) -> Gears {
        match column {
            Column::Left => Gears { left_teeth: value, left_text: text, ..self },
            Column::Ratio => Gears { given_ratio: value, given_text: text, ..self },
            Column::Right => Gears { right_teeth: value, right_text: text, ..self },
        }
    }

    /// This gear pair with the actual ratio taken from its teeth: right by
    /// left, exactly, and shown rounded to thousandths.
    pub open spec fn with_ratio(self) -> Gears {
        Gears {
            actual_num: self.right_teeth,
            actual_den: self.left_teeth,
            actual_text: fixed_text(
                round_div(self.right_teeth * ACTUAL_UNIT as nat, self.left_teeth),
                ACTUAL_PRECISION as nat,
            ),
            ..self
        }
    }

    /// This gear pair with the left gear's teeth taken from the right gear's
    /// and the given ratio: right divided by the ratio, rounded to a whole
    /// number of teeth. The actual ratio follows.
    pub open spec fn with_left(self) -> Gears {
        let teeth = scaled_teeth(self.right_teeth, RATIO_UNIT as nat, self.given_ratio);
        Gears { left_teeth: teeth, left_text: digits(teeth), ..self }.with_ratio()
    }

    /// This gear pair with the right gear's teeth taken from the left gear's
    /// and the given ratio: left times the ratio, rounded to a whole number
    /// of teeth. The actual ratio follows.
    pub open spec fn with_right(self) -> Gears {
        let teeth = scaled_teeth(self.left_teeth, self.given_ratio, RATIO_UNIT as nat);
        Gears { right_teeth: teeth, right_text: digits(teeth), ..self }.with_ratio()
    }

    /// This gear pair after an edit of the column `edited`: the column that
    /// is neither edited nor locked is recomputed.
    pub open spec fn recomputed(self, edited: Column) -> Gears {
        match Column::missing(edited, self.locked) {
            Column::Left => self.with_left(),
            Column::Ratio => self.with_ratio(),
            Column::Right => self.with_right(),
        }
    }

    /// The decimal places of the field of `column`.
    pub open spec fn precision(column: Column) -> nat {
        match column {
            Column::Ratio => RATIO_PRECISION as nat,
            _ => TEETH_PRECISION as nat,
        }
    }

    /// This gear pair after the number in `column` is set to `value`: the
    /// field shows the new number, and the column that is neither this one
    /// nor locked is recomputed.
    pub open spec fn edited(self, column: Column, value: nat) -> Gears {
        self.with_field(column, value, fixed_text(value, Self::precision(column))).recomputed(
            column,
        )
    }

    /// What `event` makes of the field of `column`: a field is interactive
    /// unless its column is locked, tooth counts step by one from one upward,
    /// and the given ratio steps by a tenth between a tenth and a hundred.
    pub open spec fn spun_field(self, column: Column, event: SpinnerEvent) -> Spun {
        match column {
            Column::Ratio => spun(
                self.given_ratio as u32,
                self.given_text,
                column != self.locked,
                RATIO_STEP,
                RATIO_MIN,
                RATIO_MAX,
                RATIO_PRECISION as nat,
                event,
            ),
            _ => spun(
                self.quantity(column) as u32,
                self.text(column),
                column != self.locked,
                TEETH_STEP,
                TEETH_MIN,
                TEETH_MAX,
                TEETH_PRECISION as nat,
                event,
            ),
        }
    }

    /// This gear pair after `event` on the field of `column`: the field takes
    /// what the event makes of it, and where that changes its value the
    /// column that is neither this one nor locked is recomputed.
    pub open spec fn updated(self, column: Column, event: SpinnerEvent) -> Gears {
        let field = self.spun_field(column, event);
        let edited = self.with_field(column, field.value as nat, field.text);
        if field.changed {
            edited.recomputed(column)
        } else {
            edited
        }
    }
}

/// The calculator's state.
pub struct RitzelApp {
    left: SideVars,
    right: SideVars,
    given_ratio: u32,
    actual_ratio: Ratio,
    ar_str: String,
    gr_str: String,
    locked_column: Column,
}

impl View for RitzelApp {
    type V = Gears;

    closed spec fn view(&self) -> Gears {
        Gears {
            left_teeth: self.left.teeth as nat,
            right_teeth: self.right.teeth as nat,
            given_ratio: self.given_ratio as nat,
            actual_num: self.actual_ratio.num as nat,
            actual_den: self.actual_ratio.den as nat,
            locked: self.locked_column,
            left_text: self.left.t_str@,
            right_text: self.right.t_str@,
            given_text: self.gr_str@,
            actual_text: self.ar_str@,
        }
    }
}

impl RitzelApp {
    /// Each gear has at least one tooth and the given ratio is above zero.
    pub open spec fn wf(&self) -> bool {
        self@.valid()
    }

    /// Whether this state is well-formed.
    pub fn is_wf(&self) -> (ok: bool)
        ensures
            ok == self.wf(),
    {
        self.left.teeth >= 1 && self.right.teeth >= 1 && self.given_ratio >= 1
    }

    /// The state that a session starts with.
    pub fn new() -> (app: Self)
        ensures
            app@ == Gears::initial(),
            app.wf(),
            app@.ratio_current(),
    {
        proof {
            reveal_strlit("1.5");
            reveal_with_fuel(digits, 3);
        }
        let app = RitzelApp {
            left: SideVars::new(Column::Left, 10),
            right: SideVars::new(Column::Right, 15),
            given_ratio: 150,
            actual_ratio: Ratio { num: 15, den: 10 },
            ar_str: "1.5".to_owned(),
            gr_str: "1.5".to_owned(),
            locked_column: Column::Ratio,
        };
        assert(app.left.t_str@ =~= seq!['1', '0']);
        assert(app.right.t_str@ =~= seq!['1', '5']);
        assert(app.gr_str@ =~= seq!['1', '.', '5']);
        app
    }

    /// Teeth of the left gear.
    pub fn left_teeth(&self) -> (teeth: u32)
        ensures
            teeth == self@.left_teeth,
    {
        self.left.teeth
    }

    /// Teeth of the right gear.
    pub fn right_teeth(&self) -> (teeth: u32)
        ensures
            teeth == self@.right_teeth,
    {
        self.right.teeth
    }

    /// The ratio that was asked for.
    pub fn given_ratio(&self) -> (ratio: Ratio)
        ensures
            ratio.num == self@.given_ratio,
            ratio.den == RATIO_UNIT,
    {
        Ratio { num: self.given_ratio, den: RATIO_UNIT }
    }

    /// The ratio that the teeth realise.
    pub fn actual_ratio(&self) -> (ratio: Ratio)
        ensures
            ratio.num == self@.actual_num,
            ratio.den == self@.actual_den,
            self@.ratio_current() ==> ratio.is_quotient(
                self@.right_teeth as int,
                self@.left_teeth as int,
            ),
    {
        self.actual_ratio
    }

    /// The column that is locked.
    pub fn locked_column(&self) -> (column: Column)
        ensures
            column == self@.locked,
    {
        self.locked_column
    }

    /// The number in the given column: a tooth count, or the given ratio in
    /// hundredths.
    pub fn value(&self, column: Column) -> (value: u32)
        ensures
            value == self@.quantity(column),
    {
        match column {
            Column::Left => self.left.teeth,
            Column::Ratio => self.given_ratio,
            Column::Right => self.right.teeth,
        }
    }

    /// The text of the given column's field.
    pub fn text(&self, column: Column) -> (text: &str)
        ensures
            text@ == self@.text(column),
    {
        match column {
            Column::Left => self.left.t_str.as_str(),
            Column::Ratio => self.gr_str.as_str(),
            Column::Right => self.right.t_str.as_str(),
        }
    }

    /// The text that shows the actual ratio.
    pub fn actual_text(&self) -> (text: &str)
        ensures
            text@ == self@.actual_text,
    {
        self.ar_str.as_str()
    }

    /// Locks `column` in place of the column that was locked. Nothing is
    /// recomputed: no number and no text changes.
    pub fn set_locked(&mut self, column: Column)
        ensures
            final(self)@ == (Gears { locked: column, ..old(self)@ }),
    {
        self.locked_column = column;
    }

    /// Takes the actual ratio from the teeth: right by left.
    pub fn compute_ratio(&mut self)
        requires
            old(self).wf(),
        ensures
            final(self)@ == old(self)@.with_ratio(),
            final(self).wf(),
            final(self)@.ratio_current(),
    {
        self.actual_ratio = Ratio { num: self.right.teeth, den: self.left.teeth };
        let shown: u64 = round_div_u64(
            self.right.teeth as u64 * ACTUAL_UNIT as u64,
            self.left.teeth as u64,
        );
        self.ar_str = format_fixed(shown, ACTUAL_PRECISION);
    }

    /// Takes the left gear's teeth from the right gear's and the given ratio,
    /// then the actual ratio from the teeth.
    pub fn compute_l_teeth(&mut self)
        requires
            old(self).wf(),
        ensures
            final(self)@ == old(self)@.with_left(),
            final(self).wf(),
            final(self)@.ratio_current(),
    {
        self.left.teeth = scale_teeth(self.right.teeth, RATIO_UNIT, self.given_ratio);
        self.left.t_str = format_fixed(self.left.teeth as u64, TEETH_PRECISION);
        self.compute_ratio();
    }

    /// Takes the right gear's teeth from the left gear's and the given ratio,
    /// then the actual ratio from the teeth.
    pub fn compute_r_teeth(&mut self)
        requires
            old(self).wf(),
        ensures
            final(self)@ == old(self)@.with_right(),
            final(self).wf(),
            final(self)@.ratio_current(),
    {
        self.right.teeth = scale_teeth(self.left.teeth, self.given_ratio, RATIO_UNIT);
        self.right.t_str = format_fixed(self.right.teeth as u64, TEETH_PRECISION);
        self.compute_ratio();
    }

    /// Recomputes the quantity that is neither locked nor the one just
    /// edited. The edited column may not be the locked one.
    pub fn recompute_from(&mut self, column: Column)
        requires
            old(self).wf(),
            column != old(self)@.locked,
        ensures
            final(self)@ == old(self)@.recomputed(column),
            final(self).wf(),
            final(self)@.ratio_current(),
    {
        let c = Column::get_missing(column, self.locked_column);
        match c {
            Column::Left => self.compute_l_teeth(),
            Column::Ratio => self.compute_ratio(),
            Column::Right => self.compute_r_teeth(),
        }
    }

    /// Sets the number in `column` to `value`, a tooth count or a ratio in
    /// hundredths, shows it in the column's field, and recomputes the
    /// quantity that is neither this column nor the locked one. The column
    /// may not be the locked one, and the value is at least one.
    pub fn edit(&mut self, column: Column, value: u32)
        requires
            old(self).wf(),
            column != old(self)@.locked,
            value >= 1,
        ensures
            final(self)@ == old(self)@.edited(column, value as nat),
            final(self).wf(),
            final(self)@.ratio_current(),
    {
        match column {
            Column::Left => {
                self.left.teeth = value;
                self.left.t_str = format_fixed(value as u64, TEETH_PRECISION);
            },
            Column::Ratio => {
                self.given_ratio = value;
                self.gr_str = format_fixed(value as u64, RATIO_PRECISION);
            },
            Column::Right => {
                self.right.teeth = value;
                self.right.t_str = format_fixed(value as u64, TEETH_PRECISION);
            },
        }
        self.recompute_from(column);
    }

    /// Applies `event` to the field of a gear, and recomputes from that gear
    /// where the event changes its teeth.
    fn gear_column(&mut self, column: Column, event: SpinnerEvent) -> (changed: bool)
        requires
            old(self).wf(),
            column != Column::Ratio,
        ensures
            final(self)@ == old(self)@.updated(column, event),
            changed == old(self)@.spun_field(column, event).changed,
            final(self).wf(),
            old(self)@.ratio_current() ==> final(self)@.ratio_current(),
    {
        let interactive = column != self.locked_column;
        let changed = match column {
            Column::Left => number_spinner(
                &mut self.left.teeth,
                &mut self.left.t_str,
                interactive,
                TEETH_STEP,
                TEETH_MIN,
                TEETH_MAX,
                TEETH_PRECISION,
                event,
            ),
            _ => number_spinner(
                &mut self.right.teeth,
                &mut self.right.t_str,
                interactive,
                TEETH_STEP,
                TEETH_MIN,
                TEETH_MAX,
                TEETH_PRECISION,
                event,
            ),
        };
        if changed {
            self.recompute_from(column);
        }
        changed
    }

    /// Applies `event` to the field of the given ratio, and recomputes from
    /// the ratio where the event changes it.
    fn ratio_column(&mut self, event: SpinnerEvent) -> (changed: bool)
        requires
            old(self).wf(),
        ensures
            final(self)@ == old(self)@.updated(Column::Ratio, event),
            changed == old(self)@.spun_field(Column::Ratio, event).changed,
            final(self).wf(),
            old(self)@.ratio_current() ==> final(self)@.ratio_current(),
    {
        let interactive = self.locked_column != Column::Ratio;
        let changed = number_spinner(
            &mut self.given_ratio,
            &mut self.gr_str,
            interactive,
            RATIO_STEP,
            RATIO_MIN,
            RATIO_MAX,
            RATIO_PRECISION,
            event,
        );
        if changed {
            self.recompute_from(Column::Ratio);
        }
        changed
    }

    /// Applies `event` to the field of `column`. Where the event changes the
    /// value of the field, the quantity that is neither this column nor the
    /// locked one is recomputed, and the result is `true`. The field of the
    /// locked column takes no step and no typed text.
    pub fn update(&mut self, column: Column, event: SpinnerEvent) -> (changed: bool)
        requires
            old(self).wf(),
        ensures
            final(self)@ == old(self)@.updated(column, event),
            changed == old(self)@.spun_field(column, event).changed,
            final(self).wf(),
            old(self)@.ratio_current() ==> final(self)@.ratio_current(),
    {
        match column {
            Column::Ratio => self.ratio_column(event),
            _ => self.gear_column(column, event),
        }
    }
}

/// After a recompute the actual ratio is the quotient of the right gear's
/// teeth by the left gear's, whichever quantity was recomputed, and the gear
/// pair is still valid.
pub proof fn lemma_recomputed_ratio_current(g: Gears, edited: Column)
    requires
        g.valid(),
        edited != g.locked,
    ensures
        g.recomputed(edited).valid(),
        g.recomputed(edited).ratio_current(),
        g.recomputed(edited).actual_num == g.recomputed(edited).right_teeth,
        g.recomputed(edited).actual_den == g.recomputed(edited).left_teeth,
{
}

/// A recompute changes the quantity that is neither edited nor locked, and
/// no other: the two other quantities, their texts and the lock stay.
pub proof fn lemma_recomputed_keeps_others(g: Gears, edited: Column, column: Column)
    requires
        edited != g.locked,
        column != Column::missing(edited, g.locked),
    ensures
        g.recomputed(edited).locked == g.locked,
        g.recomputed(edited).quantity(column) == g.quantity(column),
        g.recomputed(edited).text(column) == g.text(column),
{
}

/// Recomputing twice from the same column, with no edit in between, gives
/// what recomputing once gives: the same teeth, the same actual ratio, the
/// same texts.
pub proof fn lemma_recomputed_idempotent(g: Gears, edited: Column)
    ensures
        g.recomputed(edited).recomputed(edited) == g.recomputed(edited),
{
}

/// Typing a number into a field that is not locked does what setting that
/// number does, but for the text of the field, which stays as it was typed:
/// the number is forced into the bounds of the field, and the quantity that
/// is neither edited nor locked is recomputed from it.
pub proof fn lemma_typed_number_is_edit(g: Gears, column: Column, typed: String, value: nat)
    requires
        g.valid(),
        column != g.locked,
        parse_value(typed@, Gears::precision(column)) == Some(value),
    ensures
        ({
            let bounded = g.spun_field(column, SpinnerEvent::Edited(typed)).value;
            let by_event = g.updated(column, SpinnerEvent::Edited(typed));
            let by_edit = g.edited(column, bounded as nat);
            &&& bounded == if column == Column::Ratio {
                clamped(saturate(value), RATIO_MIN, RATIO_MAX)
            } else {
                clamped(saturate(value), TEETH_MIN, TEETH_MAX)
            }
            &&& by_event == g.with_field(column, bounded as nat, typed@).recomputed(column)
            &&& by_event.left_teeth == by_edit.left_teeth
            &&& by_event.right_teeth == by_edit.right_teeth
            &&& by_event.given_ratio == by_edit.given_ratio
            &&& by_event.actual_num == by_edit.actual_num
            &&& by_event.actual_den == by_edit.actual_den
            &&& by_event.actual_text == by_edit.actual_text
        }),
{
}

/// No event makes a valid gear pair invalid: a tooth count never goes below
/// one, whatever is typed and however often a field is stepped down, and the
/// given ratio stays above zero. Nor does an event leave the actual ratio
/// behind the teeth.
pub proof fn lemma_updated_valid(g: Gears, column: Column, event: SpinnerEvent)
    requires
        g.valid(),
    ensures
        g.updated(column, event).valid(),
        g.updated(column, event).left_teeth >= 1,
        g.updated(column, event).right_teeth >= 1,
        g.updated(column, event).given_ratio >= 1,
        g.ratio_current() ==> g.updated(column, event).ratio_current(),
{
    let field = g.spun_field(column, event);
    let edited = g.with_field(column, field.value as nat, field.text);
    assert(field.value >= 1) by {
        match column {
            Column::Ratio => {
                lemma_steps_stay_in_bounds(g.given_ratio as u32, RATIO_STEP, 1, u32::MAX, 1);
            },
            _ => {
                lemma_steps_stay_in_bounds(
                    g.quantity(column) as u32,
                    TEETH_STEP,
                    TEETH_MIN,
                    TEETH_MAX,
                    1,
                );
            },
        }
    }
    assert(edited.valid());
    if field.changed {
        assert(column != g.locked);
        lemma_recomputed_ratio_current(edited, column);
    }
}

/// The locked quantity is never edited and never recomputed: no event, on
/// whichever field, changes the lock or the number in the locked column.
pub proof fn lemma_updated_keeps_locked(g: Gears, column: Column, event: SpinnerEvent)
    requires
        g.valid(),
    ensures
        g.updated(column, event).locked == g.locked,
        g.updated(column, event).quantity(g.locked) == g.quantity(g.locked),
{
}

} // verus!
