use ritzel::spinner::number_spinner;
use ritzel::spinner::peek_above;
use ritzel::spinner::peek_below;
use ritzel::spinner::step_down;
use ritzel::spinner::step_up;
use ritzel::spinner::NumberSpinnerState;
use ritzel::spinner::SpinnerEvent;
use ritzel::spinner::DRAG_THRESHOLD;

#[test]
fn step_up_adds_the_step() {
    assert_eq!(step_up(10, 1, 100_000, 1), 11);
    assert_eq!(step_up(150, 10, 10_000, 1), 160);
    assert_eq!(step_up(150, 10, 10_000, 2), 170);
    assert_eq!(step_up(150, 10, 10_000, 0), 150);
}

#[test]
fn step_up_stops_at_the_maximum() {
    assert_eq!(step_up(9_995, 10, 10_000, 1), 10_000);
    assert_eq!(step_up(10_000, 10, 10_000, 1), 10_000);
    assert_eq!(step_up(9_985, 10, 10_000, 2), 10_000);
    assert_eq!(step_up(u32::MAX, 1, u32::MAX, 1), u32::MAX);
    assert_eq!(step_up(u32::MAX - 1, u32::MAX, u32::MAX, u32::MAX), u32::MAX);
    assert_eq!(step_up(5, 1, 3, 1), 3);
}

#[test]
fn step_down_subtracts_the_step() {
    assert_eq!(step_down(15, 1, 1, 1), Some(14));
    assert_eq!(step_down(2, 1, 1, 1), Some(1));
    assert_eq!(step_down(150, 10, 10, 1), Some(140));
    assert_eq!(step_down(150, 10, 10, 2), Some(130));
    assert_eq!(step_down(20, 10, 10, 1), Some(10));
}

#[test]
fn step_down_does_not_pass_the_minimum() {
    assert_eq!(step_down(1, 1, 1, 1), None);
    assert_eq!(step_down(2, 1, 1, 2), None);
    assert_eq!(step_down(15, 10, 10, 1), None);
    assert_eq!(step_down(19, 10, 10, 1), None);
    assert_eq!(step_down(5, u32::MAX, 1, 1), None);
    assert_eq!(step_down(u32::MAX, u32::MAX, 1, u32::MAX), None);
    assert_eq!(step_down(0, 1, 1, 1), None);
}

#[test]
fn peeks_of_a_tooth_count() {
    assert_eq!(peek_above(15, 1, u32::MAX, 0, 2), "17");
    assert_eq!(peek_above(15, 1, u32::MAX, 0, 1), "16");
    assert_eq!(peek_below(15, 1, 1, 0, 1), "14");
    assert_eq!(peek_below(15, 1, 1, 0, 2), "13");
    assert_eq!(peek_below(2, 1, 1, 0, 1), "1");
    assert_eq!(peek_below(2, 1, 1, 0, 2), "");
    assert_eq!(peek_below(1, 1, 1, 0, 1), "");
}

#[test]
fn peeks_of_a_ratio() {
    assert_eq!(peek_above(150, 10, 10_000, 2, 2), "1.70");
    assert_eq!(peek_above(150, 10, 10_000, 2, 1), "1.60");
    assert_eq!(peek_below(150, 10, 10, 2, 1), "1.40");
    assert_eq!(peek_below(150, 10, 10, 2, 2), "1.30");
    assert_eq!(peek_above(9_995, 10, 10_000, 2, 1), "100.00");
    assert_eq!(peek_above(9_995, 10, 10_000, 2, 2), "100.00");
    assert_eq!(peek_below(20, 10, 10, 2, 1), "0.10");
    assert_eq!(peek_below(20, 10, 10, 2, 2), "");
    assert_eq!(peek_below(10, 10, 10, 2, 1), "");
}

#[test]
fn spinner_steps_up_and_rewrites_the_text() {
    let mut value = 150u32;
    let mut text = String::from("1.5");
    let changed = number_spinner(&mut value, &mut text, true, 10, 10, 10_000, 2, SpinnerEvent::StepUp);
    assert!(changed);
    assert_eq!(value, 160);
    assert_eq!(text, "1.60");
}

#[test]
fn spinner_steps_down_and_rewrites_the_text() {
    let mut value = 150u32;
    let mut text = String::from("1.5");
    let changed = number_spinner(&mut value, &mut text, true, 10, 10, 10_000, 2, SpinnerEvent::StepDown);
    assert!(changed);
    assert_eq!(value, 140);
    assert_eq!(text, "1.40");
}

#[test]
fn spinner_at_the_maximum_stays_there() {
    let mut value = 10_000u32;
    let mut text = String::from("100");
    let changed = number_spinner(&mut value, &mut text, true, 10, 10, 10_000, 2, SpinnerEvent::StepUp);
    assert!(changed);
    assert_eq!(value, 10_000);
    assert_eq!(text, "100.00");
}

#[test]
fn spinner_at_the_minimum_stays_there() {
    let mut value = 1u32;
    let mut text = String::from("1");
    for _ in 0..5 {
        let changed = number_spinner(&mut value, &mut text, true, 1, 1, u32::MAX, 0, SpinnerEvent::StepDown);
        assert!(changed);
        assert_eq!(value, 1);
        assert_eq!(text, "1");
    }
}

#[test]
fn spinner_never_steps_below_the_minimum_whatever_the_step() {
    for step in [1u32, 2, 3, 7, 100, u32::MAX] {
        let mut value = 10u32;
        let mut text = String::from("10");
        for _ in 0..20 {
            number_spinner(&mut value, &mut text, true, step, 1, u32::MAX, 0, SpinnerEvent::StepDown);
            assert!(value >= 1);
        }
    }
}

#[test]
fn spinner_takes_typed_numerals() {
    let mut value = 10u32;
    let mut text = String::from("10");
    let changed = number_spinner(&mut value, &mut text, true, 1, 1, u32::MAX, 0, SpinnerEvent::Edited(String::from("20")));
    assert!(changed);
    assert_eq!(value, 20);
    assert_eq!(text, "20");
}

#[test]
fn spinner_keeps_the_value_when_typed_text_is_no_numeral() {
    let mut value = 10u32;
    let mut text = String::from("10");
    let changed = number_spinner(&mut value, &mut text, true, 1, 1, u32::MAX, 0, SpinnerEvent::Edited(String::from("2x")));
    assert!(!changed);
    assert_eq!(value, 10);
    assert_eq!(text, "2x");
    let changed = number_spinner(&mut value, &mut text, true, 1, 1, u32::MAX, 0, SpinnerEvent::LostFocus);
    assert!(!changed);
    assert_eq!(value, 10);
    assert_eq!(text, "10");
}

#[test]
fn spinner_clamps_typed_numbers() {
    let mut value = 10u32;
    let mut text = String::from("10");
    let changed = number_spinner(&mut value, &mut text, true, 1, 1, u32::MAX, 0, SpinnerEvent::Edited(String::from("0")));
    assert!(changed);
    assert_eq!(value, 1);
    assert_eq!(text, "0");
    number_spinner(&mut value, &mut text, true, 1, 1, u32::MAX, 0, SpinnerEvent::LostFocus);
    assert_eq!(text, "1");

    let mut ratio = 150u32;
    let mut ratio_text = String::from("1.5");
    let changed = number_spinner(&mut ratio, &mut ratio_text, true, 10, 10, 10_000, 2, SpinnerEvent::Edited(String::from("250")));
    assert!(changed);
    assert_eq!(ratio, 10_000);
    number_spinner(&mut ratio, &mut ratio_text, true, 10, 10, 10_000, 2, SpinnerEvent::LostFocus);
    assert_eq!(ratio_text, "100.00");

    let changed = number_spinner(&mut ratio, &mut ratio_text, true, 10, 10, 10_000, 2, SpinnerEvent::Edited(String::from("0.01")));
    assert!(changed);
    assert_eq!(ratio, 10);
    let changed = number_spinner(&mut ratio, &mut ratio_text, true, 10, 10, 10_000, 2, SpinnerEvent::Edited(String::from("99999999999999")));
    assert!(changed);
    assert_eq!(ratio, 10_000);
}

#[test]
fn spinner_leaves_text_that_writes_the_value() {
    let mut value = 150u32;
    let mut text = String::from("1.5");
    let changed = number_spinner(&mut value, &mut text, true, 10, 10, 10_000, 2, SpinnerEvent::LostFocus);
    assert!(!changed);
    assert_eq!(value, 150);
    assert_eq!(text, "1.5");
}

#[test]
fn spinner_that_is_not_interactive_takes_nothing() {
    let mut value = 150u32;
    let mut text = String::from("1.5");
    assert!(!number_spinner(&mut value, &mut text, false, 10, 10, 10_000, 2, SpinnerEvent::StepUp));
    assert!(!number_spinner(&mut value, &mut text, false, 10, 10, 10_000, 2, SpinnerEvent::StepDown));
    assert!(!number_spinner(&mut value, &mut text, false, 10, 10, 10_000, 2, SpinnerEvent::Edited(String::from("2.0"))));
    assert!(!number_spinner(&mut value, &mut text, false, 10, 10, 10_000, 2, SpinnerEvent::LostFocus));
    assert_eq!(value, 150);
    assert_eq!(text, "1.5");
}

#[test]
fn drag_state_starts_at_rest() {
    assert_eq!(NumberSpinnerState::default().offset, 0);
    assert_eq!(DRAG_THRESHOLD, 20_000);
}

#[test]
fn drag_gathers_distance_up_to_the_threshold() {
    let mut state = NumberSpinnerState::default();
    assert!(state.drag(15_000).is_none());
    assert_eq!(state.offset, 15_000);
    assert!(state.drag(5_000).is_none());
    assert_eq!(state.offset, 20_000);
    assert!(matches!(state.drag(1), Some(SpinnerEvent::StepUp)));
    assert_eq!(state.offset, 0);
}

#[test]
fn drag_the_other_way_steps_down() {
    let mut state = NumberSpinnerState::default();
    assert!(state.drag(-20_000).is_none());
    assert_eq!(state.offset, -20_000);
    assert!(matches!(state.drag(-1), Some(SpinnerEvent::StepDown)));
    assert_eq!(state.offset, 0);
}

#[test]
fn drag_without_movement_changes_nothing() {
    let mut state = NumberSpinnerState { offset: 30_000 };
    assert!(state.drag(0).is_none());
    assert_eq!(state.offset, 30_000);
    assert!(matches!(state.drag(1), Some(SpinnerEvent::StepUp)));
    assert_eq!(state.offset, 0);
}

#[test]
fn drag_takes_the_largest_movements() {
    let mut state = NumberSpinnerState { offset: i32::MAX };
    assert!(matches!(state.drag(i32::MAX), Some(SpinnerEvent::StepUp)));
    assert_eq!(state.offset, 0);
    let mut state = NumberSpinnerState { offset: i32::MIN };
    assert!(matches!(state.drag(i32::MIN), Some(SpinnerEvent::StepDown)));
    assert_eq!(state.offset, 0);
    let mut state = NumberSpinnerState { offset: i32::MAX };
    assert!(state.drag(i32::MIN).is_none());
    assert_eq!(state.offset, -1);
}

#[test]
fn events_can_be_copied_and_shown() {
    let event = SpinnerEvent::Edited(String::from("1.5"));
    let copy = event.clone();
    assert_eq!(format!("{:?}", copy), "Edited(\"1.5\")");
    assert_eq!(format!("{:?}", SpinnerEvent::StepUp), "StepUp");
}
