use wbor_studio_dashboard::error_state::{error_window_should_skip, error_window_step, hash_obj, ErrorState};

fn state_with(reports: &[(&str, &str)]) -> ErrorState {
    let mut state = ErrorState::new();
    for (source, err) in reports {
        state.report(source, err.to_string());
    }
    state
}

#[test]
fn single_error_message() {
    let state = state_with(&[("Twilio", "timed out")]);
    assert_eq!(state.make_message(), "Error encountered from 'Twilio' (timed out).");
}

#[test]
fn two_error_message() {
    let state = state_with(&[("Weather", "no key"), ("Spinitron", "bad gateway")]);
    assert_eq!(
        state.make_message(),
        "Errors encountered from 'Spinitron' (bad gateway), and 'Weather' (no key)."
    );
}

#[test]
fn three_errors_are_listed_in_source_order() {
    let state = state_with(&[("Weather", "x"), ("Spinitron", "y"), ("Twilio", "z")]);
    assert_eq!(
        state.make_message(),
        "Errors encountered from 'Spinitron' (y), 'Twilio' (z), and 'Weather' (x)."
    );
}

#[test]
fn source_order_is_by_code_point() {
    let state = state_with(&[("b", "1"), ("B", "2"), ("a", "3"), ("ab", "4")]);
    assert_eq!(
        state.make_message(),
        "Errors encountered from 'B' (2), 'a' (3), 'ab' (4), and 'b' (1)."
    );
}

#[test]
fn report_replaces_previous_error_of_source() {
    let state = state_with(&[("Twilio", "first"), ("Twilio", "second")]);
    assert_eq!(state.make_message(), "Error encountered from 'Twilio' (second).");
}

#[test]
fn unreport_removes_error() {
    let mut state = state_with(&[("Twilio", "x"), ("Weather", "y")]);
    state.unreport("Twilio");
    assert_eq!(state.make_message(), "Error encountered from 'Weather' (y).");
    state.unreport("Weather");
    assert!(state.is_empty());
    state.unreport("never reported");
    assert!(state.is_empty());
}

#[test]
fn message_does_not_depend_on_report_order() {
    let a = state_with(&[("Weather", "x"), ("Spinitron", "y"), ("Twilio", "z")]);
    let b = state_with(&[("Twilio", "z"), ("Weather", "x"), ("Spinitron", "y")]);
    assert_eq!(a.make_message(), b.make_message());
}

#[test]
fn new_state_is_empty() {
    assert!(ErrorState::new().is_empty());
    assert!(!state_with(&[("a", "b")]).is_empty());
}

#[test]
fn equal_states_hash_equally() {
    let a = state_with(&[("Weather", "x"), ("Spinitron", "y")]);
    let b = state_with(&[("Spinitron", "y"), ("Weather", "x")]);
    assert_eq!(hash_obj(&a), hash_obj(&b));
}

#[test]
fn error_window_step_cases() {
    // First frame: remember the hash, skip the update only if there is nothing to show
    assert_eq!(error_window_step(None, 7, true), (Some(7), true, true));
    assert_eq!(error_window_step(None, 7, false), (Some(7), false, false));
    // Same hash: skip the update
    assert_eq!(error_window_step(Some(7), 7, false), (Some(7), true, false));
    // Changed hash: update unless there are no errors
    assert_eq!(error_window_step(Some(7), 8, false), (Some(8), false, false));
    assert_eq!(error_window_step(Some(7), 8, true), (Some(8), true, true));
}

#[test]
fn error_window_shows_errors_once_then_skips() {
    let state = state_with(&[("Twilio", "x")]);
    let mut remembered = None;
    assert_eq!(error_window_should_skip(&mut remembered, &state), (false, false));
    assert!(remembered.is_some());
    assert_eq!(error_window_should_skip(&mut remembered, &state), (true, false));
    let empty = ErrorState::new();
    let mut remembered_empty = None;
    assert_eq!(error_window_should_skip(&mut remembered_empty, &empty), (true, true));
}
