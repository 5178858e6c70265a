use chaikin::toast::{Clock, Toast, TOAST_DURATION};

#[test]
fn test_new_toast_is_not_showing() {
    let toast = Toast::new();
    assert_eq!(toast.message, "");
    assert_eq!(toast.shown_since, None);
    assert!(!toast.is_showing());
    assert!(!toast.is_showing_at(0));
    assert!(!toast.is_showing_at(u128::MAX));
}

#[test]
fn test_shown_toast_is_showing() {
    let mut toast = Toast::new();
    toast.show("saved");
    assert_eq!(toast.message, "saved");
    assert!(toast.shown_since.is_some());
    assert!(toast.is_showing());
}

#[test]
fn test_dismiss_is_idempotent_and_keeps_the_message() {
    let mut toast = Toast::new();
    toast.show("saved");
    toast.dismiss();
    assert!(!toast.is_showing());
    assert_eq!(toast.shown_since, None);
    assert_eq!(toast.message, "saved");
    toast.dismiss();
    assert!(!toast.is_showing());
    assert_eq!(toast.message, "saved");
}

#[test]
fn test_toast_runs_out_after_its_duration() {
    assert_eq!(TOAST_DURATION, 8_000_000_000);
    let mut toast = Toast::new();
    toast.show_at("a", 1_000);
    assert_eq!(toast.shown_since, Some(1_000));
    assert!(toast.is_showing_at(1_000));
    assert!(toast.is_showing_at(1_000 + TOAST_DURATION - 1));
    assert!(!toast.is_showing_at(1_000 + TOAST_DURATION));
    assert!(!toast.is_showing_at(u128::MAX));
    // a reading before the toast was shown counts as no time passed
    assert!(toast.is_showing_at(0));
    toast.show_at("b", 5_000);
    assert_eq!(toast.message, "b");
    assert!(toast.is_showing_at(1_000 + TOAST_DURATION));
}

#[test]
fn test_clock_does_not_run_backwards() {
    let clock = Clock::start();
    let first = clock.now();
    let second = clock.now();
    assert!(first <= second);
    let toast = Toast::with_clock(clock);
    assert!(second <= toast.now());
}

#[test]
fn test_show_stamps_the_clock_reading() {
    let mut toast = Toast::new();
    let before = toast.now();
    toast.show("x");
    let after = toast.now();
    let since = toast.shown_since.unwrap();
    assert!(before <= since && since <= after);
}
