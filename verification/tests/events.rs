use poll_selector::Error;
use poll_selector::Interest;
use poll_selector::Token;
use poll_selector::event::Event;
use poll_selector::event::debug_details;
use poll_selector::event::is_aio;
use poll_selector::event::is_error;
use poll_selector::event::is_lio;
use poll_selector::event::is_priority;
use poll_selector::event::is_read_closed;
use poll_selector::event::is_readable;
use poll_selector::event::is_writable;
use poll_selector::event::is_write_closed;
use poll_selector::event::token;
use poll_selector::selector::Selector;
use poll_selector::waker::Waker;

#[test]
fn event_accessors_report_fields() {
    let ev = Event::new(42, true, false);
    assert_eq!(token(&ev), Token(42));
    assert!(is_readable(&ev));
    assert!(!is_writable(&ev));
    assert!(!is_error(&ev));
}

#[test]
fn error_event_sets_only_error_flag() {
    let ev = Event::new_error(7);
    assert_eq!(token(&ev), Token(7));
    assert!(!is_readable(&ev));
    assert!(!is_writable(&ev));
    assert!(is_error(&ev));
}

#[test]
fn unmodeled_readiness_kinds_are_always_false() {
    let ev = Event::new(1, true, true);
    assert!(!is_read_closed(&ev));
    assert!(!is_write_closed(&ev));
    assert!(!is_priority(&ev));
    assert!(!is_aio(&ev));
    assert!(!is_lio(&ev));
}

#[test]
fn debug_details_is_unsupported() {
    let ev = Event::new(1, false, false);
    assert_eq!(debug_details(&ev), Err(Error::Unsupported));
}

#[test]
fn interest_constructors() {
    assert!(Interest::readable_only().is_readable());
    assert!(!Interest::readable_only().is_writable());
    assert!(!Interest::writable_only().is_readable());
    assert!(Interest::writable_only().is_writable());
    assert!(Interest::both().is_readable());
    assert!(Interest::both().is_writable());
}

#[test]
fn register_waker_is_unsupported() {
    let sel = Selector::new().unwrap();
    assert_eq!(sel.register_waker(), Err(Error::Unsupported));
}

#[test]
fn waker_is_a_successful_no_op() {
    let sel = Selector::new().unwrap();
    let waker = Waker::new(&sel, Token(1)).unwrap();
    assert_eq!(waker.wake(), Ok(()));
}
