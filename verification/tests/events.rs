use shepherd::events::EventKind;
use shepherd::events::StatusEvent;

#[test]
fn test_parse_event_stop() {
    let event = StatusEvent::parse_event(r#"{"session":"test-session","event":"stop"}"#);
    assert!(event.is_some());
    let event = event.unwrap();
    assert_eq!(event.session, "test-session");
    assert_eq!(event.event, EventKind::Stop);
}

#[test]
fn test_parse_event_notification() {
    let event = StatusEvent::parse_event(r#"{"session":"my-feature","event":"notification"}"#);
    assert!(event.is_some());
    let event = event.unwrap();
    assert_eq!(event.session, "my-feature");
    assert_eq!(event.event, EventKind::Notification);
}

#[test]
fn test_parse_event_invalid() {
    assert!(StatusEvent::parse_event("not json").is_none());
    assert!(StatusEvent::parse_event(r#"{"session":"test"}"#).is_none());
    assert!(StatusEvent::parse_event(r#"{"event":"stop"}"#).is_none());
}

#[test]
fn test_parse_event_whitespace_and_unknown_keys() {
    let event = StatusEvent::parse_event("  { \"session\" : \"a\" , \"event\" : \"stop\" , \"x\" : \"y\" }  ");
    assert!(event.is_some());
    let event = event.unwrap();
    assert_eq!(event.session, "a");
    assert_eq!(event.event, EventKind::Stop);
}

#[test]
fn test_parse_event_unknown_kind() {
    assert!(StatusEvent::parse_event(r#"{"session":"a","event":"start"}"#).is_none());
}
