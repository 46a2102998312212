use shepherd::mouse::apply_scroll;
use shepherd::mouse::is_mouse_event;
use shepherd::mouse::parse_scroll_event;
use shepherd::mouse::scan_input;
use shepherd::mouse::MAX_SCROLLBACK;

#[test]
fn sgr_scroll_up_is_one() {
    let r = parse_scroll_event(b"\x1b[<64;1;1M");
    assert_eq!(r, Some(1));
    assert!(is_mouse_event(b"\x1b[<64;1;1M"));
}

#[test]
fn sgr_scroll_down_is_minus_one() {
    let r = parse_scroll_event(b"\x1b[<65;10;3M");
    assert_eq!(r, Some(-1));
}

#[test]
fn legacy_reports_are_consumed_without_scrolling() {
    // The masked button bits of a legacy report can never equal the scroll
    // codes, so such reports are swallowed whole and move nothing.
    let up = [0x1bu8, b'[', b'M', 96, 33, 33];
    let down = [0x1bu8, b'[', b'M', 97, 33, 33];
    assert_eq!(parse_scroll_event(&up), None);
    assert_eq!(parse_scroll_event(&down), None);
    assert!(is_mouse_event(&up));
    assert!(is_mouse_event(&down));
    let (delta, rest) = scan_input(&up);
    assert_eq!(delta, 0);
    assert!(rest.is_empty());
}

#[test]
fn concatenated_events_sum() {
    let bytes = b"\x1b[<64;1;1M\x1b[<64;1;1M\x1b[<65;1;1M";
    assert_eq!(parse_scroll_event(bytes), Some(1));
    assert!(is_mouse_event(bytes));
}

#[test]
fn plain_text_is_not_mouse() {
    assert_eq!(parse_scroll_event(b"hello"), None);
    assert!(!is_mouse_event(b"hello"));
    assert!(!is_mouse_event(b""));
}

#[test]
fn click_events_are_mouse_but_not_scroll() {
    let bytes = b"\x1b[<0;5;7M";
    assert_eq!(parse_scroll_event(bytes), None);
    assert!(is_mouse_event(bytes));
}

#[test]
fn scan_splits_mouse_from_text() {
    let (delta, rest) = scan_input(b"hello\x1b[<64;1;1Mworld");
    assert_eq!(delta, 1);
    assert_eq!(rest, b"helloworld".to_vec());
}

#[test]
fn scroll_clamps_at_scrollback_cap() {
    assert_eq!(apply_scroll(MAX_SCROLLBACK, 5), MAX_SCROLLBACK);
    assert_eq!(apply_scroll(998, 5), MAX_SCROLLBACK);
    assert_eq!(apply_scroll(3, -5), 0);
    assert_eq!(apply_scroll(3, -3), 0);
    assert_eq!(apply_scroll(5, 2), 7);
    assert_eq!(apply_scroll(5, -2), 3);
}
