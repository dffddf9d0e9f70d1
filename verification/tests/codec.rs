use anyrun_provider::codec::{check_single_line, extract_line, frame_line, try_frame_line};

#[test]
fn frame_appends_exactly_one_terminator() {
    let framed = frame_line(b"{\"Reset\":null}".to_vec());
    assert_eq!(framed, b"{\"Reset\":null}\n".to_vec());
}

#[test]
fn embedded_terminator_is_rejected() {
    assert!(!check_single_line(&b"two\nlines".to_vec()));
    assert!(try_frame_line(b"two\nlines".to_vec()).is_none());
    assert_eq!(try_frame_line(b"one line".to_vec()), Some(b"one line\n".to_vec()));
}

#[test]
fn extract_splits_one_line_off_the_front() {
    let mut buf = b"first\nsecond\nrest".to_vec();
    assert_eq!(extract_line(&mut buf), Some(b"first".to_vec()));
    assert_eq!(buf, b"second\nrest".to_vec());
    assert_eq!(extract_line(&mut buf), Some(b"second".to_vec()));
    assert_eq!(buf, b"rest".to_vec());
}

#[test]
fn incomplete_line_waits_for_more_bytes() {
    let mut buf = b"partial".to_vec();
    assert_eq!(extract_line(&mut buf), None);
    assert_eq!(buf, b"partial".to_vec());
}

#[test]
fn empty_line_is_a_complete_line() {
    let mut buf = b"\nafter".to_vec();
    assert_eq!(extract_line(&mut buf), Some(Vec::new()));
    assert_eq!(buf, b"after".to_vec());
}

#[test]
fn framed_payload_round_trips_through_extraction() {
    let payload = b"{\"Query\":{\"text\":\"foo\"}}".to_vec();
    let mut buf = frame_line(payload.clone());
    buf.extend_from_slice(b"{\"Quit\":null}\n");
    assert_eq!(extract_line(&mut buf), Some(payload));
    assert_eq!(extract_line(&mut buf), Some(b"{\"Quit\":null}".to_vec()));
    assert_eq!(extract_line(&mut buf), None);
    assert!(buf.is_empty());
}
