use literm::terminal::{
    clamp_dim, clamped_size, client_event_action, parse_term_frame, pty_read_action, PtyForward,
    TermAction, TermClientEvent, TermFrame,
};

#[test]
fn resize_frame_decodes_big_endian_dimensions() {
    // 0x02 00 18 00 50: resize to 24 rows by 80 columns.
    let frame = [0x02u8, 0x00, 0x18, 0x00, 0x50];
    match parse_term_frame(&frame) {
        TermFrame::Resize { rows, cols } => {
            assert_eq!(rows, 24);
            assert_eq!(cols, 80);
        }
        _ => panic!("expected a resize frame"),
    }
}

#[test]
fn input_frame_yields_exact_payload() {
    // 0x01 then the bytes of "echo hi\n".
    let frame = [0x01u8, 0x65, 0x63, 0x68, 0x6F, 0x20, 0x68, 0x69, 0x0A];
    match parse_term_frame(&frame) {
        TermFrame::Input { data } => assert_eq!(data, b"echo hi\n".to_vec()),
        _ => panic!("expected an input frame"),
    }
}

#[test]
fn short_resize_frame_is_ignored() {
    let frame = [0x02u8, 0x00, 0x18, 0x00];
    assert!(matches!(parse_term_frame(&frame), TermFrame::Ignored));
}

#[test]
fn empty_and_unknown_frames_are_ignored() {
    assert!(matches!(parse_term_frame(&[]), TermFrame::Ignored));
    assert!(matches!(parse_term_frame(&[0x03, 1, 2, 3, 4]), TermFrame::Ignored));
    // An input opcode with no payload carries nothing to write.
    assert!(matches!(parse_term_frame(&[0x01]), TermFrame::Ignored));
}

#[test]
fn zero_dimensions_are_clamped_to_one() {
    assert_eq!(clamp_dim(0), 1);
    assert_eq!(clamp_dim(1), 1);
    assert_eq!(clamp_dim(400), 400);
    assert_eq!(clamped_size(0, 0), (1, 1));
    assert_eq!(clamped_size(24, 0), (24, 1));
}

#[test]
fn resize_action_carries_clamped_dimensions() {
    let frame = vec![0x02u8, 0x00, 0x00, 0x00, 0x00];
    match client_event_action(TermClientEvent::Binary { frame }) {
        TermAction::ResizePty { rows, cols } => {
            assert_eq!(rows, 1);
            assert_eq!(cols, 1);
        }
        _ => panic!("expected a resize action"),
    }
}

#[test]
fn input_event_writes_payload_in_order() {
    let frame = vec![0x01u8, 10, 20, 30];
    match client_event_action(TermClientEvent::Binary { frame }) {
        TermAction::WritePty { data } => assert_eq!(data, vec![10, 20, 30]),
        _ => panic!("expected a write action"),
    }
}

#[test]
fn ping_is_answered_and_close_disconnects() {
    match client_event_action(TermClientEvent::Ping { payload: vec![7, 8] }) {
        TermAction::SendPong { payload } => assert_eq!(payload, vec![7, 8]),
        _ => panic!("expected a pong"),
    }
    assert!(matches!(client_event_action(TermClientEvent::Close), TermAction::Disconnect));
    assert!(matches!(
        client_event_action(TermClientEvent::TransportError),
        TermAction::Disconnect
    ));
    assert!(matches!(client_event_action(TermClientEvent::Ended), TermAction::Disconnect));
    assert!(matches!(client_event_action(TermClientEvent::Text), TermAction::Ignore));
    assert!(matches!(client_event_action(TermClientEvent::Pong), TermAction::Ignore));
}

#[test]
fn pty_reads_forward_exactly_what_was_read() {
    let buf = vec![1u8, 2, 3, 4, 5];
    match pty_read_action(&buf, 3, false) {
        PtyForward::Send { data } => assert_eq!(data, vec![1, 2, 3]),
        _ => panic!("expected a send"),
    }
    assert!(matches!(pty_read_action(&buf, 0, false), PtyForward::CloseAndStop));
    assert!(matches!(pty_read_action(&buf, 2, true), PtyForward::Stop));
}
