use service::server::{classify_read, drain_is_abusive, handle_frame, parse_len, ReadDisposition};
use service::message::{MAX_MESSAGE, MAX_MESSAGE_PADDED};
use service::State;

#[test]
fn test_classify_read() {
    assert_eq!(classify_read(0), ReadDisposition::ConnectionClosed);
    assert_eq!(classify_read(1), ReadDisposition::ProcessFrame);
    assert_eq!(classify_read(MAX_MESSAGE), ReadDisposition::ProcessFrame);
    assert_eq!(classify_read(MAX_MESSAGE + 1), ReadDisposition::OversizeDrain);
}

#[test]
fn test_drain_is_abusive() {
    assert!(!drain_is_abusive(0));
    assert!(!drain_is_abusive(MAX_MESSAGE - 1));
    assert!(drain_is_abusive(MAX_MESSAGE));
    assert!(drain_is_abusive(MAX_MESSAGE + 8));
}

#[test]
fn test_parse_len() {
    assert_eq!(parse_len(0), 8);
    assert_eq!(parse_len(7), 8);
    assert_eq!(parse_len(8), 8);
    assert_eq!(parse_len(11), 11);
}

#[test]
fn test_handle_frame_compress_end_to_end() {
    // request: Compress "aaa"; response: "3a" under a Success header
    let mut rx = vec![0u8; MAX_MESSAGE_PADDED];
    let frame = [83u8, 84, 82, 89, 0, 3, 0, 4, 97, 97, 97];
    rx[..frame.len()].copy_from_slice(&frame);
    let mut state = State::new();
    let out = handle_frame(&rx, frame.len(), &mut state);
    assert_eq!(out, vec![83u8, 84, 82, 89, 0, 2, 0, 0, 51, 97]);
}

#[test]
fn test_handle_frame_uppercase_rejected_end_to_end() {
    // request: Compress "A"; response: header-only, code 39
    let mut rx = vec![0u8; MAX_MESSAGE_PADDED];
    let frame = [83u8, 84, 82, 89, 0, 1, 0, 4, 65];
    rx[..frame.len()].copy_from_slice(&frame);
    let mut state = State::new();
    let out = handle_frame(&rx, frame.len(), &mut state);
    assert_eq!(out, vec![83u8, 84, 82, 89, 0, 0, 0, 39]);
}

#[test]
fn test_handle_frame_short_read() {
    let mut rx = vec![0u8; MAX_MESSAGE_PADDED];
    rx[0] = 83;
    let mut state = State::new();
    let out = handle_frame(&rx, 3, &mut state);
    assert_eq!(out, vec![83u8, 84, 82, 89, 0, 0, 0, 34]);
}
