use service::message::{Message, Request, Response, HEADER_SIZE, MAGIC, MAX_MESSAGE};

#[test]
fn test_payload() {
    let buf = [83u8, 84, 82, 89, 0, 3, 0, 4, 97, 97, 97];
    let payload = Message::parse_mut(&buf[..]).unwrap();
    assert_eq!(payload.header.sign(), MAGIC);
    assert_eq!(payload.header.size(), 3);
    assert_eq!(payload.header.code(), 4);
    assert_eq!(
        Request::from_u16(payload.header.code()),
        Some(Request::Compress)
    );
}

#[test]
fn test_message_too_large() {
    let rx = vec![0u8; MAX_MESSAGE + 8];
    let bytes_read = MAX_MESSAGE + 8;
    let mut message = Message::parse_mut(&rx[..]).unwrap();
    message.set_size(bytes_read as u16);
    message.set_code(4);
    assert_eq!(message.validate(bytes_read), Response::MessageTooLarge);
}

#[test]
fn test_message_too_small() {
    let rx = [83u8, 84, 82, 89, 0, 0, 0, 0];
    let bytes_read = 7;
    assert_eq!(
        Message::parse_mut(&rx[..]).unwrap().validate(bytes_read),
        Response::MessageTooSmall
    );
}

#[test]
fn test_message_header_size_mismatch() {
    let rx = [83u8, 84, 82, 89, 0, 0, 0, 0, 97];
    let bytes_read = rx.len();
    assert!(Message::parse_mut(&rx[..])
        .unwrap()
        .validate(bytes_read)
        .eq(&Response::MessageHeaderSizeMismatch));

    let rx = [83u8, 84, 82, 89, 0, 3, 0, 4];
    let bytes_read = rx.len();
    assert!(Message::parse_mut(&rx[..])
        .unwrap()
        .validate(bytes_read)
        .eq(&Response::MessageHeaderSizeMismatch));

    // header.size = 1, payload.len = 2
    let rx = [83u8, 84, 82, 89, 0, 1, 0, 4, 97, 97];
    let bytes_read = rx.len();
    assert!(Message::parse_mut(&rx[..])
        .unwrap()
        .validate(bytes_read)
        .eq(&Response::MessageHeaderSizeMismatch));
}

#[test]
fn test_message_request_requires_zero_length() {
    let rx = [83u8, 84, 82, 89, 0, 1, 0, 0, 97];
    let bytes_read = rx.len();
    let mut message = Message::parse_mut(&rx[..]).unwrap();
    {
        message.set_code(1);
        assert_eq!(
            message.validate(bytes_read),
            Response::RequestKindRequiresZeroLength
        );
    }
    {
        message.set_code(2);
        assert_eq!(
            message.validate(bytes_read),
            Response::RequestKindRequiresZeroLength
        );
    }
    {
        message.set_code(4);
        assert_eq!(message.validate(bytes_read), Response::Success);
    }
}

#[test]
fn test_compression_request_requires_non_zero() {
    let rx = [83u8, 84, 82, 89, 0, 0, 0, 4];
    let bytes_read = rx.len();
    assert!(Message::parse_mut(&rx[..])
        .unwrap()
        .validate(bytes_read)
        .eq(&Response::CompressionRequestRequiresNonZeroLength));
}

#[test]
fn test_bad_magic_rejected() {
    let rx = [0u8, 0, 0, 0, 0, 0, 0, 1];
    let bytes_read = rx.len();
    assert_eq!(
        Message::parse_mut(&rx[..]).unwrap().validate(bytes_read),
        Response::MessageHeaderHasBadMagic
    );
}

#[test]
fn test_unsupported_request_rejected() {
    let rx = [83u8, 84, 82, 89, 0, 0, 0, 9];
    let bytes_read = rx.len();
    assert_eq!(
        Message::parse_mut(&rx[..]).unwrap().validate(bytes_read),
        Response::UnsupportedRequestType
    );
}

#[test]
fn test_parse_too_short_returns_none() {
    let buf = [83u8, 84, 82, 89, 0, 3, 0];
    assert!(Message::parse(&buf[..]).is_none());
    assert!(service::message::can_parse(&buf[..]) == false);
    let buf = [83u8, 84, 82, 89, 0, 0, 0, 1];
    assert!(Message::parse(&buf[..]).is_some());
    assert!(service::message::can_parse(&buf[..]));
}

#[test]
fn test_header_round_trip() {
    let buf = [83u8, 84, 82, 89, 0, 3, 0, 4];
    let header = service::message::Header::from_bytes(&buf[..]);
    assert_eq!(header.sign(), 0x5354_5259);
    assert_eq!(header.size(), 3);
    assert_eq!(header.code(), 4);
    assert_eq!(header.to_bytes(), buf.to_vec());
}

#[test]
fn test_set_payload_capacity() {
    let buf = [83u8, 84, 82, 89, 0, 2, 0, 4, 0, 0];
    let mut message = Message::parse_mut(&buf[..]).unwrap();
    assert!(message.set_payload(&[97u8, 98]).is_ok());
    assert_eq!(message.payload, vec![97u8, 98]);
    assert!(message.set_payload(&[97u8, 98, 99]).is_err());
    assert_eq!(message.payload, vec![97u8, 98]);
}

#[test]
fn test_request_codes() {
    assert_eq!(Request::from_u16(1), Some(Request::Ping));
    assert_eq!(Request::from_u16(2), Some(Request::GetStats));
    assert_eq!(Request::from_u16(3), Some(Request::ResetStats));
    assert_eq!(Request::from_u16(4), Some(Request::Compress));
    assert_eq!(Request::from_u16(0), None);
    assert_eq!(Request::from_u16(5), None);
    assert_eq!(Response::MessagePayloadContainsInvalidCharacters.code(), 39);
    assert_eq!(Response::Success.code(), 0);
    assert_eq!(Response::MessageTooSmall.code(), 34);
    assert_eq!(HEADER_SIZE, 8);
}
