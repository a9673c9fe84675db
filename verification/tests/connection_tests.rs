use service::{Connection, Request, Response, State, Stats};

fn test_response(bytes_read: usize, rx: &[u8], tx: &[u8]) -> (usize, Vec<u8>) {
    let mut state: State = Default::default();
    let mut conn = Connection::new_with(rx, tx, bytes_read);
    let size = conn.create_response(&mut state);
    (size, conn.tx.to_bytes())
}

#[test]
fn test_compress_invalid_characters() {
    let rx = [83u8, 84, 82, 89, 0, 1, 0, 4, 65];
    let tx = [0u8; 9];
    let bytes_read = rx.len();
    let (response_size, out) = test_response(bytes_read, &rx, &tx);
    let n = Response::MessagePayloadContainsInvalidCharacters.code() as u8;
    let result = [83u8, 84, 82, 89, 0, 0, 0, n];
    assert_eq!(out[..response_size], result);
}

#[test]
fn test_compress() {
    let request = Request::Compress.code() as u8;
    let rx = [83u8, 84, 82, 89, 0, 3, 0, request, 97, 97, 97];
    let tx = [0u8; 11];
    let mut state = State::new();
    state.update_read(11);
    let mut conn = Connection::new_with(&rx[..], &tx[..], 11);
    let size = conn.create_response(&mut state);

    assert_eq!(size, 10);
    assert_eq!(&conn.tx.to_bytes()[..size], &[83u8, 84, 82, 89, 0, 2, 0, 0, 51, 97]);

    let stats = Stats::new_with(11, 0, 33);
    let expected_state = State::new_with(stats, 3, 2, 0);
    assert_eq!(state, expected_state);
}

#[test]
fn test_ping() {
    let rx = [83u8, 84, 82, 89, 0, 0, 0, Request::Ping.code() as u8];
    let tx = [0u8; 9];
    let bytes_read = rx.len();
    let mut state = State::new();
    state.update_read(bytes_read);
    let mut conn = Connection::new_with(&rx[..], &tx[..], bytes_read);
    let size = conn.create_response(&mut state);

    assert_eq!(size, 8);
    assert_eq!(&conn.tx.to_bytes()[..size], &[83u8, 84, 82, 89, 0, 0, 0, 0]);

    let stats = Stats::new_with(bytes_read as u32, 0, 0);
    let expected_state = State::new_with(stats, 0, 0, 0);
    assert_eq!(state, expected_state);
}

#[test]
fn test_get_stats() {
    let request = Request::Compress.code() as u8;
    let rx = [83u8, 84, 82, 89, 0, 3, 0, request, 97, 97, 97];
    let tx = [0u8; 11];
    let mut state = State::new();
    state.update_read(11);
    let mut conn = Connection::new_with(&rx[..], &tx[..], 11);
    let size = conn.create_response(&mut state);
    state.update_sent(size);

    let rx = [83u8, 84, 82, 89, 0, 0, 0, Request::GetStats.code() as u8];
    let tx = [0u8; 17];
    let bytes_read = rx.len();

    let mut conn = Connection::new_with(&rx[..], &tx[..], bytes_read);
    let size = conn.create_response(&mut state);

    assert_eq!(size, 17);
    assert_eq!(
        &conn.tx.to_bytes()[..size],
        &[
            83u8, 84, 82, 89, 0, 9, 0, 0, //
            0, 0, 0, 11, 0, 0, 0, 10, 33
        ]
    );
}

#[test]
fn test_reset_stats() {
    let tx = [0u8; 20];
    let mut state = State::new();

    let request = Request::Compress.code() as u8;
    let rx = [83u8, 84, 82, 89, 0, 3, 0, request, 97, 97, 97];
    state.update_read(rx.len());
    let mut conn = Connection::new_with(&rx[..], &tx[..], rx.len());
    let size = conn.create_response(&mut state);
    state.update_sent(size);

    let request = Request::GetStats.code() as u8;
    let rx = [83u8, 84, 82, 89, 0, 0, 0, request];
    let mut conn = Connection::new_with(&rx[..], &tx[..], rx.len());
    let size = conn.create_response(&mut state);
    assert_eq!(size, 17);
    assert_eq!(
        &conn.tx.to_bytes()[..size],
        &[83u8, 84, 82, 89, 0, 9, 0, 0, 0_u8, 0, 0, 11, 0, 0, 0, 10, 33]
    );

    let request = Request::ResetStats.code() as u8;
    let rx = [83u8, 84, 82, 89, 0, 0, 0, request];
    let mut conn = Connection::new_with(&rx[..], &tx[..], rx.len());
    let size = conn.create_response(&mut state);
    assert_eq!(size, 8);
    assert_eq!(&conn.tx.to_bytes()[..size], &[83u8, 84, 82, 89, 0, 0, 0, 0]);
}

#[test]
fn test_get_stats_after_reset_reports_zeroes() {
    let tx = [0u8; 20];
    let mut state = State::new();

    let rx = [83u8, 84, 82, 89, 0, 3, 0, 4, 97, 97, 97];
    let mut conn = Connection::new_with(&rx[..], &tx[..], rx.len());
    conn.create_response(&mut state);

    let rx = [83u8, 84, 82, 89, 0, 0, 0, 3];
    let mut conn = Connection::new_with(&rx[..], &tx[..], rx.len());
    let size = conn.create_response(&mut state);
    assert_eq!(size, 8);
    assert_eq!(&conn.tx.to_bytes()[..size], &[83u8, 84, 82, 89, 0, 0, 0, 0]);

    let rx = [83u8, 84, 82, 89, 0, 0, 0, 2];
    let mut conn = Connection::new_with(&rx[..], &tx[..], rx.len());
    let size = conn.create_response(&mut state);
    assert_eq!(size, 17);
    assert_eq!(
        &conn.tx.to_bytes()[..size],
        &[83u8, 84, 82, 89, 0, 9, 0, 0, 0, 0, 0, 0, 0, 0, 0, 0, 0]
    );
}

#[test]
fn test_ratio_accumulates_over_requests() {
    // two compressions: "aaa" -> "3a" and "bbb" -> "3b";
    // totals 6 raw, 4 compressed; ratio = floor((1 - 4/6) * 100) = 33
    let tx = [0u8; 20];
    let mut state = State::new();

    let rx = [83u8, 84, 82, 89, 0, 3, 0, 4, 97, 97, 97];
    let mut conn = Connection::new_with(&rx[..], &tx[..], rx.len());
    conn.create_response(&mut state);

    let rx = [83u8, 84, 82, 89, 0, 3, 0, 4, 98, 98, 98];
    let mut conn = Connection::new_with(&rx[..], &tx[..], rx.len());
    conn.create_response(&mut state);

    let rx = [83u8, 84, 82, 89, 0, 0, 0, 2];
    let mut conn = Connection::new_with(&rx[..], &tx[..], rx.len());
    let size = conn.create_response(&mut state);
    assert_eq!(size, 17);
    let out = conn.tx.to_bytes();
    assert_eq!(out[16], 33);
}

#[test]
fn test_parse_slices_views_buffers() {
    let rx = [83u8, 84, 82, 89, 0, 4, 0, 4, 115, 116, 114, 121];
    let tx = [0u8; 12];
    let conn = Connection::parse_slices(&rx[..], &tx[..], 12);
    assert_eq!(conn.rx.header.size(), 4);
    assert_eq!(conn.rx.payload, vec![115u8, 116, 114, 121]);
    assert_eq!(conn.message_len, 12);
}
