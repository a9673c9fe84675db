use service::client::{
    eq_bytes, repeated, test_cases, test_compress_fail_default, test_compress_ok, update_ratio,
    validate_getstats, validate_messages,
};
use service::{Test, TestKind, TestResults, State};

#[test]
fn test_message_bytes_builds_frames() {
    let v = Test::message_bytes(0x5354_5259, 3, 4, &[97u8, 97, 97]).unwrap();
    assert_eq!(v, vec![83u8, 84, 82, 89, 0, 3, 0, 4, 97, 97, 97]);
    let too_big = vec![97u8; 16421];
    assert!(Test::message_bytes(0x5354_5259, 0, 4, &too_big).is_none());
}

#[test]
fn test_header_builders() {
    assert_eq!(Test::header_bytes(0, 0, 1), vec![0u8, 0, 0, 0, 0, 0, 0, 1]);
    assert_eq!(Test::header_default(2), vec![83u8, 84, 82, 89, 0, 0, 0, 2]);
    assert_eq!(Test::request_ping(), vec![83u8, 84, 82, 89, 0, 0, 0, 1]);
    assert_eq!(Test::response_ping(), vec![83u8, 84, 82, 89, 0, 0, 0, 0]);
    assert_eq!(Test::request_get_stats(), vec![83u8, 84, 82, 89, 0, 0, 0, 2]);
    assert_eq!(
        Test::request_reset_stats(),
        vec![83u8, 84, 82, 89, 0, 0, 0, 3]
    );
    assert_eq!(
        Test::response_reset_stats(),
        vec![83u8, 84, 82, 89, 0, 0, 0, 0]
    );
    assert_eq!(
        Test::request_compress(&[97u8, 97, 97]),
        vec![83u8, 84, 82, 89, 0, 3, 0, 4, 97, 97, 97]
    );
    assert_eq!(
        Test::response_compress(&[51u8, 97]),
        vec![83u8, 84, 82, 89, 0, 2, 0, 0, 51, 97]
    );
    assert_eq!(
        Test::response_get_stats(&[0u8, 0, 0, 11, 0, 0, 0, 10, 33]),
        vec![83u8, 84, 82, 89, 0, 9, 0, 0, 0, 0, 0, 11, 0, 0, 0, 10, 33]
    );
    assert_eq!(
        Test::response_fail(service::Response::MessageTooSmall),
        vec![83u8, 84, 82, 89, 0, 0, 0, 34]
    );
}

#[test]
fn test_scripted_exchanges() {
    let t = test_compress_ok(b"aaa", b"3a");
    assert_eq!(t.query, vec![83u8, 84, 82, 89, 0, 3, 0, 4, 97, 97, 97]);
    assert_eq!(t.expected, vec![83u8, 84, 82, 89, 0, 2, 0, 0, 51, 97]);
    assert!(matches!(t.validity, TestKind::Valid));

    let t = test_compress_fail_default(b"abCD");
    assert_eq!(t.expected, vec![83u8, 84, 82, 89, 0, 0, 0, 39]);
    assert!(matches!(t.validity, TestKind::Invalid));
}

#[test]
fn test_test_cases_script() {
    let cases = test_cases();
    assert_eq!(cases.len(), 17);
    assert_eq!(cases[0].query, vec![83u8, 84, 82, 89, 0, 1, 0, 4, 97]);
    assert_eq!(cases[0].expected, vec![83u8, 84, 82, 89, 0, 1, 0, 0, 97]);
    assert_eq!(cases[3].query, vec![83u8, 84, 82, 89, 0, 3, 0, 4, 97, 97, 97]);
    assert_eq!(cases[3].expected, vec![83u8, 84, 82, 89, 0, 2, 0, 0, 51, 97]);
}

#[test]
fn test_update_ratio_mirror() {
    let t = test_compress_ok(b"aaa", b"3a");
    let mut state = State::new();
    update_ratio(&mut state, &t);
    assert_eq!(state.total, 3);
    assert_eq!(state.compressed, 2);
    assert_eq!(state.stats.ratio, 33);

    let t = Test {
        query_kind: service::Request::Ping,
        query: Test::request_ping(),
        expected: Test::response_ping(),
        validity: TestKind::Valid,
    };
    update_ratio(&mut state, &t);
    assert_eq!(state.total, 3);
    assert_eq!(state.compressed, 2);
}

#[test]
fn test_validation_helpers() {
    let query = Test::request_get_stats();
    let stats = [0u8, 0, 0, 11, 0, 0, 0, 10, 33];
    let response = Test::response_get_stats(&stats);
    assert!(validate_getstats(&query, &response, &stats));
    assert!(!validate_getstats(&Test::request_ping(), &response, &stats));
    let wrong = [0u8, 0, 0, 11, 0, 0, 0, 10, 32];
    assert!(!validate_getstats(&query, &response, &wrong));

    assert!(validate_messages(&response, &response));
    assert!(!validate_messages(&response, &query));
}

#[test]
fn test_small_helpers() {
    assert_eq!(repeated(97, 3), vec![97u8, 97, 97]);
    assert_eq!(repeated(0, 0), Vec::<u8>::new());
    assert!(eq_bytes(&[1u8, 2], &[1u8, 2]));
    assert!(!eq_bytes(&[1u8, 2], &[1u8, 3]));
    assert!(!eq_bytes(&[1u8, 2], &[1u8, 2, 3]));

    let mut results = TestResults::default();
    results.inc_count();
    results.inc_passed();
    results.inc_count();
    results.inc_failed();
    assert_eq!(results.count, 2);
    assert_eq!(results.passed, 1);
    assert_eq!(results.failed, 1);
}
