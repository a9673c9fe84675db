use service::{State, Stats};

#[test]
fn test_parse() {
    let msg = [0, 0, 0, 22, 0, 0, 0, 22, 10];
    let stats = Stats::parse(&msg[..]);
    assert!(!stats.is_none())
}

#[test]
fn test_as_bytes() {
    let stats = Stats::new_with(22, 22, 10);
    assert_eq!(stats.as_bytes(), [0, 0, 0, 22, 0, 0, 0, 22, 10]);
}

#[test]
fn test_parse_wrong_length_rejected() {
    let msg = [0u8, 0, 0, 22, 0, 0, 0, 22];
    assert!(Stats::parse(&msg[..]).is_none());
    let msg = [0u8, 0, 0, 22, 0, 0, 0, 22, 10, 0];
    assert!(Stats::parse(&msg[..]).is_none());
}

#[test]
fn test_parse_round_trip() {
    let msg = [0u8, 0, 1, 22, 0, 0, 0, 93, 45];
    let stats = Stats::parse(&msg[..]).unwrap();
    assert_eq!(stats.read(), 278);
    assert_eq!(stats.sent(), 93);
    assert_eq!(stats.ratio(), 45);
    assert_eq!(stats.as_bytes(), msg.to_vec());
}

#[test]
fn test_set_ratio_formula() {
    let mut stats = Stats::new();
    stats.set_ratio(2, 3);
    assert_eq!(stats.ratio(), 33);
    stats.set_ratio(1, 2);
    assert_eq!(stats.ratio(), 50);
    stats.set_ratio(3, 10);
    assert_eq!(stats.ratio(), 70);
    // either total still zero: the ratio is left unchanged, not reset
    stats.set_ratio(0, 10);
    assert_eq!(stats.ratio(), 70);
    stats.set_ratio(10, 0);
    assert_eq!(stats.ratio(), 70);
    // compression that expanded saturates at zero
    stats.set_ratio(12, 10);
    assert_eq!(stats.ratio(), 0);
}

#[test]
fn test_counters_and_reset() {
    let mut stats = Stats::new();
    stats.update_read(11);
    stats.update_sent(10);
    stats.update_read(4);
    assert_eq!(stats.read(), 15);
    assert_eq!(stats.sent(), 10);
    stats.reset();
    assert_eq!(stats, Stats::new_with(0, 0, 0));
}

#[test]
fn test_state_update_ratio_accumulates() {
    let mut state = State::new();
    state.update_ratio(3, 2);
    assert_eq!(state.total, 3);
    assert_eq!(state.compressed, 2);
    assert_eq!(state.stats.ratio, 33);
    state.update_ratio(3, 2);
    assert_eq!(state.total, 6);
    assert_eq!(state.compressed, 4);
    assert_eq!(state.stats.ratio, 33);
    state.reset();
    assert_eq!(state, State::new());
}

#[test]
fn test_state_stats_as_bytes() {
    let mut state = State::new();
    state.update_read(11);
    state.update_sent(10);
    state.update_ratio(3, 2);
    assert_eq!(
        state.stats_as_bytes(),
        vec![0u8, 0, 0, 11, 0, 0, 0, 10, 33]
    );
    assert_eq!(state.internal_error(), 0);
}
