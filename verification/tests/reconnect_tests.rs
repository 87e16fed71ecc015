use priority_notify::reconnect::{ReconnectAction, ReconnectPolicy};

#[test]
fn backoff_doubles_then_polls() {
    let mut p = ReconnectPolicy::new();
    let mut delays = Vec::new();
    for _ in 0..5 {
        match p.on_connection_end(false) {
            ReconnectAction::RetryAfter { delay_secs, .. } => delays.push(delay_secs),
            other => panic!("unexpected {:?}", other),
        }
    }
    assert_eq!(delays, vec![1, 2, 4, 8, 16]);
    assert_eq!(
        p.on_connection_end(false),
        ReconnectAction::Poll { failure: 6, rounds: 10, interval_secs: 30 }
    );
    // after polling the policy starts over
    assert_eq!(p.on_connection_end(false), ReconnectAction::RetryAfter { failure: 1, delay_secs: 1 });
}

#[test]
fn clean_end_resets() {
    let mut p = ReconnectPolicy::new();
    p.on_connection_end(false);
    p.on_connection_end(false);
    p.on_connection_end(false);
    assert_eq!(p.on_connection_end(true), ReconnectAction::Reconnect);
    assert_eq!(p.on_connection_end(false), ReconnectAction::RetryAfter { failure: 1, delay_secs: 1 });
}

#[test]
fn failure_numbers_count_up() {
    let mut p = ReconnectPolicy::new();
    for n in 1..=5u32 {
        match p.on_connection_end(false) {
            ReconnectAction::RetryAfter { failure, delay_secs } => {
                assert_eq!(failure, n);
                assert!(delay_secs >= 1 && delay_secs <= 30);
            }
            other => panic!("unexpected {:?}", other),
        }
    }
}
