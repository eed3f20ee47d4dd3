use llamadeck::stats::{rate, Rate, Snapshot, Stats};

#[test]
fn counters_start_at_zero() {
    assert_eq!(
        Stats::new().snapshot_at(3),
        Snapshot { requests: 0, tokens: 0, avg_tok_per_s: None, uptime_s: 3 }
    );
}

#[test]
fn requests_add_up_in_any_order() {
    let mut one = Stats::new();
    one.record(10, 100);
    one.record(5, 50);
    let mut other = Stats::new();
    other.record(5, 50);
    other.record(10, 100);
    let expected = Snapshot {
        requests: 2,
        tokens: 15,
        avg_tok_per_s: Some(Rate { tokens: 15, ms: 150 }),
        uptime_s: 0,
    };
    assert_eq!(one.snapshot_at(0), expected);
    assert_eq!(other.snapshot_at(0), expected);
}

#[test]
fn recorders_add_to_what_was_there() {
    let recorders: [[(u64, u64); 2]; 2] = [[(1, 10), (2, 20)], [(4, 40), (8, 80)]];
    for mix in [[0, 1, 0, 1], [1, 1, 0, 0], [0, 1, 1, 0]] {
        let mut stats = Stats::new();
        stats.record(100, 1000);
        let mut next = [0, 0];
        for who in mix {
            let (tokens, ms) = recorders[who][next[who]];
            next[who] += 1;
            stats.record(tokens, ms);
        }
        let expected = Snapshot {
            requests: 5,
            tokens: 115,
            avg_tok_per_s: Some(Rate { tokens: 115, ms: 1150 }),
            uptime_s: 2,
        };
        assert_eq!(stats.snapshot_at(2), expected);
    }
}

#[test]
fn counters_start_over_when_they_overflow() {
    let mut stats = Stats::new();
    stats.record(u64::MAX, u64::MAX);
    stats.record(3, 1);
    assert_eq!(
        stats.snapshot_at(0),
        Snapshot { requests: 2, tokens: 2, avg_tok_per_s: None, uptime_s: 0 }
    );
}

#[test]
fn the_uptime_is_that_of_the_clock() {
    let mut stats = Stats::new();
    stats.record(1, 1);
    let snapshot = stats.snapshot();
    assert!(snapshot.uptime_s < 15);
    assert_eq!((snapshot.requests, snapshot.tokens), (1, 1));
    assert_eq!(snapshot.avg_tok_per_s, Some(Rate { tokens: 1, ms: 1 }));
}

#[test]
fn a_pace_is_tokens_over_time() {
    assert_eq!(rate(7, 0), None);
    assert_eq!(rate(0, 7), Some(Rate { tokens: 0, ms: 7 }));
}
