use llamadeck::backend::CompleteResult;
use llamadeck::server::{chat, ChatAnswer, ChatStream, StreamEvent};
use llamadeck::stats::{Rate, Stats};

#[test]
fn a_reply_is_passed_on_and_counted() {
    let mut stats = Stats::new();
    let result = CompleteResult { reply: "r".to_string(), tokens: 4, ms: 200 };
    assert_eq!(
        chat(&mut stats, Ok(result)),
        ChatAnswer::Reply {
            reply: "r".to_string(),
            tokens: 4,
            ms: 200,
            tok_per_s: Some(Rate { tokens: 4, ms: 200 }),
        }
    );
    let snapshot = stats.snapshot_at(0);
    assert_eq!((snapshot.requests, snapshot.tokens), (1, 4));
    assert_eq!(snapshot.avg_tok_per_s, Some(Rate { tokens: 4, ms: 200 }));
}

#[test]
fn a_failure_is_that_of_a_gateway_and_not_counted() {
    let mut stats = Stats::new();
    assert_eq!(
        chat(&mut stats, Err("e".to_string())),
        ChatAnswer::Failure { status: 502, reason: "e".to_string() }
    );
    assert_eq!(stats.snapshot_at(0).requests, 0);
}

#[test]
fn only_the_low_bits_of_a_time_are_counted() {
    let mut stats = Stats::new();
    let result = CompleteResult { reply: "".to_string(), tokens: 1, ms: u64::MAX as u128 + 6 };
    chat(&mut stats, Ok(result));
    assert_eq!(stats.snapshot_at(0).avg_tok_per_s, Some(Rate { tokens: 1, ms: 5 }));
}

#[test]
fn pieces_are_counted_and_failures_are_not() {
    let mut stats = Stats::new();
    let mut stream = ChatStream::new();
    assert_eq!(
        stream.pass(Ok("a".to_string())),
        StreamEvent { event: None, data: "a".to_string() }
    );
    assert_eq!(
        stream.pass(Err("e".to_string())),
        StreamEvent { event: Some("error"), data: "e".to_string() }
    );
    stream.pass(Ok("b".to_string()));
    assert_eq!(stream.count(), 2);
    assert_eq!(
        stream.finish(&mut stats, 10),
        StreamEvent { event: Some("done"), data: "2".to_string() }
    );
    let snapshot = stats.snapshot_at(1);
    assert_eq!((snapshot.requests, snapshot.tokens), (1, 2));
    assert_eq!(snapshot.avg_tok_per_s, Some(Rate { tokens: 2, ms: 10 }));
}
