use llamadeck::backend::{
    Backend, Choice, CompleteResult, ContentHolder, Exchange, Msg, Resp, Usage,
};
use llamadeck::stats::Rate;

fn backend(upstream: &str) -> Backend {
    Backend::new(upstream.to_string(), "m".to_string())
}

fn choice(content: &str) -> Choice {
    Choice { message: ContentHolder { content: content.to_string() } }
}

#[test]
fn trailing_slashes_make_no_difference() {
    let url = "http://127.0.0.1:8080/v1/chat/completions";
    assert_eq!(backend("http://127.0.0.1:8080").url(), url);
    assert_eq!(backend("http://127.0.0.1:8080/").url(), url);
    assert_eq!(backend("http://127.0.0.1:8080///").url(), url);
}

#[test]
fn a_request_names_the_model() {
    let messages = vec![Msg { role: "user".to_string(), content: "hi".to_string() }];
    let request = backend("u").request(messages.clone(), true);
    assert_eq!(request.model, "m");
    assert_eq!(request.messages, messages);
    assert!(request.stream);
    assert_eq!(request.temperature_tenths, 7);
    assert!(!backend("u").request(Vec::new(), false).stream);
}

#[test]
fn the_first_reply_counts() {
    let resp = Resp {
        choices: vec![choice("a"), choice("b")],
        usage: Some(Usage { completion_tokens: Some(12) }),
    };
    assert_eq!(
        backend("u").complete(Exchange::Answered(resp, 34)),
        Ok(CompleteResult { reply: "a".to_string(), tokens: 12, ms: 34 })
    );
}

#[test]
fn missing_parts_of_an_answer_are_empty() {
    let none = CompleteResult { reply: "".to_string(), tokens: 0, ms: 1 };
    let resp = Resp { choices: Vec::new(), usage: None };
    assert_eq!(backend("u").complete(Exchange::Answered(resp, 1)), Ok(none));
    let resp = Resp { choices: Vec::new(), usage: Some(Usage { completion_tokens: None }) };
    assert_eq!(resp.into_result(2), CompleteResult { reply: "".to_string(), tokens: 0, ms: 2 });
}

#[test]
fn failures_are_told_apart() {
    let be = backend("http://h");
    assert_eq!(
        be.complete(Exchange::Unreachable("e".to_string())),
        Err("не достучался до llama-server (http://h): e".to_string())
    );
    assert_eq!(
        be.complete(Exchange::Refused("e".to_string())),
        Err("llama-server вернул ошибку: e".to_string())
    );
    assert_eq!(be.complete(Exchange::Unreadable("e".to_string())), Err("e".to_string()));
}

#[test]
fn the_pace_needs_time_to_have_passed() {
    let result = |ms: u128| CompleteResult { reply: "".to_string(), tokens: 5, ms };
    assert_eq!(result(0).tok_per_s(), None);
    assert_eq!(result(250).tok_per_s(), Some(Rate { tokens: 5, ms: 250 }));
}
