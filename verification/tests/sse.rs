use llamadeck::json::Json;
use llamadeck::sse::{delta_text, line_payload, line_piece, SseReader};

fn event(text: &str) -> String {
    format!("data: {{\"choices\":[{{\"delta\":{{\"content\":\"{}\"}}}}]}}\n", text)
}

fn read(chunks: &[&[u8]]) -> Vec<String> {
    let mut reader = SseReader::new();
    let mut all = Vec::new();
    for chunk in chunks {
        let (next, mut pieces) = reader.feed(chunk);
        reader = next;
        all.append(&mut pieces);
    }
    all
}

#[test]
fn pieces_come_in_order() {
    let stream = event("При") + "\n" + &event("вет") + "data: [DONE]\n";
    assert_eq!(read(&[stream.as_bytes()]), vec!["При", "вет"]);
}

#[test]
fn cuts_between_characters_do_not_matter() {
    let stream = event("ab") + ": ping\r\n" + &event("cd") + &event("");
    let whole = read(&[stream.as_bytes()]);
    assert_eq!(whole, vec!["ab", "cd"]);
    for cut in 0..=stream.len() {
        let (a, b) = stream.as_bytes().split_at(cut);
        assert_eq!(read(&[a, b]), whole);
    }
}

#[test]
fn any_number_of_cuts_does_not_matter() {
    let stream = event("При") + ": ping\r\n" + &event("вет") + "data: [DONE]\n";
    let whole = read(&[stream.as_bytes()]);
    assert_eq!(whole, vec!["При", "вет"]);
    let chars: Vec<String> = stream.chars().map(|c| c.to_string()).collect();
    for size in 1..8 {
        let chunks: Vec<String> = chars.chunks(size).map(|part| part.concat()).collect();
        let bytes: Vec<&[u8]> = chunks.iter().map(|chunk| chunk.as_bytes()).collect();
        assert_eq!(read(&bytes), whole);
    }
    assert_eq!(read(&[]), Vec::<String>::new());
}

#[test]
fn a_cut_inside_a_character_spoils_it() {
    let stream = event("ы");
    let at = stream.find('ы').unwrap() + 1;
    let (a, b) = stream.as_bytes().split_at(at);
    assert_eq!(read(&[a, b]), vec!["\u{fffd}\u{fffd}"]);
}

#[test]
fn an_unfinished_line_waits() {
    let line = event("x");
    let bare = line.trim_end();
    assert_eq!(read(&[bare.as_bytes()]), Vec::<String>::new());
    assert_eq!(read(&[bare.as_bytes(), b"\n"]), vec!["x"]);
}

#[test]
fn text_is_read_like_bytes() {
    let (reader, pieces) = SseReader::new().feed_text("data: {\"choices\":[{\"delta\":{\"con");
    assert!(pieces.is_empty());
    let (_, pieces) = reader.feed_text("tent\":\"q\"}}]}\n");
    assert_eq!(pieces, vec!["q"]);
}

#[test]
fn only_data_lines_carry_something() {
    assert_eq!(line_payload("  data:  x \r"), Some("x".to_string()));
    assert_eq!(line_payload("data:x"), Some("x".to_string()));
    assert_eq!(line_payload("data: [DONE]"), None);
    assert_eq!(line_payload("data:"), None);
    assert_eq!(line_payload("event: x"), None);
    assert_eq!(line_payload("dat"), None);
    assert_eq!(line_payload(""), None);
}

#[test]
fn a_piece_stands_in_a_fixed_place() {
    let doc = |s: &str| Json::parse(s).unwrap();
    assert_eq!(
        delta_text(&doc("{\"choices\":[{\"delta\":{\"content\":\"a\"}},{}]}")),
        Some("a".to_string())
    );
    assert_eq!(delta_text(&doc("{\"choices\":[{\"delta\":{\"content\":\"\"}}]}")), None);
    assert_eq!(delta_text(&doc("{\"choices\":[{\"delta\":{\"content\":null}}]}")), None);
    assert_eq!(delta_text(&doc("{\"choices\":[{\"delta\":{}}]}")), None);
    assert_eq!(delta_text(&doc("{\"choices\":[{}]}")), None);
    assert_eq!(delta_text(&doc("{\"choices\":[]}")), None);
    assert_eq!(delta_text(&doc("{\"choices\":{\"0\":{\"delta\":{\"content\":\"a\"}}}}")), None);
    assert_eq!(delta_text(&doc("[]")), None);
}

#[test]
fn lines_that_are_no_json_bring_nothing() {
    assert_eq!(line_piece("data: {"), None);
    assert_eq!(line_piece("data: 1"), None);
    assert_eq!(line_piece(&event("z")), Some("z".to_string()));
}
