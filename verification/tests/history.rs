use llamadeck::history::{
    clock_ms, dir, is_conversation_file, list, load_failure, now_ms, path_for, save, save_at,
    title_from, Conversation, HistoryError, Meta,
};
use llamadeck::json::Json;

fn conversation(id: &str, ts: u64, messages: &str) -> Conversation {
    Conversation {
        id: id.to_string(),
        title: "t".to_string(),
        ts,
        messages: Json::parse(messages).unwrap(),
    }
}

fn title(messages: &str) -> String {
    title_from(&Json::parse(messages).unwrap())
}

#[test]
fn ids_become_files() {
    assert_eq!(dir(), "data/conversations");
    assert_eq!(path_for("c17-A"), Ok("data/conversations/c17-A.json".to_string()));
}

#[test]
fn ids_that_lead_elsewhere_are_refused() {
    for id in ["", "..", "a/b", "a\\b", "a.json", "с", "a b", "a\n"] {
        assert_eq!(path_for(id), Err(HistoryError::BadId));
    }
    assert_eq!(HistoryError::BadId.message(), "некорректный id диалога");
}

#[test]
fn different_ids_have_different_files() {
    assert_ne!(path_for("a"), path_for("A"));
    assert_ne!(path_for("a"), path_for("a-"));
}

#[test]
fn conversations_are_json_files() {
    assert!(is_conversation_file("c1.json"));
    assert!(is_conversation_file("a..json"));
    assert!(!is_conversation_file(".json"));
    assert!(!is_conversation_file("c1.JSON"));
    assert!(!is_conversation_file("c1.json.bak"));
    assert!(!is_conversation_file("json"));
    for name in ["c1.json", "a..json", ".json", "x.txt", "..", "ajson"] {
        let extension = std::path::Path::new(name).extension();
        assert_eq!(is_conversation_file(name), extension.and_then(|e| e.to_str()) == Some("json"));
    }
}

#[test]
fn the_title_is_the_first_thing_the_user_says() {
    assert_eq!(
        title("[{\"role\":\"system\",\"content\":\"s\"},{\"role\":\"user\",\"content\":\" привет \"}]"),
        " привет "
    );
    assert_eq!(
        title("[{\"role\":\"user\",\"content\":\" \"},{\"role\":\"user\",\"content\":\"b\"}]"),
        "b"
    );
    assert_eq!(title("[{\"role\":\"user\",\"content\":5},{\"role\":\"user\"}]"), "(без названия)");
    assert_eq!(title("[]"), "(без названия)");
    assert_eq!(title("{\"role\":\"user\",\"content\":\"b\"}"), "(без названия)");
}

#[test]
fn long_titles_are_cut() {
    let messages = format!("[{{\"role\":\"user\",\"content\":\"{}\"}}]", "ж".repeat(61));
    assert_eq!(title(&messages), "ж".repeat(60));
}

#[test]
fn a_conversation_is_saved_under_its_id() {
    let saved = save_at(Some("x1".to_string()), Json::parse("[]").unwrap(), 7, 8).unwrap();
    assert_eq!(saved.path, "data/conversations/x1.json");
    assert_eq!(
        saved.conversation,
        Conversation {
            id: "x1".to_string(),
            title: "(без названия)".to_string(),
            ts: 8,
            messages: Json::Array(Vec::new()),
        }
    );
    assert_eq!(path_for(&saved.conversation.id), Ok(saved.path));
}

#[test]
fn a_conversation_without_id_gets_one_of_the_time() {
    for id in [None, Some("".to_string())] {
        let saved = save_at(id, Json::Null, 1700000000123, 9).unwrap();
        assert_eq!(saved.conversation.id, "c1700000000123");
        assert_eq!(saved.path, "data/conversations/c1700000000123.json");
    }
}

#[test]
fn saving_now_takes_the_time_of_the_clock() {
    let before = now_ms();
    let saved = save(None, Json::Null).unwrap();
    let after = now_ms();
    assert!(before <= saved.conversation.ts && saved.conversation.ts <= after);
    assert!(before > 1_600_000_000_000);
    assert_eq!(path_for(&saved.conversation.id), Ok(saved.path));
    assert_eq!(save(Some("../x".to_string()), Json::Null), Err(HistoryError::BadId));
}

#[test]
fn times_are_kept_in_64_bits() {
    assert_eq!(clock_ms(None), 0);
    assert_eq!(clock_ms(Some(5)), 5);
    assert_eq!(clock_ms(Some(u64::MAX as u128 + 3)), 2);
}

#[test]
fn a_missing_conversation_is_reported() {
    assert_eq!(load_failure("x", "нет файла").message(), "не найден диалог «x»: нет файла");
}

#[test]
fn the_list_begins_with_the_newest() {
    let found = vec![
        conversation("a", 5, "[1,2]"),
        conversation("b", 9, "null"),
        conversation("c", 5, "[]"),
        conversation("d", 7, "[{}]"),
    ];
    let meta = |id: &str, ts: u64, count: usize| Meta {
        id: id.to_string(),
        title: "t".to_string(),
        ts,
        count,
    };
    assert_eq!(list(found), vec![meta("b", 9, 0), meta("d", 7, 1), meta("a", 5, 2), meta("c", 5, 0)]);
    assert_eq!(list(Vec::new()), Vec::new());
}
