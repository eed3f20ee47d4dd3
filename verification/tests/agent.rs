use llamadeck::agent::{allowed_tools_json, catalog, tool_schema, AgentEvent};
use llamadeck::json::Json;
use llamadeck::tools::{plan_tool, Step};

#[test]
fn the_catalog_names_four_tools() {
    assert_eq!(
        catalog(),
        vec![
            ("read_file", "Прочитать текстовый файл"),
            ("list_dir", "Показать содержимое папки"),
            ("write_file", "Записать (создать/перезаписать) файл"),
            ("run_command", "Выполнить команду в системе"),
        ]
    );
}

#[test]
fn every_tool_of_the_catalog_is_described_and_known() {
    for (name, _) in catalog() {
        let schema = tool_schema(name).unwrap();
        assert_eq!(schema.get("function").unwrap().get_str("name"), Some(name));
        let unknown = Step::Reply { ok: false, text: format!("неизвестный инструмент: {}", name) };
        assert_ne!(plan_tool(name, "{}"), unknown);
    }
    assert_eq!(tool_schema("fly"), None);
    assert_eq!(tool_schema(""), None);
}

#[test]
fn a_description_says_what_a_tool_takes() {
    let schema = tool_schema("write_file").unwrap();
    assert_eq!(schema.get_str("type"), Some("function"));
    let function = schema.get("function").unwrap();
    assert_eq!(
        function.get_str("description"),
        Some("Создать или перезаписать текстовый файл указанным содержимым.")
    );
    let parameters = function.get("parameters").unwrap();
    assert_eq!(parameters.get_str("type"), Some("object"));
    let properties = parameters.get("properties").unwrap();
    assert_eq!(properties.get("path").unwrap().get_str("type"), Some("string"));
    assert_eq!(properties.get("path").unwrap().get_str("description"), Some("Путь к файлу"));
    assert_eq!(properties.get("content").unwrap().get_str("description"), Some("Что записать"));
    assert_eq!(
        parameters.get("required"),
        Some(&Json::Array(vec![Json::text("path"), Json::text("content")]))
    );
}

#[test]
fn only_allowed_tools_are_offered() {
    let allowed = vec!["run_command".to_string(), "fly".to_string(), "list_dir".to_string()];
    assert_eq!(
        allowed_tools_json(&allowed),
        Json::Array(vec![tool_schema("run_command").unwrap(), tool_schema("list_dir").unwrap()])
    );
    assert_eq!(allowed_tools_json(&Vec::new()), Json::Array(Vec::new()));
}

#[test]
fn events_have_names_and_data() {
    let text = |s: &str| Json::object(vec![("text", Json::text(s))]);
    assert_eq!(AgentEvent::Status("a".to_string()).to_sse(), ("status", text("a")));
    assert_eq!(AgentEvent::Assistant("a".to_string()).to_sse(), ("assistant", text("a")));
    assert_eq!(AgentEvent::Final("a".to_string()).to_sse(), ("final", text("a")));
    assert_eq!(AgentEvent::Error("a".to_string()).to_sse(), ("error", text("a")));
    assert_eq!(
        AgentEvent::ToolCall { name: "n".to_string(), args: "{}".to_string() }.to_sse(),
        ("tool_call", Json::object(vec![("name", Json::text("n")), ("args", Json::text("{}"))]))
    );
    assert_eq!(
        AgentEvent::ToolResult { name: "n".to_string(), ok: true, result: "r".to_string() }.to_sse(),
        (
            "tool_result",
            Json::object(vec![
                ("name", Json::text("n")),
                ("ok", Json::Bool(true)),
                ("result", Json::text("r")),
            ])
        )
    );
    assert_eq!(
        AgentEvent::Denied { name: "n".to_string() }.to_sse(),
        ("denied", Json::object(vec![("name", Json::text("n"))]))
    );
}
