use llamadeck::agent::{allowed_tools_json, AgentEvent};
use llamadeck::json::Json;
use llamadeck::session::{run, AgentTurn, Asking, Next, Performing, ToolCall, MAX_TURNS};
use llamadeck::tools::{CommandRun, Listing, Operation, Outcome};

fn allowed(names: &[&str]) -> Vec<String> {
    names.iter().map(|s| s.to_string()).collect()
}

fn call(id: &str, name: &str, arguments: &str) -> ToolCall {
    ToolCall { id: id.to_string(), name: name.to_string(), arguments: arguments.to_string() }
}

fn turn(content: &str, tool_calls: Vec<ToolCall>) -> AgentTurn {
    AgentTurn { message: Json::text(content), content: content.to_string(), tool_calls }
}

fn asking(next: Next) -> Asking {
    match next {
        Next::Ask(asking) => asking,
        _ => panic!("the model should be asked"),
    }
}

fn performing(next: Next) -> Performing {
    match next {
        Next::Perform(performing) => performing,
        _ => panic!("a tool should be at work"),
    }
}

fn after(step: Result<(Vec<AgentEvent>, Next), Performing>) -> (Vec<AgentEvent>, Next) {
    match step {
        Ok(step) => step,
        Err(_) => panic!("the outcome should be taken"),
    }
}

fn status(n: usize) -> AgentEvent {
    AgentEvent::Status(format!("ход {}", n))
}

fn called(name: &str, args: &str) -> AgentEvent {
    AgentEvent::ToolCall { name: name.to_string(), args: args.to_string() }
}

#[test]
fn a_run_begins_with_the_instructions_and_the_task() {
    let (events, next) = run("посчитай".to_string(), allowed(&["read_file", "list_dir"]));
    assert_eq!(events, vec![status(1)]);
    let asking = asking(next);
    let messages = asking.messages();
    assert_eq!(messages.len(), 2);
    assert_eq!(messages[0].get_str("role"), Some("system"));
    assert_eq!(
        messages[0].get_str("content"),
        Some(
            "Ты — полезный агент, работающий на компьютере пользователя. \
             Решай задачу пошагово, при необходимости вызывая инструменты. \
             Разрешённые инструменты: read_file, list_dir. Рабочая папка — текущая. \
             Когда задача решена, дай краткий финальный ответ БЕЗ вызова инструментов. \
             Отвечай по-русски."
        )
    );
    assert_eq!(messages[1].get_str("role"), Some("user"));
    assert_eq!(messages[1].get_str("content"), Some("посчитай"));
    assert_eq!(asking.tools(), &allowed_tools_json(&allowed(&["read_file", "list_dir"])));
}

#[test]
fn without_tools_the_instructions_say_so() {
    let (_, next) = run("x".to_string(), Vec::new());
    let asking = asking(next);
    let system = asking.messages()[0].get_str("content").unwrap();
    assert!(system.contains(
        "Разрешённые инструменты: нет (работай без инструментов, отвечай из своих знаний). Рабочая"
    ));
}

#[test]
fn a_reply_without_calls_is_the_final_answer() {
    let (_, next) = run("x".to_string(), Vec::new());
    let (events, next) = asking(next).replied(Ok(turn("готово", Vec::new())));
    assert_eq!(
        events,
        vec![AgentEvent::Assistant("готово".to_string()), AgentEvent::Final("готово".to_string())]
    );
    assert!(matches!(next, Next::Stop));
}

#[test]
fn a_blank_final_answer_is_not_said_twice() {
    let (_, next) = run("x".to_string(), Vec::new());
    let (events, next) = asking(next).replied(Ok(turn(" \n", Vec::new())));
    assert_eq!(events, vec![AgentEvent::Final(" \n".to_string())]);
    assert!(matches!(next, Next::Stop));
}

#[test]
fn a_failure_of_the_model_ends_the_run() {
    let (_, next) = run("x".to_string(), Vec::new());
    let (events, next) = asking(next).replied(Err("нет связи".to_string()));
    assert_eq!(events, vec![AgentEvent::Error("нет связи".to_string())]);
    assert!(matches!(next, Next::Stop));
}

#[test]
fn a_call_that_is_not_allowed_is_denied() {
    let (_, next) = run("x".to_string(), allowed(&["read_file"]));
    let args = "{\"command\": \"ls\"}";
    let (events, next) =
        asking(next).replied(Ok(turn("", vec![call("id1", "run_command", args)])));
    assert_eq!(
        events,
        vec![
            called("run_command", args),
            AgentEvent::Denied { name: "run_command".to_string() },
            status(2),
        ]
    );
    let asking = asking(next);
    assert_eq!(asking.messages().len(), 4);
    let answer = &asking.messages()[3];
    assert_eq!(answer.get_str("role"), Some("tool"));
    assert_eq!(answer.get_str("tool_call_id"), Some("id1"));
    assert_eq!(
        answer.get_str("content"),
        Some("❌ Инструмент «run_command» не разрешён пользователем.")
    );
}

#[test]
fn calls_are_worked_off_in_order() {
    let (_, next) = run("x".to_string(), allowed(&["read_file", "list_dir"]));
    let calls = vec![
        call("1", "read_file", "{}"),
        call("2", "read_file", "{\"path\": \"a\"}"),
        call("3", "fly", "{}"),
        call("4", "list_dir", "{}"),
    ];
    let (events, next) = asking(next).replied(Ok(turn("смотрю", calls)));
    assert_eq!(
        events,
        vec![
            AgentEvent::Assistant("смотрю".to_string()),
            called("read_file", "{}"),
            AgentEvent::ToolResult {
                name: "read_file".to_string(),
                ok: false,
                result: "не указан path".to_string(),
            },
            called("read_file", "{\"path\": \"a\"}"),
        ]
    );
    let tool = performing(next);
    assert_eq!(tool.operation(), &Operation::ReadFile { path: "a".to_string() });
    let (events, next) = after(tool.finished(Outcome::Read(Ok("текст".to_string()))));
    assert_eq!(
        events,
        vec![
            AgentEvent::ToolResult {
                name: "read_file".to_string(),
                ok: true,
                result: "текст".to_string(),
            },
            called("fly", "{}"),
            AgentEvent::Denied { name: "fly".to_string() },
            called("list_dir", "{}"),
        ]
    );
    let tool = performing(next);
    assert_eq!(tool.operation(), &Operation::ListDir { path: ".".to_string() });
    let (events, next) = after(tool.finished(Outcome::Listed(Listing::NotOpened("нет".to_string()))));
    assert_eq!(
        events,
        vec![
            AgentEvent::ToolResult {
                name: "list_dir".to_string(),
                ok: false,
                result: "ошибка открытия каталога «.»: нет".to_string(),
            },
            status(2),
        ]
    );
    let asking = asking(next);
    let messages = asking.messages();
    assert_eq!(messages.len(), 7);
    assert_eq!(messages[2], Json::text("смотрю"));
    let ids: Vec<Option<&str>> = messages[3..].iter().map(|m| m.get_str("tool_call_id")).collect();
    assert_eq!(ids, vec![Some("1"), Some("2"), Some("3"), Some("4")]);
    let contents: Vec<Option<&str>> = messages[3..].iter().map(|m| m.get_str("content")).collect();
    assert_eq!(
        contents,
        vec![
            Some("не указан path"),
            Some("текст"),
            Some("❌ Инструмент «fly» не разрешён пользователем."),
            Some("ошибка открытия каталога «.»: нет"),
        ]
    );
}

#[test]
fn a_run_stops_when_its_turns_are_used_up() {
    let (_, mut next) = run("x".to_string(), Vec::new());
    let mut asked = 0;
    loop {
        match next {
            Next::Ask(asking) => {
                asked += 1;
                let (events, after) = asking.replied(Ok(turn("", vec![call("i", "fly", "{}")])));
                if asked < MAX_TURNS {
                    assert_eq!(events.last(), Some(&status(asked + 1)));
                } else {
                    assert_eq!(
                        events.last(),
                        Some(&AgentEvent::Error(
                            "достигнут лимит шагов (8) — агент остановлен".to_string()
                        ))
                    );
                }
                next = after;
            }
            Next::Perform(_) => panic!("nothing is allowed"),
            Next::Stop => break,
        }
    }
    assert_eq!(asked, 8);
}

#[test]
fn an_outcome_of_other_work_is_not_taken() {
    let (_, next) = run("x".to_string(), allowed(&["run_command"]));
    let args = "{\"command\": \"ls\"}";
    let (_, next) = asking(next).replied(Ok(turn("", vec![call("1", "run_command", args)])));
    let tool = performing(next);
    let tool = match tool.finished(Outcome::Read(Ok("a".to_string()))) {
        Ok(_) => panic!("nothing was read"),
        Err(tool) => tool,
    };
    assert_eq!(tool.operation(), &Operation::RunCommand { command: "ls".to_string() });
    let (events, next) = after(tool.finished(Outcome::Ran(CommandRun::NotStarted("e".to_string()))));
    match &events[0] {
        AgentEvent::ToolResult { name, ok, result } => {
            assert_eq!(name, "run_command");
            assert!(!*ok);
            let asking = asking(next);
            assert_eq!(asking.messages()[3].get_str("content"), Some(result.as_str()));
        }
        other => panic!("{:?}", other),
    }
    assert_eq!(events[1], status(2));
}

#[test]
fn questions_are_numbered_and_calls_reported_in_order() {
    let (mut all, next) = run("x".to_string(), allowed(&["read_file"]));
    let first = vec![call("1", "read_file", "{}"), call("2", "fly", "[]")];
    let (events, next) = asking(next).replied(Ok(turn("а", first)));
    all.extend(events);
    let second = vec![call("3", "read_file", "{\"path\": \"a\"}"), call("4", "swim", "{}")];
    let (events, next) = asking(next).replied(Ok(turn("", second)));
    all.extend(events);
    let (events, next) =
        after(performing(next).finished(Outcome::Read(Ok("текст".to_string()))));
    all.extend(events);
    let last = asking(next);
    assert_eq!(last.messages().len(), 8);
    let (events, next) = last.replied(Ok(turn("конец", Vec::new())));
    all.extend(events);
    assert!(matches!(next, Next::Stop));
    let numbers: Vec<&AgentEvent> =
        all.iter().filter(|e| matches!(e, AgentEvent::Status(_))).collect();
    assert_eq!(numbers, vec![&status(1), &status(2), &status(3)]);
    let calls: Vec<&AgentEvent> =
        all.iter().filter(|e| matches!(e, AgentEvent::ToolCall { .. })).collect();
    assert_eq!(
        calls,
        vec![
            &called("read_file", "{}"),
            &called("fly", "[]"),
            &called("read_file", "{\"path\": \"a\"}"),
            &called("swim", "{}"),
        ]
    );
    assert_eq!(all.last(), Some(&AgentEvent::Final("конец".to_string())));
}
