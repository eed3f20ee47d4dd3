use llamadeck::json::Json;
use llamadeck::tools::{
    command_answer, list_answer, plan_read, plan_tool, read_answer, report_command, tool_answer,
    truncate, write_answer, CommandRun, Entry, Listing, Operation, Outcome, Step, MAX_RESULT_CHARS,
};

fn failed(text: &str) -> Step {
    Step::Reply { ok: false, text: text.to_string() }
}

#[test]
fn short_results_are_kept() {
    assert_eq!(truncate("abc".to_string()), "abc");
    let edge = "ж".repeat(MAX_RESULT_CHARS);
    assert_eq!(truncate(edge.clone()), edge);
}

#[test]
fn long_results_are_cut() {
    let long = "ж".repeat(4001);
    assert_eq!(truncate(long), "ж".repeat(4000) + "\n…(вывод обрезан)");
}

#[test]
fn reading_needs_a_path() {
    assert_eq!(
        plan_tool("read_file", "{\"path\": \"a.txt\"}"),
        Step::Perform(Operation::ReadFile { path: "a.txt".to_string() })
    );
    assert_eq!(plan_tool("read_file", "{}"), failed("не указан path"));
    assert_eq!(plan_tool("read_file", "{\"path\": 5}"), failed("не указан path"));
    assert_eq!(plan_tool("read_file", "[]"), failed("не указан path"));
}

#[test]
fn listing_falls_back_to_the_current_directory() {
    let here = Step::Perform(Operation::ListDir { path: ".".to_string() });
    assert_eq!(plan_tool("list_dir", "{}"), here);
    assert_eq!(plan_tool("list_dir", "{\"path\": \"\"}"), here);
    assert_eq!(
        plan_tool("list_dir", "{\"path\": \"src\"}"),
        Step::Perform(Operation::ListDir { path: "src".to_string() })
    );
}

#[test]
fn writing_needs_a_path_but_no_content() {
    assert_eq!(
        plan_tool("write_file", "{\"path\": \"a\", \"content\": \"b\"}"),
        Step::Perform(Operation::WriteFile { path: "a".to_string(), content: "b".to_string() })
    );
    assert_eq!(
        plan_tool("write_file", "{\"path\": \"a\"}"),
        Step::Perform(Operation::WriteFile { path: "a".to_string(), content: "".to_string() })
    );
    assert_eq!(plan_tool("write_file", "{\"content\": \"b\"}"), failed("не указан path"));
}

#[test]
fn running_needs_a_command() {
    assert_eq!(
        plan_tool("run_command", "{\"command\": \"ls\"}"),
        Step::Perform(Operation::RunCommand { command: "ls".to_string() })
    );
    assert_eq!(plan_tool("run_command", "{\"command\": \"\"}"), failed("не указан command"));
}

#[test]
fn other_tools_are_unknown() {
    assert_eq!(plan_tool("fly", "{}"), failed("неизвестный инструмент: fly"));
}

#[test]
fn unreadable_arguments_come_first() {
    let complaint = Json::parse("{").unwrap_err();
    let expected = format!("не разобрал аргументы как JSON: {}", complaint);
    assert_eq!(plan_tool("fly", "{"), failed(&expected));
    assert_eq!(
        plan_read("read_file", Err("плохо".to_string())),
        failed("не разобрал аргументы как JSON: плохо")
    );
}

#[test]
fn a_file_that_was_read_is_shown() {
    assert_eq!(read_answer("a", Ok("text".to_string())), (true, "text".to_string()));
    let (ok, text) = read_answer("a", Ok("x".repeat(5000)));
    assert!(ok);
    assert_eq!(text.chars().count(), 4000 + "\n…(вывод обрезан)".chars().count());
    assert_eq!(
        read_answer("a", Err("нет".to_string())),
        (false, "ошибка чтения «a»: нет".to_string())
    );
}

#[test]
fn the_size_of_a_written_file_is_in_bytes() {
    assert_eq!(write_answer("a", "ёж", Ok(())), (true, "записано 4 байт в «a»".to_string()));
    assert_eq!(write_answer("a", "", Ok(())), (true, "записано 0 байт в «a»".to_string()));
    assert_eq!(
        write_answer("a", "x", Err("нет".to_string())),
        (false, "ошибка записи «a»: нет".to_string())
    );
}

#[test]
fn a_directory_is_listed_in_order() {
    let entries = vec![
        Entry { name: "b".to_string(), is_dir: false },
        Entry { name: "a".to_string(), is_dir: true },
        Entry { name: "a.txt".to_string(), is_dir: false },
    ];
    assert_eq!(list_answer(".", Listing::Entries(entries)), (true, "a.txt\na/\nb".to_string()));
    assert_eq!(list_answer(".", Listing::Entries(Vec::new())), (true, "(пусто)".to_string()));
    assert_eq!(
        list_answer("x", Listing::NotOpened("нет".to_string())),
        (false, "ошибка открытия каталога «x»: нет".to_string())
    );
    assert_eq!(
        list_answer("x", Listing::Broken("нет".to_string())),
        (false, "ошибка чтения каталога: нет".to_string())
    );
}

#[test]
fn a_command_is_reported_with_its_code_and_output() {
    let run = CommandRun::Finished {
        code: Some(2),
        success: false,
        stdout: b"out".to_vec(),
        stderr: b"err".to_vec(),
    };
    assert_eq!(command_answer(run), (false, "код выхода: 2\nout\nSTDERR:\nerr".to_string()));
    let run = CommandRun::Finished { code: None, success: true, stdout: Vec::new(), stderr: Vec::new() };
    assert_eq!(command_answer(run), (true, "код выхода: -1\n".to_string()));
    let run = CommandRun::Finished {
        code: Some(0),
        success: true,
        stdout: "вывод".as_bytes().to_vec(),
        stderr: "ошибки".as_bytes().to_vec(),
    };
    assert_eq!(command_answer(run), (true, "код выхода: 0\nвывод\nSTDERR:\nошибки".to_string()));
    assert_eq!(report_command(Some(0), "x", None), "код выхода: 0\nx");
}

#[test]
fn ill_formed_output_is_replaced() {
    let run = CommandRun::Finished {
        code: Some(0),
        success: true,
        stdout: vec![b'a', 0xff, b'b'],
        stderr: vec![0xd1],
    };
    assert_eq!(
        command_answer(run),
        (true, "код выхода: 0\na\u{fffd}b\nSTDERR:\n\u{fffd}".to_string())
    );
}

#[test]
fn a_command_that_did_not_run_is_reported() {
    assert_eq!(
        command_answer(CommandRun::NotStarted("нет sh".to_string())),
        (false, "не удалось запустить команду: нет sh".to_string())
    );
    assert_eq!(
        command_answer(CommandRun::TimedOut),
        (false, "команда не уложилась в таймаут 60 c".to_string())
    );
}

#[test]
fn work_is_answered_by_its_own_outcome() {
    let read = Operation::ReadFile { path: "p".to_string() };
    assert_eq!(
        tool_answer(&read, Outcome::Read(Err("e".to_string()))),
        Some((false, "ошибка чтения «p»: e".to_string()))
    );
    assert_eq!(tool_answer(&read, Outcome::Written(Ok(()))), None);
    let write = Operation::WriteFile { path: "p".to_string(), content: "abc".to_string() };
    assert_eq!(
        tool_answer(&write, Outcome::Written(Ok(()))),
        Some((true, "записано 3 байт в «p»".to_string()))
    );
    let list = Operation::ListDir { path: "d".to_string() };
    assert_eq!(
        tool_answer(&list, Outcome::Listed(Listing::NotOpened("e".to_string()))),
        Some((false, "ошибка открытия каталога «d»: e".to_string()))
    );
    let run = Operation::RunCommand { command: "c".to_string() };
    assert_eq!(
        tool_answer(&run, Outcome::Ran(CommandRun::NotStarted("e".to_string()))),
        Some((false, "не удалось запустить команду: e".to_string()))
    );
}
