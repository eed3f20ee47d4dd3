use llamadeck::backend::{CompleteResult, Msg};
use llamadeck::repl::{answer_text, error_text, Question, Repl, ReplNext};

fn msg(role: &str, content: &str) -> Msg {
    Msg { role: role.to_string(), content: content.to_string() }
}

fn result(reply: &str) -> CompleteResult {
    CompleteResult { reply: reply.to_string(), tokens: 3, ms: 40 }
}

fn ask(repl: Repl, line: &str) -> Question {
    match repl.read(Some(line)) {
        ReplNext::Ask(question) => question,
        _ => panic!("the model should be asked"),
    }
}

#[test]
fn a_line_becomes_a_question() {
    let question = ask(Repl::new(), "  привет \n");
    assert_eq!(question.messages(), &vec![msg("user", "привет")]);
}

#[test]
fn the_chat_ends_on_request() {
    assert!(matches!(Repl::new().read(None), ReplNext::Quit));
    assert!(matches!(Repl::new().read(Some(" /exit\n")), ReplNext::Quit));
    assert!(matches!(Repl::new().read(Some("/exit now\n")), ReplNext::Ask(_)));
}

#[test]
fn blank_lines_are_passed_over() {
    assert!(matches!(Repl::new().read(Some(" \n")), ReplNext::Again(_)));
    assert!(matches!(Repl::new().read(Some("\n")), ReplNext::Again(_)));
}

#[test]
fn answers_are_kept_and_failed_questions_are_not() {
    let repl = ask(Repl::new(), "a").answered(Ok(result(" b ")));
    let repl = ask(repl, "c").answered(Err("e".to_string()));
    let question = ask(repl, "d");
    assert_eq!(
        question.messages(),
        &vec![msg("user", "a"), msg("assistant", " b "), msg("user", "d")]
    );
}

#[test]
fn answers_are_shown_with_their_cost() {
    assert_eq!(answer_text(&result(" да\n"), "75.0"), "\nда\n[3 ток · 40 мс · 75.0 ток/с]\n");
    assert_eq!(error_text("нет"), "\nОшибка: нет\n");
}
