//! The tools of the agent: what a call asks for, and what the model is told
//! about its outcome.
//!
//! Failures are told in words too, so that the model can react to them.

use vstd::prelude::*;
use vstd::string::*;
use vstd::utf8::*;

use crate::json::{member, parsed, text_member, Doc, Json};
use crate::order::{sorted, views, Ranked};
use crate::text::{
    decimal, decimal_of, join, joined, lemma_decimal, lemma_text_order, lossy_text, number,
    optional_str, read_lossy, same_text, signed_decimal, signed_decimal_of, text_le, text_order,
    texts,
};

verus! {

/// The longest result that the model is shown, in characters.
pub const MAX_RESULT_CHARS: usize = 4000;

/// A result as the model is shown it: cut where it is too long.
pub open spec fn clipped(s: Seq<char>) -> Seq<char> {
    if s.len() > MAX_RESULT_CHARS {
        s.take(MAX_RESULT_CHARS as int) + "\n…(вывод обрезан)"@
    } else {
        s
    }
}

/// Cuts a result that is too long, and says so.
pub fn truncate(s: String) -> (res: String)
    ensures
        res@ == clipped(s@),
        s@.len() <= 4000 ==> res@ == s@,
        s@.len() > 4000 ==> res@ == s@.take(4000) + "\n…(вывод обрезан)"@,
{
    if s.as_str().unicode_len() > MAX_RESULT_CHARS {
        let mut out = s.as_str().substring_char(0, MAX_RESULT_CHARS).to_owned();
        proof {
            assert(s@.subrange(0, MAX_RESULT_CHARS as int) =~= s@.take(MAX_RESULT_CHARS as int));
        }
        out.append("\n…(вывод обрезан)");
        out
    } else {
        s
    }
}

/// The work that a tool call asks for, mathematically.
pub ghost enum Work {
    ReadFile { path: Seq<char> },
    ListDir { path: Seq<char> },
    WriteFile { path: Seq<char>, content: Seq<char> },
    RunCommand { command: Seq<char> },
}

/// The work that a tool call asks for.
#[derive(Debug, PartialEq)]
pub enum Operation {
    ReadFile { path: String },
    ListDir { path: String },
    WriteFile { path: String, content: String },
    RunCommand { command: String },
}

impl View for Operation {
    type V = Work;

    open spec fn view(&self) -> Work {
        match self {
            Operation::ReadFile { path } => Work::ReadFile { path: path@ },
            Operation::ListDir { path } => Work::ListDir { path: path@ },
            Operation::WriteFile { path, content } => Work::WriteFile {
                path: path@,
                content: content@,
            },
            Operation::RunCommand { command } => Work::RunCommand { command: command@ },
        }
    }
}

/// What becomes of a tool call, mathematically.
pub ghost enum Plan {
    Reply { ok: bool, text: Seq<char> },
    Perform(Work),
}

/// What becomes of a tool call: it is answered at once, or there is work to do.
#[derive(Debug, PartialEq)]
pub enum Step {
    Reply { ok: bool, text: String },
    Perform(Operation),
}

impl View for Step {
    type V = Plan;

    open spec fn view(&self) -> Plan {
        match self {
            Step::Reply { ok, text } => Plan::Reply { ok: *ok, text: text@ },
            Step::Perform(operation) => Plan::Perform(operation@),
        }
    }
}

/// The text argument `key`, or `fallback` where there is none.
pub open spec fn argument(args: Doc, key: Seq<char>, fallback: Seq<char>) -> Seq<char> {
    match member(args, key) {
        Some(Doc::Text(s)) => s,
        _ => fallback,
    }
}

/// The plan for a call of the tool `name` with readable arguments.
pub open spec fn plan_for(name: Seq<char>, args: Doc) -> Plan {
    let path = argument(args, "path"@, ""@);
    if name == "read_file"@ {
        if path.len() == 0 {
            Plan::Reply { ok: false, text: "не указан path"@ }
        } else {
            Plan::Perform(Work::ReadFile { path })
        }
    } else if name == "list_dir"@ {
        Plan::Perform(
            Work::ListDir {
                path: if path.len() == 0 {
                    "."@
                } else {
                    path
                },
            },
        )
    } else if name == "write_file"@ {
        if path.len() == 0 {
            Plan::Reply { ok: false, text: "не указан path"@ }
        } else {
            Plan::Perform(Work::WriteFile { path, content: argument(args, "content"@, ""@) })
        }
    } else if name == "run_command"@ {
        let command = argument(args, "command"@, ""@);
        if command.len() == 0 {
            Plan::Reply { ok: false, text: "не указан command"@ }
        } else {
            Plan::Perform(Work::RunCommand { command })
        }
    } else {
        Plan::Reply { ok: false, text: "неизвестный инструмент: "@ + name }
    }
}

/// The plan for a call of the tool `name`, whose arguments are a document or the
/// complaint that they could not be read.
pub open spec fn plan(name: Seq<char>, args: Result<Doc, Seq<char>>) -> Plan {
    match args {
        Ok(doc) => plan_for(name, doc),
        Err(complaint) => Plan::Reply {
            ok: false,
            text: "не разобрал аргументы как JSON: "@ + complaint,
        },
    }
}

/// The view of arguments that were read, or of the complaint.
pub open spec fn reading(args: Result<Json, String>) -> Result<Doc, Seq<char>> {
    match args {
        Ok(tree) => Ok(tree@),
        Err(complaint) => Err(complaint@),
    }
}

/// The text argument `key`, or the empty text.
fn argument_text(args: &Json, key: &str) -> (res: String)
    ensures
        res@ == argument(args@, key@, ""@),
{
    match args.get_str(key) {
        Some(s) => s.to_owned(),
        None => "".to_owned(),
    }
}

/// A failed reply.
fn failure(text: &str) -> (res: Step)
    ensures
        res@ == (Plan::Reply { ok: false, text: text@ }),
{
    Step::Reply { ok: false, text: text.to_owned() }
}

/// What becomes of a call of the tool `name`, once its arguments have been read
/// or have turned out unreadable.
pub fn plan_read(name: &str, args: Result<Json, String>) -> (res: Step)
    ensures
        res@ == plan(name@, reading(args)),
{
    proof {
        reveal_strlit("");
    }
    let args = match args {
        Ok(tree) => tree,
        Err(complaint) => {
            let mut text = "не разобрал аргументы как JSON: ".to_owned();
            text.append(complaint.as_str());
            return Step::Reply { ok: false, text };
        },
    };
    if same_text(name, "read_file") {
        let path = argument_text(&args, "path");
        if path.as_str().is_empty() {
            failure("не указан path")
        } else {
            Step::Perform(Operation::ReadFile { path })
        }
    } else if same_text(name, "list_dir") {
        let path = argument_text(&args, "path");
        if path.as_str().is_empty() {
            Step::Perform(Operation::ListDir { path: ".".to_owned() })
        } else {
            Step::Perform(Operation::ListDir { path })
        }
    } else if same_text(name, "write_file") {
        let path = argument_text(&args, "path");
        let content = argument_text(&args, "content");
        if path.as_str().is_empty() {
            failure("не указан path")
        } else {
            Step::Perform(Operation::WriteFile { path, content })
        }
    } else if same_text(name, "run_command") {
        let command = argument_text(&args, "command");
        if command.as_str().is_empty() {
            failure("не указан command")
        } else {
            Step::Perform(Operation::RunCommand { command })
        }
    } else {
        let mut text = "неизвестный инструмент: ".to_owned();
        text.append(name);
        Step::Reply { ok: false, text }
    }
}

/// What becomes of a call of the tool `name` with the arguments `args`, a JSON text.
pub fn plan_tool(name: &str, args: &str) -> (res: Step)
    ensures
        res@ == plan(name@, parsed(args@)),
{
    plan_read(name, Json::parse(args))
}

/// The answer to a call, once the work is done: whether it succeeded, and the
/// text for the model.
pub ghost struct Answer {
    pub ok: bool,
    pub text: Seq<char>,
}

/// The view of an answer.
pub open spec fn answer(res: (bool, String)) -> Answer {
    Answer { ok: res.0, text: res.1@ }
}

/// What the model is told of a file that was read, or could not be.
pub open spec fn read_told(path: Seq<char>, outcome: Result<String, String>) -> Answer {
    match outcome {
        Ok(content) => Answer { ok: true, text: clipped(content@) },
        Err(reason) => Answer {
            ok: false,
            text: "ошибка чтения «"@ + path + "»: "@ + reason@,
        },
    }
}

/// What the model is told of a file that was read, or could not be.
pub fn read_answer(path: &str, outcome: Result<String, String>) -> (res: (bool, String))
    ensures
        answer(res) == read_told(path@, outcome),
        res.0 == outcome is Ok,
        outcome matches Ok(content) ==> (content@.len() <= 4000 ==> res.1@ == content@),
{
    match outcome {
        Ok(content) => (true, truncate(content)),
        Err(reason) => {
            let mut text = "ошибка чтения «".to_owned();
            text.append(path);
            text.append("»: ");
            text.append(reason.as_str());
            (false, text)
        },
    }
}

/// What the model is told of a file that was written, or could not be. Its size
/// is that of its UTF-8 bytes.
pub open spec fn write_told(
    path: Seq<char>,
    content: Seq<char>,
    outcome: Result<(), String>,
) -> Answer {
    match outcome {
        Ok(_) => Answer {
            ok: true,
            text: "записано "@ + decimal(encode_utf8(content).len()) + " байт в «"@ + path
                + "»"@,
        },
        Err(reason) => Answer {
            ok: false,
            text: "ошибка записи «"@ + path + "»: "@ + reason@,
        },
    }
}

/// What the model is told of a file that was written, or could not be. Its size
/// is that of its UTF-8 bytes.
pub fn write_answer(path: &str, content: &str, outcome: Result<(), String>) -> (res: (bool, String))
    ensures
        answer(res) == write_told(path@, content@, outcome),
        res.0 == outcome is Ok,
{
    match outcome {
        Ok(_) => {
            let size = decimal_of(content.as_bytes().len() as u128);
            let mut text = "записано ".to_owned();
            text.append(size.as_str());
            text.append(" байт в «");
            text.append(path);
            text.append("»");
            (true, text)
        },
        Err(reason) => {
            let mut text = "ошибка записи «".to_owned();
            text.append(path);
            text.append("»: ");
            text.append(reason.as_str());
            (false, text)
        },
    }
}

/// An entry of a directory.
#[derive(Debug, PartialEq)]
pub struct Entry {
    pub name: String,
    pub is_dir: bool,
}

/// The line for an entry; a directory is marked by a slash.
pub open spec fn entry_line(entry: Entry) -> Seq<char> {
    if entry.is_dir {
        entry.name@ + "/"@
    } else {
        entry.name@
    }
}

/// The lines for a list of entries.
pub open spec fn entry_lines(entries: Seq<Entry>) -> Seq<Seq<char>> {
    Seq::new(entries.len(), |i: int| entry_line(entries[i]))
}

/// The text for a list of entries: their lines in order.
pub open spec fn listing(entries: Seq<Entry>) -> Seq<char> {
    if entries.len() == 0 {
        "(пусто)"@
    } else {
        joined(entry_lines(entries).sort_by(text_order()), "\n"@)
    }
}

/// How reading a directory went.
pub enum Listing {
    /// These are its entries, in no particular order.
    Entries(Vec<Entry>),
    /// It could not be opened.
    NotOpened(String),
    /// It could not be read to its end.
    Broken(String),
}

/// The lines for a list of entries, in order.
fn sorted_lines(entries: Vec<Entry>) -> (res: Vec<String>)
    ensures
        texts(res@) == entry_lines(entries@).sort_by(text_order()),
{
    let ghost all = entries@;
    let mut lines: Vec<String> = Vec::new();
    for entry in it: entries
        invariant
            it.seq() == all,
            views(lines@) =~= entry_lines(all).take(it.index() as int),
    {
        let ghost done = lines@;
        proof {
            assert(entry == all[it.index() as int]);
        }
        let mut line = entry.name;
        if entry.is_dir {
            line.append("/");
        }
        lines.push(line);
        proof {
            assert(views(lines@) =~= views(done).push(line@));
        }
    }
    proof {
        assert(views(lines@) =~= entry_lines(all));
    }
    let res = sorted(lines);
    proof {
        assert(texts(res@) =~= views(res@));
        lemma_text_order();
        entry_lines(all).lemma_sort_by_ensures(text_order());
        let out = views(res@);
        assert forall|i: int, j: int| 0 <= i < j < out.len() implies #[trigger] (text_order())(
            out[i],
            out[j],
        ) by {
            assert(String::not_after(out[i], out[j]));
        }
        vstd::seq_lib::lemma_sorted_unique(
            out,
            entry_lines(all).sort_by(text_order()),
            text_order(),
        );
    }
    res
}

/// What the model is told of a directory.
pub open spec fn list_told(path: Seq<char>, outcome: Listing) -> Answer {
    match outcome {
        Listing::Entries(entries) => Answer { ok: true, text: clipped(listing(entries@)) },
        Listing::NotOpened(reason) => Answer {
            ok: false,
            text: "ошибка открытия каталога «"@ + path + "»: "@ + reason@,
        },
        Listing::Broken(reason) => Answer {
            ok: false,
            text: "ошибка чтения каталога: "@ + reason@,
        },
    }
}

/// What the model is told of a directory.
pub fn list_answer(path: &str, outcome: Listing) -> (res: (bool, String))
    ensures
        answer(res) == list_told(path@, outcome),
        res.0 == outcome is Entries,
{
    match outcome {
        Listing::Entries(entries) => {
            let body = if entries.is_empty() {
                "(пусто)".to_owned()
            } else {
                let lines = sorted_lines(entries);
                join(&lines, "\n")
            };
            (true, truncate(body))
        },
        Listing::NotOpened(reason) => {
            let mut text = "ошибка открытия каталога «".to_owned();
            text.append(path);
            text.append("»: ");
            text.append(reason.as_str());
            (false, text)
        },
        Listing::Broken(reason) => {
            let mut text = "ошибка чтения каталога: ".to_owned();
            text.append(reason.as_str());
            (false, text)
        },
    }
}

/// How running a command went.
pub enum CommandRun {
    /// It ran to its end; without an exit code where a signal ended it.
    Finished { code: Option<i32>, success: bool, stdout: Vec<u8>, stderr: Vec<u8> },
    /// It could not be started.
    NotStarted(String),
    /// It took too long.
    TimedOut,
}

/// How long a command may take, in seconds.
pub const COMMAND_TIMEOUT_S: u64 = 60;

/// The report on a command that ran: its exit code, then what it printed. What
/// went to the error output comes last, where there is any.
pub open spec fn command_report(
    code: Option<i32>,
    stdout: Seq<char>,
    stderr: Option<Seq<char>>,
) -> Seq<char> {
    let head = "код выхода: "@ + signed_decimal(
        match code {
            Some(c) => c as int,
            None => -1,
        },
    ) + "\n"@ + stdout;
    match stderr {
        Some(text) => head + "\nSTDERR:\n"@ + text,
        None => head,
    }
}

/// Builds the report on a command that ran.
pub fn report_command(code: Option<i32>, stdout: &str, stderr: Option<&str>) -> (res: String)
    ensures
        res@ == command_report(code, stdout@, optional_str(stderr)),
{
    let mut text = "код выхода: ".to_owned();
    let number = match code {
        Some(c) => signed_decimal_of(c),
        None => signed_decimal_of(-1),
    };
    text.append(number.as_str());
    text.append("\n");
    text.append(stdout);
    if let Some(errors) = stderr {
        text.append("\nSTDERR:\n");
        text.append(errors);
    }
    text
}

/// What the model is told of a command.
pub open spec fn command_told(outcome: CommandRun) -> Answer {
    match outcome {
        CommandRun::Finished { code, success, stdout, stderr } => Answer {
            ok: success,
            text: clipped(
                command_report(
                    code,
                    lossy_text(stdout@),
                    if stderr@.len() == 0 {
                        None
                    } else {
                        Some(lossy_text(stderr@))
                    },
                ),
            ),
        },
        CommandRun::NotStarted(reason) => Answer {
            ok: false,
            text: "не удалось запустить команду: "@ + reason@,
        },
        CommandRun::TimedOut => Answer {
            ok: false,
            text: "команда не уложилась в таймаут 60 c"@,
        },
    }
}

/// Output that is well-formed UTF-8 is shown as it stands.
pub open spec fn shown_faithfully(outcome: CommandRun) -> bool {
    match outcome {
        CommandRun::Finished { stdout, stderr, .. } => {
            &&& valid_utf8(stdout@) ==> lossy_text(stdout@) == decode_utf8(stdout@)
            &&& stderr@.len() > 0 && valid_utf8(stderr@) ==> lossy_text(stderr@) == decode_utf8(
                stderr@,
            )
        },
        _ => true,
    }
}

/// What the model is told of a command.
pub fn command_answer(outcome: CommandRun) -> (res: (bool, String))
    ensures
        answer(res) == command_told(outcome),
        shown_faithfully(outcome),
        match outcome {
            CommandRun::Finished { success, .. } => res.0 == success,
            _ => !res.0,
        },
{
    match outcome {
        CommandRun::Finished { code, success, stdout, stderr } => {
            let out = read_lossy(stdout.as_slice());
            let errors = if stderr.is_empty() {
                None
            } else {
                Some(read_lossy(stderr.as_slice()))
            };
            let stderr = match &errors {
                Some(text) => Some(text.as_str()),
                None => None,
            };
            let text = report_command(code, out.as_str(), stderr);
            (success, truncate(text))
        },
        CommandRun::NotStarted(reason) => {
            let mut text = "не удалось запустить команду: ".to_owned();
            text.append(reason.as_str());
            (false, text)
        },
        CommandRun::TimedOut => (false, "команда не уложилась в таймаут 60 c".to_owned()),
    }
}

/// How the work of a tool went.
pub enum Outcome {
    Read(Result<String, String>),
    Listed(Listing),
    Written(Result<(), String>),
    Ran(CommandRun),
}

/// What the model is told of work that was done, or could not be; nothing where
/// the outcome is that of other work.
pub open spec fn work_told(work: Work, outcome: Outcome) -> Option<Answer> {
    match (work, outcome) {
        (Work::ReadFile { path }, Outcome::Read(result)) => Some(read_told(path, result)),
        (Work::ListDir { path }, Outcome::Listed(result)) => Some(list_told(path, result)),
        (Work::WriteFile { path, content }, Outcome::Written(result)) => Some(
            write_told(path, content, result),
        ),
        (Work::RunCommand { .. }, Outcome::Ran(result)) => Some(command_told(result)),
        _ => None,
    }
}

/// The view of an optional answer.
pub open spec fn optional_answer(res: Option<(bool, String)>) -> Option<Answer> {
    match res {
        Some(pair) => Some(answer(pair)),
        None => None,
    }
}

/// What the model is told of work that was done, or could not be.
pub fn tool_answer(operation: &Operation, outcome: Outcome) -> (res: Option<(bool, String)>)
    ensures
        optional_answer(res) == work_told(operation@, outcome),
        (operation, outcome) matches (Operation::RunCommand { .. }, Outcome::Ran(result))
            ==> shown_faithfully(result),
{
    match (operation, outcome) {
        (Operation::ReadFile { path }, Outcome::Read(result)) => Some(
            read_answer(path.as_str(), result),
        ),
        (Operation::ListDir { path }, Outcome::Listed(result)) => Some(
            list_answer(path.as_str(), result),
        ),
        (Operation::WriteFile { path, content }, Outcome::Written(result)) => Some(
            write_answer(path.as_str(), content.as_str(), result),
        ),
        (Operation::RunCommand { .. }, Outcome::Ran(result)) => Some(command_answer(result)),
        _ => None,
    }
}

/// A result for the model has at most so many characters, and a notice where
/// something was cut off.
pub proof fn lemma_clipped_length(s: Seq<char>)
    ensures
        clipped(s).len() <= MAX_RESULT_CHARS + "\n…(вывод обрезан)"@.len(),
        clipped(s).take(vstd::math::min(s.len() as int, MAX_RESULT_CHARS as int)) == s.take(
            vstd::math::min(s.len() as int, MAX_RESULT_CHARS as int),
        ),
{
    let n = vstd::math::min(s.len() as int, MAX_RESULT_CHARS as int);
    assert(clipped(s).take(n) =~= s.take(n));
}

/// A result of at most 4000 characters is shown whole; of a longer one the first
/// 4000 are shown, and a notice.
pub proof fn lemma_clipped(s: Seq<char>)
    ensures
        s.len() <= 4000 ==> clipped(s) == s,
        s.len() > 4000 ==> clipped(s) == s.take(4000) + "\n…(вывод обрезан)"@,
{
}

/// An argument is the text of its field as it stands; where there is none, the
/// fallback takes its place.
pub proof fn lemma_argument(args: Doc, key: Seq<char>, fallback: Seq<char>)
    ensures
        text_member(args, key) is Some ==> argument(args, key, fallback) == text_member(
            args,
            key,
        )->0,
        text_member(args, key) is None ==> argument(args, key, fallback) == fallback,
{
}

/// Whether these arguments have a text under the key that is not empty.
pub open spec fn has_argument(args: Doc, key: Seq<char>) -> bool {
    text_member(args, key) is Some && text_member(args, key)->0.len() > 0
}

proof fn lemma_names_differ()
    ensures
        ""@ == Seq::<char>::empty(),
        "read_file"@.len() == 9,
        "list_dir"@.len() == 8,
        "write_file"@.len() == 10,
        "run_command"@.len() == 11,
{
    reveal_strlit("");
    reveal_strlit("read_file");
    reveal_strlit("list_dir");
    reveal_strlit("write_file");
    reveal_strlit("run_command");
}

/// A file is read at the path that the call names; a call that names none fails.
pub proof fn lemma_plan_read_file(args: Doc)
    ensures
        has_argument(args, "path"@) ==> plan("read_file"@, Ok(args)) == Plan::Perform(
            Work::ReadFile { path: text_member(args, "path"@)->0 },
        ),
        !has_argument(args, "path"@) ==> plan("read_file"@, Ok(args)) == (Plan::Reply {
            ok: false,
            text: "не указан path"@,
        }),
{
    lemma_names_differ();
}

/// A directory is listed at the path that the call names, and else the current one.
pub proof fn lemma_plan_list_dir(args: Doc)
    ensures
        has_argument(args, "path"@) ==> plan("list_dir"@, Ok(args)) == Plan::Perform(
            Work::ListDir { path: text_member(args, "path"@)->0 },
        ),
        !has_argument(args, "path"@) ==> plan("list_dir"@, Ok(args)) == Plan::Perform(
            Work::ListDir { path: "."@ },
        ),
{
    lemma_names_differ();
}

/// A file is written at the path that the call names, with the content that it
/// gives, or empty where it gives none; a call that names no path fails.
pub proof fn lemma_plan_write_file(args: Doc)
    ensures
        has_argument(args, "path"@) ==> plan("write_file"@, Ok(args)) == Plan::Perform(
            Work::WriteFile {
                path: text_member(args, "path"@)->0,
                content: if text_member(args, "content"@) is Some {
                    text_member(args, "content"@)->0
                } else {
                    Seq::empty()
                },
            },
        ),
        !has_argument(args, "path"@) ==> plan("write_file"@, Ok(args)) == (Plan::Reply {
            ok: false,
            text: "не указан path"@,
        }),
{
    lemma_names_differ();
}

/// The command that the call gives is run; a call that gives none fails.
pub proof fn lemma_plan_run_command(args: Doc)
    ensures
        has_argument(args, "command"@) ==> plan("run_command"@, Ok(args)) == Plan::Perform(
            Work::RunCommand { command: text_member(args, "command"@)->0 },
        ),
        !has_argument(args, "command"@) ==> plan("run_command"@, Ok(args)) == (Plan::Reply {
            ok: false,
            text: "не указан command"@,
        }),
{
    lemma_names_differ();
}

/// A call of any other tool fails, and so does one whose arguments cannot be read:
/// nothing is done, and the model is told why.
pub proof fn lemma_plan_failure(name: Seq<char>, args: Doc, complaint: Seq<char>)
    ensures
        name != "read_file"@ && name != "list_dir"@ && name != "write_file"@ && name
            != "run_command"@ ==> plan(name, Ok(args)) == (Plan::Reply {
            ok: false,
            text: "неизвестный инструмент: "@ + name,
        }),
        plan(name, Err(complaint)) == (Plan::Reply {
            ok: false,
            text: "не разобрал аргументы как JSON: "@ + complaint,
        }),
{
}

/// A file that was read is shown as it stands, up to 4000 characters; a failure is
/// told with the path and the reason.
pub proof fn lemma_read_told(path: Seq<char>, content: String, reason: String)
    ensures
        read_told(path, Ok(content)).ok,
        content@.len() <= 4000 ==> read_told(path, Ok(content)).text == content@,
        content@.len() > 4000 ==> read_told(path, Ok(content)).text == content@.take(4000)
            + "\n…(вывод обрезан)"@,
        !read_told(path, Err(reason)).ok,
        read_told(path, Err(reason)).text == "ошибка чтения «"@ + path + "»: "@ + reason@,
{
}

/// Of a file that was written its size in bytes is told; a failure is told with
/// the path and the reason.
pub proof fn lemma_write_told(path: Seq<char>, content: Seq<char>, reason: String)
    ensures
        write_told(path, content, Ok(())).ok,
        exists|digits: Seq<char>|
            number(digits) == encode_utf8(content).len() && write_told(path, content, Ok(())).text
                == #[trigger] ("записано "@ + digits + " байт в «"@ + path + "»"@),
        !write_told(path, content, Err(reason)).ok,
        write_told(path, content, Err(reason)).text == "ошибка записи «"@ + path + "»: "@
            + reason@,
{
    let digits = decimal(encode_utf8(content).len());
    lemma_decimal(encode_utf8(content).len());
    assert(write_told(path, content, Ok(())).text == "записано "@ + digits + " байт в «"@ + path
        + "»"@);
}

/// Each entry has a line: its name, and behind it a slash where it is a directory.
pub proof fn lemma_entry_lines(entries: Seq<Entry>)
    ensures
        entry_lines(entries).len() == entries.len(),
        forall|i: int|
            0 <= i < entries.len() ==> if entries[i].is_dir {
                &&& (#[trigger] entry_lines(entries)[i]).len() == entries[i].name@.len() + 1
                &&& entry_lines(entries)[i].drop_last() == entries[i].name@
                &&& entry_lines(entries)[i].last() == '/'
            } else {
                entry_lines(entries)[i] == entries[i].name@
            },
{
    reveal_strlit("/");
    assert forall|i: int| 0 <= i < entries.len() implies if entries[i].is_dir {
        &&& (#[trigger] entry_lines(entries)[i]).len() == entries[i].name@.len() + 1
        &&& entry_lines(entries)[i].drop_last() == entries[i].name@
        &&& entry_lines(entries)[i].last() == '/'
    } else {
        entry_lines(entries)[i] == entries[i].name@
    } by {
        if entries[i].is_dir {
            assert(entry_lines(entries)[i].drop_last() =~= entries[i].name@);
        }
    }
}

/// A directory is shown as the lines of all of its entries, in the order of their
/// characters, with line feeds between them; an empty one is said to be so.
pub proof fn lemma_listing(entries: Seq<Entry>, lines: Seq<Seq<char>>)
    ensures
        entries.len() == 0 ==> listing(entries) == "(пусто)"@,
        entries.len() > 0 && lines.to_multiset() == entry_lines(entries).to_multiset() && (forall|
            i: int,
            j: int,
        |
            0 <= i < j < lines.len() ==> text_le(lines[i], lines[j])) ==> listing(entries) == joined(
            lines,
            seq!['\n'],
        ),
{
    reveal_strlit("\n");
    assert("\n"@ =~= seq!['\n']);
    let all = entry_lines(entries);
    if entries.len() > 0 && lines.to_multiset() == all.to_multiset() && (forall|i: int, j: int|
        0 <= i < j < lines.len() ==> text_le(lines[i], lines[j])) {
        lemma_text_order();
        all.lemma_sort_by_ensures(text_order());
        assert forall|i: int, j: int| 0 <= i < j < lines.len() implies #[trigger] (text_order())(
            lines[i],
            lines[j],
        ) by {
            assert(text_le(lines[i], lines[j]));
        }
        vstd::seq_lib::lemma_sorted_unique(lines, all.sort_by(text_order()), text_order());
    }
}

/// A directory that was read is a success and is shown up to 4000 characters; a
/// failure is told with its reason.
pub proof fn lemma_list_told(path: Seq<char>, entries: Vec<Entry>, reason: String)
    ensures
        list_told(path, Listing::Entries(entries)).ok,
        listing(entries@).len() <= 4000 ==> list_told(path, Listing::Entries(entries)).text
            == listing(entries@),
        listing(entries@).len() > 4000 ==> list_told(path, Listing::Entries(entries)).text
            == listing(entries@).take(4000) + "\n…(вывод обрезан)"@,
        !list_told(path, Listing::NotOpened(reason)).ok,
        list_told(path, Listing::NotOpened(reason)).text == "ошибка открытия каталога «"@ + path
            + "»: "@ + reason@,
        !list_told(path, Listing::Broken(reason)).ok,
        list_told(path, Listing::Broken(reason)).text == "ошибка чтения каталога: "@ + reason@,
{
}

/// A command that ran to its end succeeded just where it says so, whatever it
/// printed. It is told with its exit code, or -1 where a signal ended it, then all
/// that it printed, and last, under a heading, its error output where there is any.
pub proof fn lemma_command_told(
    code: Option<i32>,
    success: bool,
    stdout: Vec<u8>,
    stderr: Vec<u8>,
)
    ensures
        ({
            let told = command_told(CommandRun::Finished { code, success, stdout, stderr });
            let number = match code {
                Some(c) => signed_decimal(c as int),
                None => seq!['-', '1'],
            };
            let head = "код выхода: "@ + number + seq!['\n'] + lossy_text(stdout@);
            let report = if stderr@.len() > 0 {
                head + "\nSTDERR:\n"@ + lossy_text(stderr@)
            } else {
                head
            };
            &&& told.ok == success
            &&& report.len() <= 4000 ==> told.text == report
            &&& report.len() > 4000 ==> told.text == report.take(4000) + "\n…(вывод обрезан)"@
        }),
{
    reveal_strlit("\n");
    assert("\n"@ =~= seq!['\n']);
    assert(signed_decimal(-1) =~= seq!['-', '1']);
}

/// A command that could not be started, or took too long, failed.
pub proof fn lemma_command_failed(reason: String)
    ensures
        !command_told(CommandRun::NotStarted(reason)).ok,
        command_told(CommandRun::NotStarted(reason)).text == "не удалось запустить команду: "@
            + reason@,
        !command_told(CommandRun::TimedOut).ok,
        command_told(CommandRun::TimedOut).text == "команда не уложилась в таймаут 60 c"@,
{
}

/// The model is told of the work that was asked for, and of its own outcome.
pub proof fn lemma_work_told(
    path: Seq<char>,
    content: Seq<char>,
    read: Result<String, String>,
    listed: Listing,
    written: Result<(), String>,
    ran: CommandRun,
)
    ensures
        work_told(Work::ReadFile { path }, Outcome::Read(read)) == Some(read_told(path, read)),
        work_told(Work::ListDir { path }, Outcome::Listed(listed)) == Some(
            list_told(path, listed),
        ),
        work_told(Work::WriteFile { path, content }, Outcome::Written(written)) == Some(
            write_told(path, content, written),
        ),
        work_told(Work::RunCommand { command: content }, Outcome::Ran(ran)) == Some(
            command_told(ran),
        ),
{
}

/// An outcome of other work tells nothing.
pub proof fn lemma_other_work(work: Work, outcome: Outcome)
    ensures
        work_told(work, outcome) is Some <==> {
            ||| work is ReadFile && outcome is Read
            ||| work is ListDir && outcome is Listed
            ||| work is WriteFile && outcome is Written
            ||| work is RunCommand && outcome is Ran
        },
{
}

/// The view of work is work of the same kind, with the same texts as they stand.
pub proof fn lemma_work_views(path: String, content: String, operation: Operation, ok: bool)
    ensures
        (Operation::ReadFile { path })@ == (Work::ReadFile { path: path@ }),
        (Operation::ListDir { path })@ == (Work::ListDir { path: path@ }),
        (Operation::WriteFile { path, content })@ == (Work::WriteFile {
            path: path@,
            content: content@,
        }),
        (Operation::RunCommand { command: content })@ == (Work::RunCommand { command: content@ }),
        Step::Perform(operation)@ == Plan::Perform(operation@),
        (Step::Reply { ok, text: content })@ == (Plan::Reply { ok, text: content@ }),
{
}

/// The view of an answer has its success and its text as they stand, and that of
/// arguments their document or the complaint.
pub proof fn lemma_answer_views(res: (bool, String), tree: Json, complaint: String)
    ensures
        answer(res).ok == res.0,
        answer(res).text == res.1@,
        optional_answer(Some(res)) is Some,
        optional_answer(Some(res))->0.ok == res.0,
        optional_answer(Some(res))->0.text == res.1@,
        optional_answer(None) is None,
        reading(Ok(tree)) == Ok::<Doc, Seq<char>>(tree@),
        reading(Err(complaint)) == Err::<Doc, Seq<char>>(complaint@),
{
}

/// A command may take one minute.
pub proof fn lemma_command_timeout()
    ensures
        COMMAND_TIMEOUT_S == 60,
{
}

} // verus!
