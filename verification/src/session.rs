//! A run of the agent, from the task to the final answer.
//!
//! A run alternates between waiting for a reply of the model and waiting for
//! the outcome of a tool. In between it decides by itself, and whatever it
//! decides it reports as events.

use vstd::prelude::*;
use vstd::string::*;

use crate::agent::{allowed_tools_json, offered, AgentEvent, Event};
use crate::json::{docs, named_docs, object_of, parsed, text_member, Doc, Json};
use crate::session_laws::lemma_tool_message;
use crate::text::{contains_text, decimal, decimal_of, join, joined, texts, trim, trimmed};
use crate::tools::{
    plan, plan_tool, tool_answer, work_told, Operation, Outcome, Plan, Step, Work,
};

verus! {

/// How many replies the agent asks the model for at most.
pub const MAX_TURNS: usize = 8;

/// A tool call of the model, mathematically.
pub ghost struct Call {
    pub id: Seq<char>,
    pub name: Seq<char>,
    pub arguments: Seq<char>,
}

/// A tool call of the model.
#[derive(Debug, PartialEq)]
pub struct ToolCall {
    pub id: String,
    pub name: String,
    /// A JSON text.
    pub arguments: String,
}

impl View for ToolCall {
    type V = Call;

    open spec fn view(&self) -> Call {
        Call { id: self.id@, name: self.name@, arguments: self.arguments@ }
    }
}

/// The views of a list of calls.
pub open spec fn calls_of(list: Seq<ToolCall>) -> Seq<Call> {
    Seq::new(list.len(), |i: int| list[i]@)
}

/// A reply of the model, mathematically.
pub ghost struct Reply {
    pub message: Doc,
    pub content: Seq<char>,
    pub calls: Seq<Call>,
}

/// A reply of the model: the message as it came, the text in it, and the calls
/// that it asks for.
#[derive(Debug, PartialEq)]
pub struct AgentTurn {
    pub message: Json,
    pub content: String,
    pub tool_calls: Vec<ToolCall>,
}

impl View for AgentTurn {
    type V = Reply;

    open spec fn view(&self) -> Reply {
        Reply {
            message: self.message@,
            content: self.content@,
            calls: calls_of(self.tool_calls@),
        }
    }
}

/// Where a run stands, mathematically: the first `done` of the calls of the last
/// reply have been answered.
pub ghost struct Standing {
    pub allowed: Seq<Seq<char>>,
    pub messages: Seq<Doc>,
    pub turn: nat,
    pub calls: Seq<Call>,
    pub done: nat,
}

/// What comes next in a run, mathematically.
pub ghost enum Coming {
    Ask(Standing),
    Perform(Standing, Work),
    Stop,
}

/// The views of a list of events.
pub open spec fn events_of(list: Seq<AgentEvent>) -> Seq<Event> {
    Seq::new(list.len(), |i: int| list[i]@)
}

/// A chat message.
pub open spec fn chat_message(role: Seq<char>, content: Seq<char>) -> Doc {
    object_of(seq![("role"@, Doc::Text(role)), ("content"@, Doc::Text(content))])
}

/// The message that tells the model the result of the call `id`.
pub open spec fn tool_message(id: Seq<char>, result: Seq<char>) -> Doc {
    object_of(
        seq![
            ("role"@, Doc::Text("tool"@)),
            ("tool_call_id"@, Doc::Text(id)),
            ("content"@, Doc::Text(result)),
        ],
    )
}

/// What the model is told of a call that the user has not allowed.
pub open spec fn refusal(name: Seq<char>) -> Seq<char> {
    "❌ Инструмент «"@ + name + "» не разрешён пользователем."@
}

/// How the allowed tools are named to the model.
pub open spec fn tools_line(allowed: Seq<Seq<char>>) -> Seq<char> {
    if allowed.len() == 0 {
        "нет (работай без инструментов, отвечай из своих знаний)"@
    } else {
        joined(allowed, ", "@)
    }
}

/// The instructions for the model.
pub open spec fn instructions(allowed: Seq<Seq<char>>) -> Seq<char> {
    "Ты — полезный агент, работающий на компьютере пользователя. Решай задачу пошагово, при необходимости вызывая инструменты. Разрешённые инструменты: "@
        + tools_line(allowed)
        + ". Рабочая папка — текущая. Когда задача решена, дай краткий финальный ответ БЕЗ вызова инструментов. Отвечай по-русски."@
}

/// The run after the next of its calls has been answered.
pub open spec fn answered(st: Standing, result: Seq<char>) -> Standing {
    Standing {
        messages: st.messages.push(tool_message(st.calls[st.done as int].id, result)),
        done: st.done + 1,
        ..st
    }
}

/// The report that the turn `turn` begins.
pub open spec fn turn_event(turn: nat) -> Event {
    Event::Status("ход "@ + decimal(turn))
}

/// The report that there are no more turns.
pub open spec fn limit_event() -> Event {
    Event::Error("достигнут лимит шагов ("@ + decimal(MAX_TURNS as nat) + ") — агент остановлен"@)
}

/// What happens from here on until the model or a tool is needed. A call that is
/// not allowed is refused; one that needs no work is answered; once all calls
/// have an answer the model is asked again, unless there are no more turns.
pub open spec fn proceed(st: Standing) -> (Seq<Event>, Coming)
    decreases st.calls.len() - st.done,
{
    if st.done >= st.calls.len() {
        if st.turn < MAX_TURNS {
            (
                seq![turn_event(st.turn + 1)],
                Coming::Ask(Standing { turn: st.turn + 1, ..st }),
            )
        } else {
            (seq![limit_event()], Coming::Stop)
        }
    } else {
        let call = st.calls[st.done as int];
        let called = Event::ToolCall { name: call.name, args: call.arguments };
        if !st.allowed.contains(call.name) {
            let (events, next) = proceed(answered(st, refusal(call.name)));
            (seq![called, Event::Denied { name: call.name }] + events, next)
        } else {
            match plan(call.name, parsed(call.arguments)) {
                Plan::Reply { ok, text } => {
                    let (events, next) = proceed(answered(st, text));
                    (
                        seq![called, Event::ToolResult { name: call.name, ok, result: text }]
                            + events,
                        next,
                    )
                },
                Plan::Perform(work) => (seq![called], Coming::Perform(st, work)),
            }
        }
    }
}

/// What the model is told before anything else: the instructions and the task.
pub open spec fn opening(task: Seq<char>, allowed: Seq<Seq<char>>) -> Seq<Doc> {
    seq![chat_message("system"@, instructions(allowed)), chat_message("user"@, task)]
}

/// What the user sees of the text of a reply: nothing where it is blank.
pub open spec fn said(reply: Reply) -> Seq<Event> {
    if trimmed(reply.content).len() == 0 {
        Seq::empty()
    } else {
        seq![Event::Assistant(reply.content)]
    }
}

/// What happens when a run begins.
pub open spec fn begin(task: Seq<char>, allowed: Seq<Seq<char>>) -> (Seq<Event>, Coming) {
    proceed(
        Standing {
            allowed,
            messages: opening(task, allowed),
            turn: 0,
            calls: Seq::empty(),
            done: 0,
        },
    )
}

/// What happens when the model has replied, or could not be asked.
pub open spec fn on_reply(st: Standing, outcome: Result<Reply, Seq<char>>) -> (Seq<Event>, Coming) {
    match outcome {
        Err(complaint) => (seq![Event::Error(complaint)], Coming::Stop),
        Ok(reply) => {
            if reply.calls.len() == 0 {
                (said(reply).push(Event::Final(reply.content)), Coming::Stop)
            } else {
                let (events, next) = proceed(
                    Standing {
                        messages: st.messages.push(reply.message),
                        calls: reply.calls,
                        done: 0,
                        ..st
                    },
                );
                (said(reply) + events, next)
            }
        },
    }
}

/// What happens when a tool has done its work.
pub open spec fn on_result(st: Standing, ok: bool, text: Seq<char>) -> (Seq<Event>, Coming) {
    let name = st.calls[st.done as int].name;
    let (events, next) = proceed(answered(st, text));
    (seq![Event::ToolResult { name, ok, result: text }] + events, next)
}

/// The view of the outcome of asking the model.
pub open spec fn reply_of(outcome: Result<AgentTurn, String>) -> Result<Reply, Seq<char>> {
    match outcome {
        Ok(reply) => Ok(reply@),
        Err(complaint) => Err(complaint@),
    }
}

/// Where a run stands.
struct Session {
    allowed: Vec<String>,
    tools: Json,
    messages: Vec<Json>,
    turn: usize,
    calls: Vec<ToolCall>,
    done: usize,
}

impl Session {
    spec fn standing(self) -> Standing {
        Standing {
            allowed: texts(self.allowed@),
            messages: docs(self.messages@),
            turn: self.turn as nat,
            calls: calls_of(self.calls@),
            done: self.done as nat,
        }
    }

    spec fn sound(self) -> bool {
        &&& self.tools@ == Doc::Array(offered(texts(self.allowed@)))
        &&& self.turn <= MAX_TURNS
        &&& self.done <= self.calls@.len()
    }
}

/// A run that waits for a reply of the model.
pub struct Asking {
    session: Session,
}

/// A run that waits for a tool.
pub struct Performing {
    session: Session,
    operation: Operation,
}

impl Asking {
    #[verifier::type_invariant]
    spec fn sound(self) -> bool {
        self.session.sound()
    }

    /// Where the run stands.
    pub closed spec fn standing(self) -> Standing {
        self.session.standing()
    }
}

impl Performing {
    #[verifier::type_invariant]
    spec fn sound(self) -> bool {
        self.session.sound() && self.session.done < self.session.calls@.len()
    }

    /// Where the run stands.
    pub closed spec fn standing(self) -> Standing {
        self.session.standing()
    }

    /// The work that the tool has to do.
    pub closed spec fn work(self) -> Work {
        self.operation@
    }
}

/// What comes next in a run.
pub enum Next {
    /// The model is asked for a reply.
    Ask(Asking),
    /// A tool has work to do.
    Perform(Performing),
    /// The run is over.
    Stop,
}

impl View for Next {
    type V = Coming;

    open spec fn view(&self) -> Coming {
        match self {
            Next::Ask(asking) => Coming::Ask(asking.standing()),
            Next::Perform(performing) => Coming::Perform(
                performing.standing(),
                performing.work(),
            ),
            Next::Stop => Coming::Stop,
        }
    }
}

/// Builds a chat message.
fn message(role: &str, content: &str) -> (res: Json)
    ensures
        res@ == chat_message(role@, content@),
{
    let fields: Vec<(&str, Json)> = vec![
        ("role", Json::text(role)),
        ("content", Json::text(content)),
    ];
    proof {
        assert(named_docs(fields@) =~= seq![
            ("role"@, Doc::Text(role@)),
            ("content"@, Doc::Text(content@)),
        ]);
    }
    Json::object(fields)
}

/// Builds the message that tells the model the result of the call `id`.
fn result_message(id: &str, result: &str) -> (res: Json)
    ensures
        res@ == tool_message(id@, result@),
        text_member(res@, "role"@) == Some("tool"@),
        text_member(res@, "tool_call_id"@) == Some(id@),
        text_member(res@, "content"@) == Some(result@),
{
    let fields: Vec<(&str, Json)> = vec![
        ("role", Json::text("tool")),
        ("tool_call_id", Json::text(id)),
        ("content", Json::text(result)),
    ];
    proof {
        assert(named_docs(fields@) =~= seq![
            ("role"@, Doc::Text("tool"@)),
            ("tool_call_id"@, Doc::Text(id@)),
            ("content"@, Doc::Text(result@)),
        ]);
        lemma_tool_message(id@, result@);
    }
    Json::object(fields)
}

impl Session {
    /// Answers the next call.
    fn answer(&mut self, result: &str)
        requires
            old(self).sound(),
            old(self).done < old(self).calls@.len(),
        ensures
            final(self).sound(),
            final(self).standing() == answered(old(self).standing(), result@),
    {
        let ghost before = self.messages@;
        let message = result_message(self.calls[self.done].id.as_str(), result);
        self.messages.push(message);
        proof {
            assert(self.done < self.calls.len());
        }
        self.done += 1;
        proof {
            assert(docs(self.messages@) =~= docs(before).push(message@));
        }
    }

    /// Goes on until the model or a tool is needed.
    fn proceed(self) -> (res: (Vec<AgentEvent>, Next))
        requires
            self.sound(),
        ensures
            (events_of(res.0@), res.1@) == proceed(self.standing()),
    {
        let ghost start = self.standing();
        let mut session = self;
        let mut events: Vec<AgentEvent> = Vec::new();
        while session.done < session.calls.len()
            invariant
                session.sound(),
                start == self.standing(),
                proceed(start) == (
                    events_of(events@) + proceed(session.standing()).0,
                    proceed(session.standing()).1,
                ),
            decreases session.calls@.len() - session.done,
        {
            let ghost st = session.standing();
            let ghost before = events@;
            let ghost call = st.calls[st.done as int];
            let name = session.calls[session.done].name.clone();
            let args = session.calls[session.done].arguments.clone();
            let step = if contains_text(&session.allowed, name.as_str()) {
                Some(plan_tool(name.as_str(), args.as_str()))
            } else {
                None
            };
            events.push(AgentEvent::ToolCall { name: name.clone(), args });
            match step {
                None => {
                    let mut text = "❌ Инструмент «".to_owned();
                    text.append(name.as_str());
                    text.append("» не разрешён пользователем.");
                    session.answer(text.as_str());
                    events.push(AgentEvent::Denied { name });
                },
                Some(Step::Reply { ok, text }) => {
                    session.answer(text.as_str());
                    events.push(AgentEvent::ToolResult { name, ok, result: text });
                },
                Some(Step::Perform(operation)) => {
                    proof {
                        assert(events_of(events@) =~= events_of(before) + proceed(st).0);
                    }
                    return (events, Next::Perform(Performing { session, operation }));
                },
            }
            proof {
                let now = proceed(session.standing());
                assert(events_of(events@) + now.0 =~= events_of(before) + proceed(st).0);
            }
        }
        let ghost before = events@;
        let ghost st = session.standing();
        if session.turn < MAX_TURNS {
            session.turn += 1;
            let mut text = "ход ".to_owned();
            let number = decimal_of(session.turn as u128);
            text.append(number.as_str());
            events.push(AgentEvent::Status(text));
            proof {
                assert(events_of(events@) =~= events_of(before) + proceed(st).0);
            }
            (events, Next::Ask(Asking { session }))
        } else {
            let mut text = "достигнут лимит шагов (".to_owned();
            let number = decimal_of(MAX_TURNS as u128);
            text.append(number.as_str());
            text.append(") — агент остановлен");
            events.push(AgentEvent::Error(text));
            proof {
                assert(events_of(events@) =~= events_of(before) + proceed(st).0);
            }
            (events, Next::Stop)
        }
    }
}

/// Begins a run: `task` is to be solved with the tools named in `allowed`.
pub fn run(task: String, allowed: Vec<String>) -> (res: (Vec<AgentEvent>, Next))
    ensures
        (events_of(res.0@), res.1@) == begin(task@, texts(allowed@)),
{
    let tools = allowed_tools_json(&allowed);
    let line = if allowed.is_empty() {
        "нет (работай без инструментов, отвечай из своих знаний)".to_owned()
    } else {
        join(&allowed, ", ")
    };
    let mut system =
        "Ты — полезный агент, работающий на компьютере пользователя. Решай задачу пошагово, при необходимости вызывая инструменты. Разрешённые инструменты: ".to_owned();
    system.append(line.as_str());
    system.append(
        ". Рабочая папка — текущая. Когда задача решена, дай краткий финальный ответ БЕЗ вызова инструментов. Отвечай по-русски.",
    );
    let messages: Vec<Json> = vec![
        message("system", system.as_str()),
        message("user", task.as_str()),
    ];
    let session = Session { allowed, tools, messages, turn: 0, calls: Vec::new(), done: 0 };
    proof {
        assert(docs(messages@) =~= opening(task@, texts(allowed@)));
        assert(session.standing().calls =~= Seq::empty());
    }
    session.proceed()
}

impl Asking {
    /// The messages that the model is to reply to.
    pub fn messages(&self) -> (res: &Vec<Json>)
        ensures
            docs(res@) == self.standing().messages,
    {
        &self.session.messages
    }

    /// The tools that the model is offered.
    pub fn tools(&self) -> (res: &Json)
        ensures
            res@ == Doc::Array(offered(self.standing().allowed)),
    {
        proof {
            use_type_invariant(self);
        }
        &self.session.tools
    }

    /// Goes on with the reply of the model, or with the complaint that it could
    /// not be asked.
    pub fn replied(self, outcome: Result<AgentTurn, String>) -> (res: (Vec<AgentEvent>, Next))
        ensures
            (events_of(res.0@), res.1@) == on_reply(self.standing(), reply_of(outcome)),
    {
        proof {
            use_type_invariant(&self);
        }
        let mut events: Vec<AgentEvent> = Vec::new();
        match outcome {
            Err(complaint) => {
                events.push(AgentEvent::Error(complaint));
                proof {
                    assert(events_of(events@) =~= seq![Event::Error(complaint@)]);
                }
                (events, Next::Stop)
            },
            Ok(reply) => {
                let bare = trim(reply.content.as_str());
                if !bare.as_str().is_empty() {
                    events.push(AgentEvent::Assistant(reply.content.clone()));
                }
                let ghost before = events@;
                let ghost content = reply.content@;
                proof {
                    assert(events_of(events@) =~= said(reply@));
                }
                if reply.tool_calls.is_empty() {
                    events.push(AgentEvent::Final(reply.content));
                    proof {
                        assert(events_of(events@) =~= events_of(before).push(
                            Event::Final(content),
                        ));
                    }
                    (events, Next::Stop)
                } else {
                    let mut session = self.session;
                    let ghost messages = session.messages@;
                    session.messages.push(reply.message);
                    session.calls = reply.tool_calls;
                    session.done = 0;
                    proof {
                        assert(docs(session.messages@) =~= docs(messages).push(reply.message@));
                    }
                    let (mut rest, next) = session.proceed();
                    let ghost after = rest@;
                    events.append(&mut rest);
                    proof {
                        assert(events_of(events@) =~= events_of(before) + events_of(after));
                    }
                    (events, next)
                }
            },
        }
    }
}

impl Performing {
    /// The work that the tool has to do.
    pub fn operation(&self) -> (res: &Operation)
        ensures
            res@ == self.work(),
    {
        &self.operation
    }

    /// Goes on once the tool has done its work. The model is told what became of
    /// it; an outcome of other work is not taken, and the run still waits.
    pub fn finished(self, outcome: Outcome) -> (res: Result<(Vec<AgentEvent>, Next), Performing>)
        ensures
            match work_told(self.work(), outcome) {
                Some(told) => {
                    &&& res is Ok
                    &&& (events_of(res->Ok_0.0@), res->Ok_0.1@) == on_result(
                        self.standing(),
                        told.ok,
                        told.text,
                    )
                },
                None => res == Err::<(Vec<AgentEvent>, Next), Performing>(self),
            },
    {
        match tool_answer(&self.operation, outcome) {
            Some((ok, text)) => Ok(self.told(ok, text)),
            None => Err(self),
        }
    }

    /// Goes on with what the model is told of the call.
    fn told(self, ok: bool, result: String) -> (res: (Vec<AgentEvent>, Next))
        ensures
            (events_of(res.0@), res.1@) == on_result(self.standing(), ok, result@),
    {
        proof {
            use_type_invariant(&self);
        }
        let mut session = self.session;
        let name = session.calls[session.done].name.clone();
        session.answer(result.as_str());
        let mut events: Vec<AgentEvent> = Vec::new();
        events.push(AgentEvent::ToolResult { name, ok, result });
        let ghost before = events@;
        let (mut rest, next) = session.proceed();
        let ghost after = rest@;
        events.append(&mut rest);
        proof {
            assert(events_of(events@) =~= seq![
                Event::ToolResult { name: name@, ok, result: result@ },
            ] + events_of(after));
        }
        (events, next)
    }
}

} // verus!
