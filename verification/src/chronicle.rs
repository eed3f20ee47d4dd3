//! What happens in a run of the agent, as a whole: the replies and the work of
//! the tools that it took in, and the events and messages that come of them.

use vstd::prelude::*;

use crate::agent::Event;
use crate::json::{parsed, Doc};
use crate::session::{
    answered, begin, limit_event, on_reply, on_result, opening, proceed, refusal, said,
    tool_message, turn_event, Call, Coming, Reply, Standing, MAX_TURNS,
};
use crate::tools::{plan, work_told, Answer, Outcome, Plan, Work};

verus! {

/// What a run waits for: a reply of the model or the failure to get one, or what
/// became of the work of a tool.
pub ghost enum Input {
    Reply(Result<Reply, Seq<char>>),
    Done(Outcome),
}

/// A run so far: its events, what comes next, and how often the model was asked.
pub ghost struct Course {
    pub events: Seq<Event>,
    pub coming: Coming,
    pub asked: nat,
}

/// A run after something more has happened.
pub open spec fn extended(course: Course, step: (Seq<Event>, Coming)) -> Course {
    Course {
        events: course.events + step.0,
        coming: step.1,
        asked: if step.1 is Ask {
            course.asked + 1
        } else {
            course.asked
        },
    }
}

/// A run after one more input. What it does not wait for passes it by.
pub open spec fn taken(course: Course, input: Input) -> Course {
    match (course.coming, input) {
        (Coming::Ask(st), Input::Reply(outcome)) => extended(course, on_reply(st, outcome)),
        (Coming::Perform(st, work), Input::Done(outcome)) => match work_told(work, outcome) {
            Some(told) => extended(course, on_result(st, told.ok, told.text)),
            None => course,
        },
        _ => course,
    }
}

/// The run for a task, after all these inputs.
pub open spec fn course(task: Seq<char>, allowed: Seq<Seq<char>>, inputs: Seq<Input>) -> Course
    decreases inputs.len(),
{
    if inputs.len() == 0 {
        extended(
            Course { events: Seq::empty(), coming: Coming::Stop, asked: 0 },
            begin(task, allowed),
        )
    } else {
        taken(course(task, allowed, inputs.drop_last()), inputs.last())
    }
}

/// The answer of the tool `name` to these arguments, where `found` is what became
/// of its work, if there was any. There is none while the work is not done.
pub open spec fn executed(
    name: Seq<char>,
    args: Seq<char>,
    found: Option<Outcome>,
) -> Option<Answer> {
    match plan(name, parsed(args)) {
        Plan::Reply { ok, text } => Some(Answer { ok, text }),
        Plan::Perform(work) => match found {
            Some(outcome) => work_told(work, outcome),
            None => None,
        },
    }
}

/// The work that a call needs: none where it is refused, or answered at once.
pub open spec fn needed(allowed: Seq<Seq<char>>, call: Call) -> Option<Work> {
    if allowed.contains(call.name) {
        match plan(call.name, parsed(call.arguments)) {
            Plan::Reply { .. } => None,
            Plan::Perform(work) => Some(work),
        }
    } else {
        None
    }
}

/// The report of a call.
pub open spec fn call_event(call: Call) -> Event {
    Event::ToolCall { name: call.name, args: call.arguments }
}

/// The report of what became of a call: its refusal, where the tool is not
/// allowed, and else the answer of the tool.
pub open spec fn close_event(
    allowed: Seq<Seq<char>>,
    call: Call,
    found: Option<Outcome>,
) -> Event {
    if allowed.contains(call.name) {
        let told = executed(call.name, call.arguments, found)->0;
        Event::ToolResult { name: call.name, ok: told.ok, result: told.text }
    } else {
        Event::Denied { name: call.name }
    }
}

/// What the model is told of a call whose end is so reported: the result, or the
/// refusal.
pub open spec fn reported_text(event: Event) -> Seq<char> {
    match event {
        Event::ToolResult { result, .. } => result,
        Event::Denied { name } => refusal(name),
        _ => Seq::empty(),
    }
}

/// A reply of the model, and what was found for its calls so far: the work of
/// the first `found.len()` of them is done, where there was any.
pub ghost struct Turn {
    pub reply: Reply,
    pub found: Seq<Option<Outcome>>,
}

/// What was found settles the calls that it is for.
pub open spec fn proper(allowed: Seq<Seq<char>>, turn: Turn) -> bool {
    &&& turn.found.len() <= turn.reply.calls.len()
    &&& forall|i: int|
        0 <= i < turn.found.len() ==> {
            let call = #[trigger] turn.reply.calls[i];
            allowed.contains(call.name) ==> executed(
                call.name,
                call.arguments,
                turn.found[i],
            ) is Some
        }
}

/// The reply asks for calls, and all of them are settled.
pub open spec fn complete(turn: Turn) -> bool {
    turn.reply.calls.len() > 0 && turn.found.len() == turn.reply.calls.len()
}

/// The events of the calls that are settled: each call and what became of it.
pub open spec fn call_events(
    allowed: Seq<Seq<char>>,
    calls: Seq<Call>,
    found: Seq<Option<Outcome>>,
) -> Seq<Event>
    decreases found.len(),
{
    if found.len() == 0 {
        Seq::empty()
    } else {
        let call = calls[found.len() - 1];
        call_events(allowed, calls, found.drop_last()).push(call_event(call)).push(
            close_event(allowed, call, found.last()),
        )
    }
}

/// The messages that tell the model what became of the calls that are settled:
/// one for each, with its id and the text of its report.
pub open spec fn call_messages(
    allowed: Seq<Seq<char>>,
    calls: Seq<Call>,
    found: Seq<Option<Outcome>>,
) -> Seq<Doc> {
    Seq::new(
        found.len(),
        |i: int|
            tool_message(calls[i].id, reported_text(close_event(allowed, calls[i], found[i]))),
    )
}

/// The events of these turns: for each its number, the text of its reply, and its
/// calls.
pub open spec fn story(allowed: Seq<Seq<char>>, turns: Seq<Turn>) -> Seq<Event>
    decreases turns.len(),
{
    if turns.len() == 0 {
        Seq::empty()
    } else {
        let turn = turns.last();
        story(allowed, turns.drop_last()).push(turn_event(turns.len())) + said(turn.reply)
            + call_events(allowed, turn.reply.calls, turn.found)
    }
}

/// The conversation with the model after these turns: for each the reply as it
/// came, and what became of its calls.
pub open spec fn talk(task: Seq<char>, allowed: Seq<Seq<char>>, turns: Seq<Turn>) -> Seq<Doc>
    decreases turns.len(),
{
    if turns.len() == 0 {
        opening(task, allowed)
    } else {
        let turn = turns.last();
        talk(task, allowed, turns.drop_last()).push(turn.reply.message) + call_messages(
            allowed,
            turn.reply.calls,
            turn.found,
        )
    }
}

/// What was found once the calls that need no work are settled, up to the first
/// one that needs some.
pub open spec fn at_once(
    allowed: Seq<Seq<char>>,
    calls: Seq<Call>,
    found: Seq<Option<Outcome>>,
) -> Seq<Option<Outcome>>
    decreases calls.len() - found.len(),
{
    if found.len() < calls.len() && needed(allowed, calls[found.len() as int]) is None {
        at_once(allowed, calls, found.push(None))
    } else {
        found
    }
}

/// These turns, with something else found in the last of them.
pub open spec fn resumed(turns: Seq<Turn>, found: Seq<Option<Outcome>>) -> Seq<Turn> {
    turns.drop_last().push(Turn { reply: turns.last().reply, found })
}

/// What a run took in: its turns, and the failure to get another reply.
pub ghost struct Record {
    pub turns: Seq<Turn>,
    pub failure: Option<Seq<char>>,
}

/// The record of a run after one more input, where `coming` is what it waits for.
pub open spec fn recorded(
    record: Record,
    coming: Coming,
    allowed: Seq<Seq<char>>,
    input: Input,
) -> Record {
    match (coming, input) {
        (Coming::Ask(_), Input::Reply(Err(complaint))) => Record {
            failure: Some(complaint),
            ..record
        },
        (Coming::Ask(_), Input::Reply(Ok(reply))) => Record {
            turns: record.turns.push(
                Turn { reply, found: at_once(allowed, reply.calls, Seq::empty()) },
            ),
            ..record
        },
        (Coming::Perform(_, work), Input::Done(outcome)) => match work_told(work, outcome) {
            Some(_) => {
                let turn = record.turns.last();
                let found = turn.found.push(Some(outcome));
                Record {
                    turns: resumed(record.turns, at_once(allowed, turn.reply.calls, found)),
                    ..record
                }
            },
            None => record,
        },
        _ => record,
    }
}

/// The record of the run for a task, after all these inputs.
pub open spec fn record(task: Seq<char>, allowed: Seq<Seq<char>>, inputs: Seq<Input>) -> Record
    decreases inputs.len(),
{
    if inputs.len() == 0 {
        Record { turns: Seq::empty(), failure: None }
    } else {
        recorded(
            record(task, allowed, inputs.drop_last()),
            course(task, allowed, inputs.drop_last()).coming,
            allowed,
            inputs.last(),
        )
    }
}

/// Where a run stands after these turns, when the model has been asked `asked`
/// times.
pub open spec fn standing_after(
    task: Seq<char>,
    allowed: Seq<Seq<char>>,
    turns: Seq<Turn>,
    asked: nat,
) -> Standing {
    Standing {
        allowed,
        messages: talk(task, allowed, turns),
        turn: asked,
        calls: if turns.len() == 0 {
            Seq::empty()
        } else {
            turns.last().reply.calls
        },
        done: if turns.len() == 0 {
            0
        } else {
            turns.last().found.len()
        },
    }
}

/// All turns are proper, and all but perhaps the last are complete.
pub open spec fn orderly(allowed: Seq<Seq<char>>, turns: Seq<Turn>) -> bool {
    &&& turns.len() <= MAX_TURNS
    &&& forall|i: int| 0 <= i < turns.len() ==> proper(allowed, #[trigger] turns[i])
    &&& forall|i: int| 0 <= i < turns.len() - 1 ==> complete(#[trigger] turns[i])
}

/// A run is what its record makes of it.
pub open spec fn chronicled(
    run: Course,
    record: Record,
    task: Seq<char>,
    allowed: Seq<Seq<char>>,
) -> bool {
    let turns = record.turns;
    let n = turns.len();
    &&& orderly(allowed, turns)
    &&& match run.coming {
        // Every call of every reply is settled, and the next question is out.
        Coming::Ask(st) => {
            &&& record.failure is None
            &&& n > 0 ==> complete(turns.last())
            &&& n < MAX_TURNS
            &&& run.asked == n + 1
            &&& run.events == story(allowed, turns).push(turn_event(n + 1))
            &&& st == standing_after(task, allowed, turns, n + 1)
        },
        // A call of the last reply needs work, and it has been reported.
        Coming::Perform(st, work) => {
            let turn = turns.last();
            let call = turn.reply.calls[turn.found.len() as int];
            &&& record.failure is None
            &&& n > 0
            &&& turn.found.len() < turn.reply.calls.len()
            &&& needed(allowed, call) == Some(work)
            &&& run.asked == n
            &&& run.events == story(allowed, turns).push(call_event(call))
            &&& st == standing_after(task, allowed, turns, n)
        },
        Coming::Stop => match record.failure {
            // The next question could not be asked.
            Some(complaint) => {
                &&& n > 0 ==> complete(turns.last())
                &&& n < MAX_TURNS
                &&& run.asked == n + 1
                &&& run.events == story(allowed, turns).push(turn_event(n + 1)).push(
                    Event::Error(complaint),
                )
            },
            // The last reply is the final answer, or there are no more turns.
            None => {
                &&& n > 0
                &&& run.asked == n
                &&& if turns.last().reply.calls.len() == 0 {
                    run.events == story(allowed, turns).push(
                        Event::Final(turns.last().reply.content),
                    )
                } else {
                    &&& n == MAX_TURNS
                    &&& complete(turns.last())
                    &&& run.events == story(allowed, turns).push(limit_event())
                }
            },
        },
    }
}

/// One more call of the last turn is settled.
proof fn lemma_settled(
    task: Seq<char>,
    allowed: Seq<Seq<char>>,
    turns: Seq<Turn>,
    found: Option<Outcome>,
)
    requires
        orderly(allowed, turns),
        turns.len() > 0,
        turns.last().found.len() < turns.last().reply.calls.len(),
        ({
            let call = turns.last().reply.calls[turns.last().found.len() as int];
            allowed.contains(call.name) ==> executed(call.name, call.arguments, found) is Some
        }),
    ensures
        ({
            let turn = turns.last();
            let call = turn.reply.calls[turn.found.len() as int];
            let after = resumed(turns, turn.found.push(found));
            let close = close_event(allowed, call, found);
            &&& orderly(allowed, after)
            &&& story(allowed, after) == story(allowed, turns).push(call_event(call)).push(close)
            &&& talk(task, allowed, after) == talk(task, allowed, turns).push(
                tool_message(call.id, reported_text(close)),
            )
        }),
{
    let turn = turns.last();
    let more = turn.found.push(found);
    let after = resumed(turns, more);
    let calls = turn.reply.calls;
    assert(more.drop_last() =~= turn.found);
    assert(after.drop_last() =~= turns.drop_last());
    assert(after.last() == Turn { reply: turn.reply, found: more });
    assert(proper(allowed, turns[turns.len() - 1]));
    assert(proper(allowed, after.last())) by {
        assert forall|i: int| 0 <= i < more.len() implies {
            let call = #[trigger] calls[i];
            allowed.contains(call.name) ==> executed(call.name, call.arguments, more[i]) is Some
        } by {
            if i < turn.found.len() {
                assert(more[i] == turn.found[i]);
            }
        }
    }
    assert forall|i: int| 0 <= i < after.len() implies proper(allowed, #[trigger] after[i]) by {
        if i < turns.len() - 1 {
            assert(after[i] == turns[i]);
        }
    }
    assert forall|i: int| 0 <= i < after.len() - 1 implies complete(#[trigger] after[i]) by {
        assert(after[i] == turns[i]);
    }
    let call = calls[turn.found.len() as int];
    let close = close_event(allowed, call, found);
    assert(story(allowed, after) =~= story(allowed, turns).push(call_event(call)).push(close));
    assert(call_messages(allowed, calls, more) =~= call_messages(allowed, calls, turn.found).push(
        tool_message(call.id, reported_text(close)),
    ));
    assert(talk(task, allowed, after) =~= talk(task, allowed, turns).push(
        tool_message(call.id, reported_text(close)),
    ));
}

/// What a run decides by itself is what its record makes of it.
proof fn lemma_proceed(task: Seq<char>, allowed: Seq<Seq<char>>, turns: Seq<Turn>)
    requires
        orderly(allowed, turns),
        turns.len() > 0 ==> turns.last().reply.calls.len() > 0,
    ensures
        ({
            let step = proceed(standing_after(task, allowed, turns, turns.len()));
            let after = if turns.len() == 0 {
                turns
            } else {
                resumed(
                    turns,
                    at_once(allowed, turns.last().reply.calls, turns.last().found),
                )
            };
            chronicled(
                extended(
                    Course {
                        events: story(allowed, turns),
                        coming: Coming::Stop,
                        asked: turns.len(),
                    },
                    step,
                ),
                Record { turns: after, failure: None },
                task,
                allowed,
            )
        }),
    decreases
            if turns.len() == 0 {
                0
            } else {
                turns.last().reply.calls.len() - turns.last().found.len()
            },
{
    let st = standing_after(task, allowed, turns, turns.len());
    let step = proceed(st);
    let events = story(allowed, turns);
    if turns.len() == 0 {
        assert(events + step.0 =~= events.push(turn_event(1)));
    } else {
        let turn = turns.last();
        let calls = turn.reply.calls;
        assert(proper(allowed, turns[turns.len() - 1]));
        if turn.found.len() == calls.len() {
            assert(resumed(turns, turn.found) =~= turns);
            assert(events + step.0 =~= events.push(step.0[0]));
        } else {
            let call = calls[turn.found.len() as int];
            if needed(allowed, call) is Some {
                assert(resumed(turns, turn.found) =~= turns);
                assert(events + step.0 =~= events.push(call_event(call)));
            } else {
                let after = resumed(turns, turn.found.push(None));
                let close = close_event(allowed, call, None);
                lemma_settled(task, allowed, turns, None);
                lemma_proceed(task, allowed, after);
                let then = standing_after(task, allowed, after, after.len());
                assert(answered(st, reported_text(close)) == then);
                assert(step.0 == seq![call_event(call), close] + proceed(then).0);
                assert(step.1 == proceed(then).1);
                assert(events + step.0 =~= story(allowed, after) + proceed(then).0);
                let found = at_once(allowed, calls, turn.found);
                assert(found == at_once(allowed, calls, turn.found.push(None)));
                assert(resumed(after, found) =~= resumed(turns, found));
            }
        }
    }
}

/// A run stays what its record makes of it.
proof fn lemma_taken(
    run: Course,
    before: Record,
    input: Input,
    task: Seq<char>,
    allowed: Seq<Seq<char>>,
)
    requires
        chronicled(run, before, task, allowed),
    ensures
        chronicled(
            taken(run, input),
            recorded(before, run.coming, allowed, input),
            task,
            allowed,
        ),
{
    let turns = before.turns;
    let n = turns.len();
    match (run.coming, input) {
        (Coming::Ask(st), Input::Reply(Err(complaint))) => {
            let event = Event::Error(complaint);
            assert(run.events + seq![event] =~= run.events.push(event));
        },
        (Coming::Ask(st), Input::Reply(Ok(reply))) => {
            let nothing = Seq::<Option<Outcome>>::empty();
            let turn = Turn { reply, found: nothing };
            let after = turns.push(turn);
            assert(after.drop_last() =~= turns);
            assert forall|i: int| 0 <= i < after.len() implies proper(
                allowed,
                #[trigger] after[i],
            ) by {
                if i < n {
                    assert(after[i] == turns[i]);
                }
            }
            assert forall|i: int| 0 <= i < after.len() - 1 implies complete(
                #[trigger] after[i],
            ) by {
                assert(after[i] == turns[i]);
            }
            assert(orderly(allowed, after));
            assert(story(allowed, after) =~= run.events + said(reply));
            if reply.calls.len() == 0 {
                let event = Event::Final(reply.content);
                assert(run.events + said(reply).push(event) =~= story(allowed, after).push(event));
            } else {
                let then = standing_after(task, allowed, after, after.len());
                assert(talk(task, allowed, after) =~= st.messages.push(reply.message));
                assert(then == Standing {
                    messages: st.messages.push(reply.message),
                    calls: reply.calls,
                    done: 0,
                    ..st
                });
                lemma_proceed(task, allowed, after);
                let (events, coming) = proceed(then);
                assert(run.events + (said(reply) + events) =~= story(allowed, after) + events);
                let found = at_once(allowed, reply.calls, nothing);
                assert(resumed(after, found) =~= turns.push(Turn { reply, found }));
            }
        },
        (Coming::Perform(st, work), Input::Done(outcome)) => {
            if let Some(told) = work_told(work, outcome) {
                let turn = turns.last();
                let call = turn.reply.calls[turn.found.len() as int];
                let more = turn.found.push(Some(outcome));
                let after = resumed(turns, more);
                let close = close_event(allowed, call, Some(outcome));
                assert(executed(call.name, call.arguments, Some(outcome)) == Some(told));
                lemma_settled(task, allowed, turns, Some(outcome));
                let then = standing_after(task, allowed, after, n);
                assert(answered(st, told.text) == then);
                lemma_proceed(task, allowed, after);
                let (events, coming) = proceed(then);
                assert(run.events + (seq![close] + events) =~= story(allowed, after) + events);
                let found = at_once(allowed, turn.reply.calls, more);
                assert(resumed(after, found) =~= resumed(turns, found));
            }
        },
        _ => {},
    }
}

/// Every run is what its record makes of it: its events are the story of its
/// turns and how it goes on from there, and what the model is told is their talk.
pub proof fn lemma_run_is_its_record(
    task: Seq<char>,
    allowed: Seq<Seq<char>>,
    inputs: Seq<Input>,
)
    ensures
        chronicled(
            course(task, allowed, inputs),
            record(task, allowed, inputs),
            task,
            allowed,
        ),
    decreases inputs.len(),
{
    if inputs.len() == 0 {
        let none = Seq::<Turn>::empty();
        lemma_proceed(task, allowed, none);
        assert(story(allowed, none) =~= Seq::empty());
    } else {
        lemma_run_is_its_record(task, allowed, inputs.drop_last());
        lemma_taken(
            course(task, allowed, inputs.drop_last()),
            record(task, allowed, inputs.drop_last()),
            inputs.last(),
            task,
            allowed,
        );
    }
}

/// A call that is answered at once has that answer; one that needs work has none
/// until the work is done, and then the one for its outcome.
pub proof fn lemma_executed(
    name: Seq<char>,
    args: Seq<char>,
    found: Option<Outcome>,
    outcome: Outcome,
)
    ensures
        plan(name, parsed(args)) matches Plan::Reply { ok, text } ==> executed(name, args, found)
            == Some(Answer { ok, text }),
        plan(name, parsed(args)) matches Plan::Perform(work) ==> {
            &&& executed(name, args, None) is None
            &&& executed(name, args, Some(outcome)) == work_told(work, outcome)
        },
{
}

} // verus!
