//! What holds of every run of the agent, whatever the model and the tools do.

use vstd::prelude::*;

use crate::agent::{AgentEvent, Event};
use crate::chronicle::{
    call_event, call_events, call_messages, close_event, complete, course, executed, extended,
    lemma_run_is_its_record, proper, record, reported_text, story, taken, talk, Course, Input,
    Turn,
};
use crate::json::{lemma_distinct_fields, member, object_of, parsed, text_member, Doc};
use crate::session::{
    answered, chat_message, events_of, instructions, limit_event, on_result, opening, proceed,
    refusal, reply_of, said, tool_message, turn_event, AgentTurn, Asking, Call, Coming, Next,
    Performing, Reply, Standing, MAX_TURNS,
};
use crate::text::{blank, decimal, joined, lemma_decimal, lemma_trimmed_blank, number};
use crate::tools::{plan, work_told, Outcome, Plan};

verus! {

/// Whether the event is the end of a run.
pub open spec fn ending(event: Event) -> bool {
    event is Final || event is Error
}

/// Whether the event says what became of the call of the tool `name` with these
/// arguments: it is denied where the tool is not allowed, and else has the answer
/// of the tool as its result.
pub open spec fn closing(
    allowed: Seq<Seq<char>>,
    event: Event,
    name: Seq<char>,
    args: Seq<char>,
) -> bool {
    if allowed.contains(name) {
        &&& event is ToolResult
        &&& event->ToolResult_name == name
        &&& exists|found: Option<Outcome>|
            {
                let told = #[trigger] executed(name, args, found);
                &&& told is Some
                &&& event->ok == told->0.ok
                &&& event->result == told->0.text
            }
    } else {
        event == Event::Denied { name }
    }
}

/// A run is told properly: right after each call it says what became of it,
/// unless it is the call that a tool is `busy` with; it does so only after a
/// call; and the run is over exactly when its last event says so.
#[verifier::opaque]
spec fn told(
    allowed: Seq<Seq<char>>,
    events: Seq<Event>,
    busy: Option<Event>,
    over: bool,
) -> bool {
    &&& forall|i: int|
        0 <= i < events.len() ==> match #[trigger] events[i] {
            Event::ToolCall { name, args } => if i + 1 < events.len() {
                closing(allowed, events[i + 1], name, args)
            } else {
                busy == Some(events[i])
            },
            Event::ToolResult { .. } => i > 0 && events[i - 1] is ToolCall,
            Event::Denied { .. } => i > 0 && events[i - 1] is ToolCall,
            Event::Final(_) => over && i == events.len() - 1,
            Event::Error(_) => over && i == events.len() - 1,
            _ => true,
        }
    &&& over ==> events.len() > 0 && ending(events.last())
    &&& busy is Some ==> {
        &&& !over
        &&& events.len() > 0
        &&& events.last() is ToolCall
        &&& events.last() == busy->0
    }
}

/// The call that a tool is busy with.
pub open spec fn busy_with(coming: Coming) -> Option<Event> {
    match coming {
        Coming::Perform(st, _) => Some(call_event(st.calls[st.done as int])),
        _ => None,
    }
}

proof fn lemma_tell_call(allowed: Seq<Seq<char>>, events: Seq<Event>, call: Call)
    requires
        told(allowed, events, None, false),
    ensures
        told(allowed, events.push(call_event(call)), Some(call_event(call)), false),
{
    reveal(told);
}

proof fn lemma_tell_close(
    allowed: Seq<Seq<char>>,
    events: Seq<Event>,
    call: Call,
    found: Option<Outcome>,
)
    requires
        told(allowed, events, Some(call_event(call)), false),
        allowed.contains(call.name) ==> executed(call.name, call.arguments, found) is Some,
    ensures
        told(allowed, events.push(close_event(allowed, call, found)), None, false),
{
    reveal(told);
    let event = close_event(allowed, call, found);
    let more = events.push(event);
    assert(more[more.len() - 2] == events.last());
    assert(closing(allowed, event, call.name, call.arguments));
}

proof fn lemma_tell_plain(allowed: Seq<Seq<char>>, events: Seq<Event>, event: Event)
    requires
        told(allowed, events, None, false),
        event is Status || event is Assistant,
    ensures
        told(allowed, events.push(event), None, false),
{
    reveal(told);
}

proof fn lemma_tell_end(allowed: Seq<Seq<char>>, events: Seq<Event>, event: Event)
    requires
        told(allowed, events, None, false),
        ending(event),
    ensures
        told(allowed, events.push(event), None, true),
{
    reveal(told);
}

/// The calls of a turn are told properly.
proof fn lemma_tell_calls(
    allowed: Seq<Seq<char>>,
    before: Seq<Event>,
    turn: Turn,
    found: Seq<Option<Outcome>>,
)
    requires
        told(allowed, before, None, false),
        proper(allowed, turn),
        found.len() <= turn.found.len(),
        found == turn.found.take(found.len() as int),
    ensures
        told(allowed, before + call_events(allowed, turn.reply.calls, found), None, false),
    decreases found.len(),
{
    let calls = turn.reply.calls;
    if found.len() == 0 {
        assert(before + call_events(allowed, calls, found) =~= before);
    } else {
        let fewer = found.drop_last();
        assert(fewer =~= turn.found.take(fewer.len() as int));
        lemma_tell_calls(allowed, before, turn, fewer);
        let so_far = before + call_events(allowed, calls, fewer);
        let call = calls[found.len() - 1];
        assert(found.last() == turn.found[found.len() - 1]);
        lemma_tell_call(allowed, so_far, call);
        lemma_tell_close(allowed, so_far.push(call_event(call)), call, found.last());
        assert(before + call_events(allowed, calls, found) =~= so_far.push(call_event(call)).push(
            close_event(allowed, call, found.last()),
        ));
    }
}

/// The story of turns is told properly.
proof fn lemma_tell_story(allowed: Seq<Seq<char>>, turns: Seq<Turn>)
    requires
        forall|i: int| 0 <= i < turns.len() ==> proper(allowed, #[trigger] turns[i]),
    ensures
        told(allowed, story(allowed, turns), None, false),
    decreases turns.len(),
{
    if turns.len() == 0 {
        reveal(told);
    } else {
        let turn = turns.last();
        let earlier = turns.drop_last();
        assert forall|i: int| 0 <= i < earlier.len() implies proper(
            allowed,
            #[trigger] earlier[i],
        ) by {
            assert(earlier[i] == turns[i]);
        }
        lemma_tell_story(allowed, earlier);
        let begun = story(allowed, earlier).push(turn_event(turns.len()));
        lemma_tell_plain(allowed, story(allowed, earlier), turn_event(turns.len()));
        let so_far = begun + said(turn.reply);
        if said(turn.reply).len() > 0 {
            lemma_tell_plain(allowed, begun, said(turn.reply)[0]);
            assert(so_far =~= begun.push(said(turn.reply)[0]));
        } else {
            assert(so_far =~= begun);
        }
        assert(proper(allowed, turns[turns.len() - 1]));
        assert(turn.found =~= turn.found.take(turn.found.len() as int));
        lemma_tell_calls(allowed, so_far, turn, turn.found);
    }
}

/// Every run is told properly.
proof fn lemma_told(task: Seq<char>, allowed: Seq<Seq<char>>, inputs: Seq<Input>)
    ensures
        ({
            let run = course(task, allowed, inputs);
            told(allowed, run.events, busy_with(run.coming), run.coming is Stop)
        }),
{
    let run = course(task, allowed, inputs);
    let kept = record(task, allowed, inputs);
    let turns = kept.turns;
    let events = story(allowed, turns);
    lemma_run_is_its_record(task, allowed, inputs);
    lemma_tell_story(allowed, turns);
    match run.coming {
        Coming::Ask(_) => lemma_tell_plain(allowed, events, turn_event(turns.len() + 1)),
        Coming::Perform(st, _) => lemma_tell_call(allowed, events, st.calls[st.done as int]),
        Coming::Stop => match kept.failure {
            Some(complaint) => {
                let asked = events.push(turn_event(turns.len() + 1));
                lemma_tell_plain(allowed, events, turn_event(turns.len() + 1));
                lemma_tell_end(allowed, asked, Event::Error(complaint));
            },
            None => lemma_tell_end(allowed, events, run.events.last()),
        },
    }
}

/// The agent does not go on forever: it asks the model at most `MAX_TURNS` times.
pub proof fn lemma_turns_bounded(task: Seq<char>, allowed: Seq<Seq<char>>, inputs: Seq<Input>)
    ensures
        course(task, allowed, inputs).asked <= MAX_TURNS,
{
    lemma_run_is_its_record(task, allowed, inputs);
}

/// Permissions hold: a tool is put to work only for a call of an allowed tool,
/// and then does what that call asks for; only calls of allowed tools have
/// results, and only calls of other tools are denied.
pub proof fn lemma_permissions(task: Seq<char>, allowed: Seq<Seq<char>>, inputs: Seq<Input>)
    ensures
        course(task, allowed, inputs).coming matches Coming::Perform(st, work) ==> {
            let call = st.calls[st.done as int];
            &&& st.done < st.calls.len()
            &&& allowed.contains(call.name)
            &&& plan(call.name, parsed(call.arguments)) == Plan::Perform(work)
        },
        forall|i: int|
            0 <= i < course(task, allowed, inputs).events.len() ==> match #[trigger] course(
                task,
                allowed,
                inputs,
            ).events[i] {
                Event::ToolResult { name, .. } => allowed.contains(name),
                Event::Denied { name } => !allowed.contains(name),
                _ => true,
            },
{
    lemma_run_is_its_record(task, allowed, inputs);
    lemma_told(task, allowed, inputs);
    reveal(told);
    let events = course(task, allowed, inputs).events;
    assert forall|i: int| 0 <= i < events.len() implies match #[trigger] events[i] {
        Event::ToolResult { name, .. } => allowed.contains(name),
        Event::Denied { name } => !allowed.contains(name),
        _ => true,
    } by {
        if events[i] is ToolResult || events[i] is Denied {
            assert(events[i - 1] is ToolCall);
        }
    }
}

/// Nothing is hidden: each call is reported, and the next event after it says
/// what became of it, unless the tool is still at work: it is denied where the
/// tool is not allowed, and else the result is the answer of that tool to these
/// arguments. No outcome is reported without its call.
pub proof fn lemma_everything_reported(
    task: Seq<char>,
    allowed: Seq<Seq<char>>,
    inputs: Seq<Input>,
)
    ensures
        ({
            let run = course(task, allowed, inputs);
            forall|i: int|
                0 <= i < run.events.len() && (#[trigger] run.events[i]) is ToolCall ==> if i + 1
                    < run.events.len() {
                    closing(
                        allowed,
                        run.events[i + 1],
                        run.events[i]->ToolCall_name,
                        run.events[i]->args,
                    )
                } else {
                    busy_with(run.coming) == Some(run.events[i])
                }
        }),
        ({
            let run = course(task, allowed, inputs);
            forall|i: int|
                0 <= i < run.events.len() && ((#[trigger] run.events[i]) is ToolResult
                    || run.events[i] is Denied) ==> i > 0 && run.events[i - 1] is ToolCall
        }),
{
    lemma_told(task, allowed, inputs);
    reveal(told);
}

/// The result that a run reports of a call is what its tool found: once the work
/// is done, the next event after the call has the answer for that outcome.
pub proof fn lemma_result_is_what_was_found(
    task: Seq<char>,
    allowed: Seq<Seq<char>>,
    inputs: Seq<Input>,
    outcome: Outcome,
)
    ensures
        course(task, allowed, inputs).coming matches Coming::Perform(st, work) ==> {
            let call = st.calls[st.done as int];
            let before = course(task, allowed, inputs);
            let after = course(task, allowed, inputs.push(Input::Done(outcome)));
            &&& before.events.len() > 0
            &&& before.events.last() == call_event(call)
            &&& match work_told(work, outcome) {
                Some(told) => {
                    &&& executed(call.name, call.arguments, Some(outcome)) == Some(told)
                    &&& after.events.len() > before.events.len()
                    &&& after.events.take(before.events.len() as int) == before.events
                    &&& after.events[before.events.len() as int] == Event::ToolResult {
                        name: call.name,
                        ok: told.ok,
                        result: told.text,
                    }
                },
                None => after == before,
            }
        },
{
    lemma_run_is_its_record(task, allowed, inputs);
    assert(inputs.push(Input::Done(outcome)).drop_last() =~= inputs);
    let before = course(task, allowed, inputs);
    let after = course(task, allowed, inputs.push(Input::Done(outcome)));
    if before.coming is Perform && work_told(before.coming->Perform_1, outcome) is Some {
        let told = work_told(before.coming->Perform_1, outcome)->0;
        let step = on_result(before.coming->Perform_0, told.ok, told.text);
        assert(after == extended(before, step));
        assert(after.events.take(before.events.len() as int) =~= before.events);
    }
}

/// A run ends with a final answer or an error, and says so once: no other event
/// is one, and after it nothing more happens.
pub proof fn lemma_end_of_run(
    task: Seq<char>,
    allowed: Seq<Seq<char>>,
    inputs: Seq<Input>,
    more: Seq<Input>,
)
    ensures
        ({
            let run = course(task, allowed, inputs);
            run.coming is Stop <==> run.events.len() > 0 && ending(run.events.last())
        }),
        ({
            let run = course(task, allowed, inputs);
            forall|i: int| 0 <= i < run.events.len() - 1 ==> !ending(#[trigger] run.events[i])
        }),
        course(task, allowed, inputs).coming is Stop ==> course(task, allowed, inputs + more)
            == course(task, allowed, inputs),
    decreases more.len(),
{
    lemma_told(task, allowed, inputs);
    reveal(told);
    let run = course(task, allowed, inputs);
    if run.events.len() > 0 {
        assert(run.events[run.events.len() - 1] == run.events.last());
    }
    if more.len() == 0 {
        assert(inputs + more =~= inputs);
    } else {
        lemma_end_of_run(task, allowed, inputs, more.drop_last());
        assert((inputs + more).drop_last() =~= inputs + more.drop_last());
    }
}

/// A run ends with a final answer exactly when the last reply of the model asks
/// for no call, and then the answer is the text of that reply. Else it ends with
/// the complaint where the model could not be asked, or with the notice that
/// there are no more turns.
pub proof fn lemma_final_answer(task: Seq<char>, allowed: Seq<Seq<char>>, inputs: Seq<Input>)
    ensures
        ({
            let run = course(task, allowed, inputs);
            let turns = record(task, allowed, inputs).turns;
            &&& run.events.last() is Final <==> turns.len() > 0
                && turns.last().reply.calls.len() == 0
            &&& run.events.last() is Final ==> run.coming is Stop && run.events.last()
                == Event::Final(turns.last().reply.content)
        }),
        ({
            let run = course(task, allowed, inputs);
            let kept = record(task, allowed, inputs);
            run.coming is Stop && !(run.events.last() is Final) ==> match kept.failure {
                Some(complaint) => run.events.last() == Event::Error(complaint),
                None => run.events.last() == limit_event() && kept.turns.len() == MAX_TURNS,
            }
        }),
{
    lemma_run_is_its_record(task, allowed, inputs);
}

/// Which events number the questions to the model.
pub open spec fn numbering() -> spec_fn(Event) -> bool {
    |event: Event| event is Status
}

/// Which events report a call.
pub open spec fn reporting() -> spec_fn(Event) -> bool {
    |event: Event| event is ToolCall
}

/// The reports of these calls.
pub open spec fn call_reports(calls: Seq<Call>) -> Seq<Event> {
    Seq::new(calls.len(), |i: int| call_event(calls[i]))
}

/// The calls that these replies ask for, in order.
pub open spec fn requested(turns: Seq<Turn>) -> Seq<Call>
    decreases turns.len(),
{
    if turns.len() == 0 {
        Seq::empty()
    } else {
        requested(turns.drop_last()) + turns.last().reply.calls
    }
}

/// The calls of these turns that are settled, in order.
spec fn settled(turns: Seq<Turn>) -> Seq<Call>
    decreases turns.len(),
{
    if turns.len() == 0 {
        Seq::empty()
    } else {
        settled(turns.drop_last()) + turns.last().reply.calls.take(
            turns.last().found.len() as int,
        )
    }
}

proof fn lemma_filter_push(events: Seq<Event>, event: Event, p: spec_fn(Event) -> bool)
    ensures
        events.push(event).filter(p) == if p(event) {
            events.filter(p).push(event)
        } else {
            events.filter(p)
        },
{
    reveal(Seq::filter);
    assert(events.push(event).drop_last() =~= events);
}

proof fn lemma_filter_nothing(p: spec_fn(Event) -> bool)
    ensures
        Seq::<Event>::empty().filter(p) == Seq::<Event>::empty(),
{
    reveal(Seq::filter);
}

proof fn lemma_filter_calls(
    allowed: Seq<Seq<char>>,
    calls: Seq<Call>,
    found: Seq<Option<Outcome>>,
)
    requires
        found.len() <= calls.len(),
    ensures
        call_events(allowed, calls, found).filter(numbering()) == Seq::<Event>::empty(),
        call_events(allowed, calls, found).filter(reporting()) == call_reports(
            calls.take(found.len() as int),
        ),
    decreases found.len(),
{
    if found.len() == 0 {
        lemma_filter_nothing(numbering());
        lemma_filter_nothing(reporting());
    } else {
        let call = calls[found.len() - 1];
        let fewer = found.drop_last();
        let before = call_events(allowed, calls, fewer);
        let close = close_event(allowed, call, found.last());
        lemma_filter_calls(allowed, calls, fewer);
        lemma_filter_push(before, call_event(call), numbering());
        lemma_filter_push(before, call_event(call), reporting());
        lemma_filter_push(before.push(call_event(call)), close, numbering());
        lemma_filter_push(before.push(call_event(call)), close, reporting());
    }
}

/// What of a turn is numbering or reporting, after what is of the turns before.
proof fn lemma_filter_turn(
    allowed: Seq<Seq<char>>,
    turns: Seq<Turn>,
    p: spec_fn(Event) -> bool,
)
    requires
        turns.len() > 0,
        p == numbering() || p == reporting(),
    ensures
        story(allowed, turns).filter(p) == story(allowed, turns.drop_last()).push(
            turn_event(turns.len()),
        ).filter(p) + call_events(
            allowed,
            turns.last().reply.calls,
            turns.last().found,
        ).filter(p),
{
    let turn = turns.last();
    let begun = story(allowed, turns.drop_last()).push(turn_event(turns.len()));
    let so_far = begun + said(turn.reply);
    if said(turn.reply).len() > 0 {
        lemma_filter_push(begun, said(turn.reply)[0], p);
        assert(so_far =~= begun.push(said(turn.reply)[0]));
    } else {
        assert(so_far =~= begun);
    }
    Seq::filter_distributes_over_add(
        so_far,
        call_events(allowed, turn.reply.calls, turn.found),
        p,
    );
}

proof fn lemma_filter_story(allowed: Seq<Seq<char>>, turns: Seq<Turn>)
    requires
        forall|i: int|
            0 <= i < turns.len() ==> (#[trigger] turns[i]).found.len()
                <= turns[i].reply.calls.len(),
    ensures
        story(allowed, turns).filter(numbering()) == Seq::new(
            turns.len(),
            |i: int| turn_event((i + 1) as nat),
        ),
        story(allowed, turns).filter(reporting()) == call_reports(settled(turns)),
    decreases turns.len(),
{
    if turns.len() == 0 {
        lemma_filter_nothing(numbering());
        lemma_filter_nothing(reporting());
        assert(call_reports(settled(turns)) =~= Seq::empty());
    } else {
        let turn = turns.last();
        let earlier = turns.drop_last();
        let event = turn_event(turns.len());
        assert forall|i: int| 0 <= i < earlier.len() implies (#[trigger] earlier[i]).found.len()
            <= earlier[i].reply.calls.len() by {
            assert(earlier[i] == turns[i]);
        }
        lemma_filter_story(allowed, earlier);
        assert(turns[turns.len() - 1] == turn);
        lemma_filter_calls(allowed, turn.reply.calls, turn.found);
        lemma_filter_turn(allowed, turns, numbering());
        lemma_filter_turn(allowed, turns, reporting());
        lemma_filter_push(story(allowed, earlier), event, numbering());
        lemma_filter_push(story(allowed, earlier), event, reporting());
        assert(story(allowed, turns).filter(numbering()) =~= Seq::new(
            turns.len(),
            |i: int| turn_event((i + 1) as nat),
        ));
        let last = turn.reply.calls.take(turn.found.len() as int);
        assert(call_reports(settled(earlier) + last) =~= call_reports(settled(earlier))
            + call_reports(last));
    }
}

proof fn lemma_settled_is_requested(turns: Seq<Turn>)
    requires
        forall|i: int| 0 <= i < turns.len() ==> complete(#[trigger] turns[i]),
    ensures
        settled(turns) == requested(turns),
    decreases turns.len(),
{
    if turns.len() > 0 {
        let earlier = turns.drop_last();
        assert forall|i: int| 0 <= i < earlier.len() implies complete(#[trigger] earlier[i]) by {
            assert(earlier[i] == turns[i]);
        }
        lemma_settled_is_requested(earlier);
        assert(complete(turns[turns.len() - 1]));
        let calls = turns.last().reply.calls;
        assert(calls.take(calls.len() as int) =~= calls);
    }
}

/// The questions to the model are numbered from one on, each once and in order.
pub proof fn lemma_questions_numbered(
    task: Seq<char>,
    allowed: Seq<Seq<char>>,
    inputs: Seq<Input>,
)
    ensures
        ({
            let run = course(task, allowed, inputs);
            run.events.filter(numbering()) == Seq::new(
                run.asked,
                |i: int| turn_event((i + 1) as nat),
            )
        }),
{
    let run = course(task, allowed, inputs);
    let kept = record(task, allowed, inputs);
    let turns = kept.turns;
    let events = story(allowed, turns);
    let n = turns.len();
    lemma_run_is_its_record(task, allowed, inputs);
    assert forall|i: int| 0 <= i < n implies (#[trigger] turns[i]).found.len()
        <= turns[i].reply.calls.len() by {
        assert(proper(allowed, turns[i]));
    }
    lemma_filter_story(allowed, turns);
    lemma_filter_push(events, turn_event(n + 1), numbering());
    lemma_filter_push(events, run.events.last(), numbering());
    lemma_filter_push(events.push(turn_event(n + 1)), run.events.last(), numbering());
    assert(run.events.filter(numbering()) =~= Seq::new(
        run.asked,
        |i: int| turn_event((i + 1) as nat),
    ));
}

/// The calls that the model asks for are reported, each once and in the order in
/// which it asks for them. While a tool is at work, the calls after its own are
/// still to come.
pub proof fn lemma_calls_reported_in_order(
    task: Seq<char>,
    allowed: Seq<Seq<char>>,
    inputs: Seq<Input>,
)
    ensures
        ({
            let run = course(task, allowed, inputs);
            let turns = record(task, allowed, inputs).turns;
            run.events.filter(reporting()) == call_reports(
                match run.coming {
                    Coming::Perform(st, _) => requested(turns.drop_last()) + st.calls.take(
                        (st.done + 1) as int,
                    ),
                    _ => requested(turns),
                },
            )
        }),
{
    let run = course(task, allowed, inputs);
    let kept = record(task, allowed, inputs);
    let turns = kept.turns;
    let events = story(allowed, turns);
    let n = turns.len();
    lemma_run_is_its_record(task, allowed, inputs);
    assert forall|i: int| 0 <= i < n implies (#[trigger] turns[i]).found.len()
        <= turns[i].reply.calls.len() by {
        assert(proper(allowed, turns[i]));
    }
    lemma_filter_story(allowed, turns);
    lemma_filter_push(events, turn_event(n + 1), reporting());
    lemma_filter_push(events, run.events.last(), reporting());
    lemma_filter_push(events.push(turn_event(n + 1)), run.events.last(), reporting());
    if n > 0 {
        let earlier = turns.drop_last();
        let turn = turns.last();
        assert forall|i: int| 0 <= i < earlier.len() implies complete(#[trigger] earlier[i]) by {
            assert(earlier[i] == turns[i]);
        }
        lemma_settled_is_requested(earlier);
        assert(proper(allowed, turns[n - 1]));
        match run.coming {
            Coming::Perform(st, _) => {
                let calls = requested(earlier) + st.calls.take((st.done + 1) as int);
                assert(call_reports(calls) =~= call_reports(settled(turns)).push(
                    call_event(st.calls[st.done as int]),
                ));
            },
            _ => {
                let calls = turn.reply.calls;
                assert(turn.found.len() == calls.len());
                assert(calls.take(calls.len() as int) =~= calls);
            },
        }
    }
}

/// The replies that a run took stay in its record.
proof fn lemma_replies_kept(
    task: Seq<char>,
    allowed: Seq<Seq<char>>,
    inputs: Seq<Input>,
    more: Seq<Input>,
)
    ensures
        ({
            let before = record(task, allowed, inputs).turns;
            let after = record(task, allowed, inputs + more).turns;
            &&& before.len() <= after.len()
            &&& forall|i: int|
                0 <= i < before.len() ==> (#[trigger] after[i]).reply == before[i].reply
        }),
    decreases more.len(),
{
    if more.len() == 0 {
        assert(inputs + more =~= inputs);
    } else {
        lemma_replies_kept(task, allowed, inputs, more.drop_last());
        assert((inputs + more).drop_last() =~= inputs + more.drop_last());
        lemma_run_is_its_record(task, allowed, inputs + more.drop_last());
    }
}

/// Once the model is asked again, nothing changes of the turns before.
proof fn lemma_turns_kept(
    task: Seq<char>,
    allowed: Seq<Seq<char>>,
    inputs: Seq<Input>,
    more: Seq<Input>,
)
    requires
        course(task, allowed, inputs).coming is Ask,
    ensures
        ({
            let before = record(task, allowed, inputs).turns;
            let after = record(task, allowed, inputs + more).turns;
            &&& before.is_prefix_of(after)
            &&& course(task, allowed, inputs).asked <= course(
                task,
                allowed,
                inputs + more,
            ).asked
        }),
    decreases more.len(),
{
    if more.len() == 0 {
        assert(inputs + more =~= inputs);
    } else {
        let fewer = more.drop_last();
        lemma_turns_kept(task, allowed, inputs, fewer);
        assert((inputs + more).drop_last() =~= inputs + fewer);
        lemma_run_is_its_record(task, allowed, inputs);
        lemma_run_is_its_record(task, allowed, inputs + fewer);
        let before = record(task, allowed, inputs).turns;
        let middle = record(task, allowed, inputs + fewer).turns;
        let after = record(task, allowed, inputs + more).turns;
        assert forall|i: int| 0 <= i < before.len() implies before[i] == after[i] by {
            assert(before[i] == middle[i]);
        }
    }
}

/// What lies between two questions: where the model replies to the one and is
/// later asked the next, the conversation is that of the first, then its reply as
/// it came, then one message for each of its calls, in order, with the id of the
/// call and the text of its report: the result, or the refusal. The events in
/// between are the text of the reply, and each call with what became of it.
pub proof fn lemma_next_question(
    task: Seq<char>,
    allowed: Seq<Seq<char>>,
    inputs: Seq<Input>,
    reply: Reply,
    more: Seq<Input>,
)
    ensures
        ({
            let first = course(task, allowed, inputs);
            let all = inputs.push(Input::Reply(Ok(reply))) + more;
            let second = course(task, allowed, all);
            match (first.coming, second.coming) {
                (Coming::Ask(st), Coming::Ask(next)) => next.turn == st.turn + 1 ==> {
                    let turn = record(task, allowed, all).turns.last();
                    &&& turn.reply == reply
                    &&& complete(turn)
                    &&& proper(allowed, turn)
                    &&& next.messages == st.messages.push(reply.message) + call_messages(
                        allowed,
                        reply.calls,
                        turn.found,
                    )
                    &&& second.events == (first.events + said(reply) + call_events(
                        allowed,
                        reply.calls,
                        turn.found,
                    )).push(turn_event(next.turn))
                },
                _ => true,
            }
        }),
{
    let first = course(task, allowed, inputs);
    let then = inputs.push(Input::Reply(Ok(reply)));
    let all = then + more;
    let second = course(task, allowed, all);
    if first.coming is Ask && second.coming is Ask && second.coming->Ask_0.turn
        == first.coming->Ask_0.turn + 1 {
        let before = record(task, allowed, inputs).turns;
        let after = record(task, allowed, all).turns;
        assert(then.drop_last() =~= inputs);
        assert(all =~= inputs + (seq![Input::Reply(Ok(reply))] + more));
        lemma_run_is_its_record(task, allowed, inputs);
        lemma_run_is_its_record(task, allowed, all);
        lemma_turns_kept(task, allowed, inputs, seq![Input::Reply(Ok(reply))] + more);
        lemma_replies_kept(task, allowed, then, more);
        let n = before.len();
        assert(record(task, allowed, then).turns[n as int].reply == reply);
        assert(after.len() == n + 1);
        assert(after[n as int].reply == reply);
        assert(after.drop_last() =~= before);
        assert(proper(allowed, after[n as int]));
    }
}

/// The model is first asked with the instructions and the task.
pub proof fn lemma_first_question(task: Seq<char>, allowed: Seq<Seq<char>>)
    ensures
        ({
            let run = course(task, allowed, Seq::empty());
            &&& run.coming is Ask
            &&& run.coming->Ask_0.messages == opening(task, allowed)
            &&& run.events == seq![turn_event(1)]
        }),
{
    lemma_run_is_its_record(task, allowed, Seq::empty());
    assert(course(task, allowed, Seq::empty()).events =~= seq![turn_event(1)]);
}

/// Whenever the model is asked, it is told all that was said before: the
/// instructions and the task, and of each turn the reply as it came and what
/// became of each of its calls.
pub proof fn lemma_conversation(task: Seq<char>, allowed: Seq<Seq<char>>, inputs: Seq<Input>)
    ensures
        course(task, allowed, inputs).coming matches Coming::Ask(st) ==> {
            let turns = record(task, allowed, inputs).turns;
            &&& st.messages == talk(task, allowed, turns)
            &&& st.turn == turns.len() + 1
            &&& forall|i: int| 0 <= i < turns.len() ==> complete(#[trigger] turns[i])
        },
{
    lemma_run_is_its_record(task, allowed, inputs);
}

/// The messages of what comes next go on from these.
pub open spec fn keeps(messages: Seq<Doc>, coming: Coming) -> bool {
    match coming {
        Coming::Ask(st) => messages.is_prefix_of(st.messages),
        Coming::Perform(st, _) => messages.is_prefix_of(st.messages),
        Coming::Stop => true,
    }
}

proof fn lemma_keeps(shorter: Seq<Doc>, longer: Seq<Doc>, coming: Coming)
    requires
        shorter.is_prefix_of(longer),
        keeps(longer, coming),
    ensures
        keeps(shorter, coming),
{
    let messages = match coming {
        Coming::Ask(st) => st.messages,
        Coming::Perform(st, _) => st.messages,
        Coming::Stop => longer,
    };
    assert forall|i: int| 0 <= i < shorter.len() implies shorter[i] == messages[i] by {
        assert(shorter[i] == longer[i]);
    }
}

proof fn lemma_proceed_keeps(st: Standing)
    ensures
        keeps(st.messages, proceed(st).1),
    decreases st.calls.len() - st.done,
{
    if st.done < st.calls.len() {
        let call = st.calls[st.done as int];
        if !st.allowed.contains(call.name) {
            let then = answered(st, refusal(call.name));
            lemma_proceed_keeps(then);
            lemma_keeps(st.messages, then.messages, proceed(st).1);
        } else if let Plan::Reply { ok, text } = plan(call.name, parsed(call.arguments)) {
            let then = answered(st, text);
            lemma_proceed_keeps(then);
            lemma_keeps(st.messages, then.messages, proceed(st).1);
        }
    }
}

proof fn lemma_taken_keeps(messages: Seq<Doc>, run: Course, input: Input)
    requires
        keeps(messages, run.coming),
    ensures
        keeps(messages, taken(run, input).coming),
{
    match (run.coming, input) {
        (Coming::Ask(st), Input::Reply(Ok(reply))) => {
            if reply.calls.len() > 0 {
                let then = Standing {
                    messages: st.messages.push(reply.message),
                    calls: reply.calls,
                    done: 0,
                    ..st
                };
                lemma_proceed_keeps(then);
                lemma_keeps(st.messages, then.messages, proceed(then).1);
                lemma_keeps(messages, st.messages, proceed(then).1);
            }
        },
        (Coming::Perform(st, work), Input::Done(outcome)) => {
            if let Some(told) = work_told(work, outcome) {
                let then = answered(st, told.text);
                lemma_proceed_keeps(then);
                lemma_keeps(st.messages, then.messages, proceed(then).1);
                lemma_keeps(messages, st.messages, proceed(then).1);
            }
        },
        _ => {},
    }
}

/// The conversation only grows: what has been said to the model stays said.
pub proof fn lemma_conversation_grows(
    task: Seq<char>,
    allowed: Seq<Seq<char>>,
    inputs: Seq<Input>,
    more: Seq<Input>,
)
    ensures
        match course(task, allowed, inputs).coming {
            Coming::Ask(st) => keeps(
                st.messages,
                course(task, allowed, inputs + more).coming,
            ),
            Coming::Perform(st, _) => keeps(
                st.messages,
                course(task, allowed, inputs + more).coming,
            ),
            Coming::Stop => true,
        },
    decreases more.len(),
{
    let messages = match course(task, allowed, inputs).coming {
        Coming::Ask(st) => st.messages,
        Coming::Perform(st, _) => st.messages,
        Coming::Stop => Seq::empty(),
    };
    if more.len() == 0 {
        assert(inputs + more =~= inputs);
    } else {
        let fewer = more.drop_last();
        lemma_conversation_grows(task, allowed, inputs, fewer);
        assert((inputs + more).drop_last() =~= inputs + fewer);
        let run = course(task, allowed, inputs + fewer);
        if course(task, allowed, inputs).coming !is Stop {
            lemma_taken_keeps(messages, run, more.last());
        }
    }
}

/// A chat message has its role and its text, as they stand.
pub proof fn lemma_chat_message(role: Seq<char>, content: Seq<char>)
    ensures
        text_member(chat_message(role, content), "role"@) == Some(role),
        text_member(chat_message(role, content), "content"@) == Some(content),
{
    reveal_strlit("role");
    reveal_strlit("content");
    let fields = seq![("role"@, Doc::Text(role)), ("content"@, Doc::Text(content))];
    assert(fields[0].0.len() == 4 && fields[1].0.len() == 7);
    lemma_distinct_fields(fields);
    assert(member(object_of(fields), fields[0].0) == Some(fields[0].1));
    assert(member(object_of(fields), fields[1].0) == Some(fields[1].1));
}

/// The message with the result of a call is one of the role `tool`; it has the id
/// of the call and the whole result, as they stand.
pub proof fn lemma_tool_message(id: Seq<char>, result: Seq<char>)
    ensures
        text_member(tool_message(id, result), "role"@) == Some("tool"@),
        text_member(tool_message(id, result), "tool_call_id"@) == Some(id),
        text_member(tool_message(id, result), "content"@) == Some(result),
{
    reveal_strlit("role");
    reveal_strlit("tool_call_id");
    reveal_strlit("content");
    let fields = seq![
        ("role"@, Doc::Text("tool"@)),
        ("tool_call_id"@, Doc::Text(id)),
        ("content"@, Doc::Text(result)),
    ];
    assert(fields[0].0.len() == 4 && fields[1].0.len() == 12 && fields[2].0.len() == 7);
    lemma_distinct_fields(fields);
    assert(member(object_of(fields), fields[0].0) == Some(fields[0].1));
    assert(member(object_of(fields), fields[1].0) == Some(fields[1].1));
    assert(member(object_of(fields), fields[2].0) == Some(fields[2].1));
}

/// The conversation begins with the instructions, in which the allowed tools are
/// named, and the task as the user gave it.
pub proof fn lemma_opening(task: Seq<char>, allowed: Seq<Seq<char>>)
    ensures
        ({
            let messages = opening(task, allowed);
            let tools = if allowed.len() == 0 {
                "нет (работай без инструментов, отвечай из своих знаний)"@
            } else {
                joined(allowed, ", "@)
            };
            &&& messages.len() == 2
            &&& text_member(messages[0], "role"@) == Some("system"@)
            &&& text_member(messages[0], "content"@) == Some(
                "Ты — полезный агент, работающий на компьютере пользователя. Решай задачу пошагово, при необходимости вызывая инструменты. Разрешённые инструменты: "@
                    + tools
                    + ". Рабочая папка — текущая. Когда задача решена, дай краткий финальный ответ БЕЗ вызова инструментов. Отвечай по-русски."@,
            )
            &&& text_member(messages[1], "role"@) == Some("user"@)
            &&& text_member(messages[1], "content"@) == Some(task)
        }),
{
    lemma_chat_message("system"@, instructions(allowed));
    lemma_chat_message("user"@, task);
}

/// A reply is shown as it stands, unless it is blank: then it is not shown.
pub proof fn lemma_said(reply: Reply)
    ensures
        blank(reply.content) ==> said(reply) == Seq::<Event>::empty(),
        !blank(reply.content) ==> said(reply) == seq![Event::Assistant(reply.content)],
{
    lemma_trimmed_blank(reply.content);
}

/// The reports that a turn begins and that there are no more turns, in words.
pub proof fn lemma_reports(turn: nat)
    ensures
        turn_event(turn) is Status,
        turn_event(turn)->Status_0.take(4) == "ход "@,
        number(turn_event(turn)->Status_0.skip(4)) == turn,
        limit_event() == Event::Error("достигнут лимит шагов ("@ + seq!['8']
            + ") — агент остановлен"@),
{
    reveal_strlit("ход ");
    lemma_decimal(turn);
    let text = turn_event(turn)->Status_0;
    assert(text.take(4) =~= "ход "@);
    assert(text.skip(4) =~= decimal(turn));
    reveal_with_fuel(decimal, 2);
    assert(decimal(8) =~= seq!['8']);
}

/// The agent asks the model at most eight times.
pub proof fn lemma_eight_turns(task: Seq<char>, allowed: Seq<Seq<char>>, inputs: Seq<Input>)
    ensures
        course(task, allowed, inputs).asked <= 8,
        course(task, allowed, inputs).events.last() == limit_event() && record(
            task,
            allowed,
            inputs,
        ).failure is None ==> course(task, allowed, inputs).asked == 8,
{
    lemma_run_is_its_record(task, allowed, inputs);
}

/// What a model gets back of its calls, whatever their number and the length of
/// their results. Where it replies to one question and is later asked the next,
/// then behind what it was told before stand its reply, as it came, and one message
/// for each call, in order. That message has the role `tool`, the id of the call,
/// and as its content exactly the result that the user is shown of the call, or
/// the refusal where the tool is not allowed. The user is shown each call, and right
/// behind it what became of it.
pub proof fn lemma_model_is_told_each_result(
    task: Seq<char>,
    allowed: Seq<Seq<char>>,
    inputs: Seq<Input>,
    reply: Reply,
    more: Seq<Input>,
    i: int,
)
    ensures
        ({
            let first = course(task, allowed, inputs);
            let second = course(task, allowed, inputs.push(Input::Reply(Ok(reply))) + more);
            match (first.coming, second.coming) {
                (Coming::Ask(st), Coming::Ask(next)) => next.turn == st.turn + 1 ==> {
                    let n = st.messages.len() as int;
                    let shown: int = if blank(reply.content) {
                        0
                    } else {
                        1
                    };
                    let at = first.events.len() + shown + 2 * i;
                    &&& next.messages.len() == n + 1 + reply.calls.len()
                    &&& next.messages.take(n) == st.messages
                    &&& next.messages[n] == reply.message
                    &&& second.events.len() == first.events.len() + shown + 2 * reply.calls.len()
                        + 1
                    &&& second.events.take(first.events.len() as int) == first.events
                    &&& 0 <= i < reply.calls.len() ==> {
                        let call = reply.calls[i];
                        let message = next.messages[n + 1 + i];
                        let close = second.events[at + 1];
                        &&& second.events[at] == Event::ToolCall {
                            name: call.name,
                            args: call.arguments,
                        }
                        &&& text_member(message, "role"@) == Some("tool"@)
                        &&& text_member(message, "tool_call_id"@) == Some(call.id)
                        &&& if allowed.contains(call.name) {
                            &&& close is ToolResult
                            &&& close->ToolResult_name == call.name
                            &&& text_member(message, "content"@) == Some(close->result)
                        } else {
                            &&& close == Event::Denied { name: call.name }
                            &&& text_member(message, "content"@) == Some(
                                "❌ Инструмент «"@ + call.name + "» не разрешён пользователем."@,
                            )
                        }
                    }
                },
                _ => true,
            }
        }),
{
    let first = course(task, allowed, inputs);
    let all = inputs.push(Input::Reply(Ok(reply))) + more;
    let second = course(task, allowed, all);
    lemma_next_question(task, allowed, inputs, reply, more);
    lemma_said(reply);
    if first.coming is Ask && second.coming is Ask && second.coming->Ask_0.turn
        == first.coming->Ask_0.turn + 1 {
        let st = first.coming->Ask_0;
        let next = second.coming->Ask_0;
        let found = record(task, allowed, all).turns.last().found;
        let n = st.messages.len() as int;
        let told = call_events(allowed, reply.calls, found);
        assert(next.messages.take(n) =~= st.messages);
        lemma_call_events(allowed, reply.calls, found, i);
        assert(second.events.take(first.events.len() as int) =~= first.events);
        if 0 <= i < reply.calls.len() {
            let call = reply.calls[i];
            let close = close_event(allowed, call, found[i]);
            let shown = said(reply).len() as int;
            let at = first.events.len() + shown + 2 * i;
            assert(second.events[at] == told[2 * i]);
            assert(second.events[at + 1] == told[2 * i + 1]);
            lemma_tool_message(call.id, reported_text(close));
            assert(next.messages[n + 1 + i] == tool_message(call.id, reported_text(close)));
        }
    }
}

proof fn lemma_call_events(
    allowed: Seq<Seq<char>>,
    calls: Seq<Call>,
    found: Seq<Option<Outcome>>,
    i: int,
)
    ensures
        call_events(allowed, calls, found).len() == 2 * found.len(),
        0 <= i < found.len() ==> call_events(allowed, calls, found)[2 * i] == call_event(calls[i]),
        0 <= i < found.len() ==> call_events(allowed, calls, found)[2 * i + 1] == close_event(
            allowed,
            calls[i],
            found[i],
        ),
    decreases found.len(),
{
    if found.len() > 0 {
        lemma_call_events(allowed, calls, found.drop_last(), i);
    }
}

/// The view of a reply has its message, its text and its calls as they stand, the
/// calls in their order; the view of events has them in their order.
pub proof fn lemma_session_views(turn: AgentTurn, complaint: String, events: Seq<AgentEvent>)
    ensures
        reply_of(Ok(turn)) == Ok::<Reply, Seq<char>>(turn@),
        reply_of(Err(complaint)) == Err::<Reply, Seq<char>>(complaint@),
        turn@.message == turn.message@,
        turn@.content == turn.content@,
        turn@.calls.len() == turn.tool_calls@.len(),
        forall|i: int|
            0 <= i < turn.tool_calls@.len() ==> {
                let call = #[trigger] turn@.calls[i];
                &&& call.id == turn.tool_calls@[i].id@
                &&& call.name == turn.tool_calls@[i].name@
                &&& call.arguments == turn.tool_calls@[i].arguments@
            },
        events_of(events).len() == events.len(),
        forall|i: int| 0 <= i < events.len() ==> #[trigger] events_of(events)[i] == events[i]@,
{
}

/// What comes next is seen as it is: the model is asked, a tool is at work on its
/// own work, or the run is over.
pub proof fn lemma_next_view(asking: Asking, performing: Performing)
    ensures
        Next::Ask(asking)@ == Coming::Ask(asking.standing()),
        Next::Perform(performing)@ == Coming::Perform(performing.standing(), performing.work()),
        Next::Stop@ == Coming::Stop,
{
}

/// What the user allows stays the same all through a run: at every question the
/// model is offered the tools that were allowed at the start.
pub proof fn lemma_permissions_stay(task: Seq<char>, allowed: Seq<Seq<char>>, inputs: Seq<Input>)
    ensures
        match course(task, allowed, inputs).coming {
            Coming::Ask(st) => st.allowed == allowed,
            Coming::Perform(st, _) => st.allowed == allowed,
            Coming::Stop => true,
        },
{
    lemma_run_is_its_record(task, allowed, inputs);
}

} // verus!
