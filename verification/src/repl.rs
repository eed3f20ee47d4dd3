//! The chat in the terminal: what a line of input means, and what is kept of
//! the conversation.

use vstd::prelude::*;
use vstd::string::*;

use crate::backend::{messages_of, CompleteResult, Message, Msg};
use crate::text::{
    bare, blank, decimal, decimal_of, lemma_trimmed, optional_str, same_text, trim, trimmed,
};

verus! {

/// A conversation is a list of questions, each with its answer.
pub open spec fn in_pairs(history: Seq<Message>) -> bool {
    &&& history.len() % 2 == 0
    &&& forall|i: int|
        0 <= i < history.len() ==> (#[trigger] history[i]).role == if i % 2 == 0 {
            "user"@
        } else {
            "assistant"@
        }
}

/// The conversation with a question that has no answer yet.
pub open spec fn with_question(history: Seq<Message>, question: Seq<char>) -> Seq<Message> {
    history.push(Message { role: "user"@, content: question })
}

/// The conversation once the question has its answer, or has turned out to get
/// none: then the question is taken back.
pub open spec fn settled(asked: Seq<Message>, outcome: Result<Seq<char>, Seq<char>>) -> Seq<
    Message,
> {
    match outcome {
        Ok(reply) => asked.push(Message { role: "assistant"@, content: reply }),
        Err(_) => asked.drop_last(),
    }
}

/// The chat, ready for a line of input.
pub struct Repl {
    history: Vec<Msg>,
}

/// The chat, with a question for the model.
pub struct Question {
    history: Vec<Msg>,
}

impl View for Repl {
    type V = Seq<Message>;

    closed spec fn view(&self) -> Seq<Message> {
        messages_of(self.history@)
    }
}

impl View for Question {
    type V = Seq<Message>;

    closed spec fn view(&self) -> Seq<Message> {
        messages_of(self.history@)
    }
}

/// What comes after a line of input.
pub enum ReplNext {
    /// The chat is over.
    Quit,
    /// There was nothing in it: the next line, please.
    Again(Repl),
    /// The model is asked.
    Ask(Question),
}

/// What comes after a line of input, mathematically.
pub ghost enum Following {
    Quit,
    Again(Seq<Message>),
    Ask(Seq<Message>),
}

impl View for ReplNext {
    type V = Following;

    open spec fn view(&self) -> Following {
        match self {
            ReplNext::Quit => Following::Quit,
            ReplNext::Again(repl) => Following::Again(repl@),
            ReplNext::Ask(question) => Following::Ask(question@),
        }
    }
}

/// What a line of input leads to. The end of the input ends the chat, and so
/// does `/exit`; white space around a line does not count.
pub open spec fn following(history: Seq<Message>, line: Option<Seq<char>>) -> Following {
    match line {
        None => Following::Quit,
        Some(text) => {
            let bare = trimmed(text);
            if bare.len() == 0 {
                Following::Again(history)
            } else if bare == "/exit"@ {
                Following::Quit
            } else {
                Following::Ask(with_question(history, bare))
            }
        },
    }
}

/// The view of the outcome of a question.
pub open spec fn outcome_chars(outcome: Result<CompleteResult, String>) -> Result<
    Seq<char>,
    Seq<char>,
> {
    match outcome {
        Ok(result) => Ok(result.reply@),
        Err(e) => Err(e@),
    }
}

impl Repl {
    #[verifier::type_invariant]
    spec fn paired(self) -> bool {
        in_pairs(messages_of(self.history@))
    }

    /// A chat in which nothing has been said.
    pub fn new() -> (res: Repl)
        ensures
            res@ == Seq::<Message>::empty(),
    {
        let history: Vec<Msg> = Vec::new();
        proof {
            assert(messages_of(history@) =~= Seq::empty());
        }
        Repl { history }
    }

    /// Takes a line of input, or its end.
    pub fn read(self, line: Option<&str>) -> (res: ReplNext)
        ensures
            res@ == following(self@, optional_str(line)),
            in_pairs(self@),
    {
        proof {
            use_type_invariant(&self);
        }
        let text = match line {
            Some(text) => text,
            None => return ReplNext::Quit,
        };
        let bare = trim(text);
        if bare.as_str().is_empty() {
            return ReplNext::Again(self);
        }
        if same_text(bare.as_str(), "/exit") {
            return ReplNext::Quit;
        }
        let mut history = self.history;
        let ghost before = history@;
        let question = Msg { role: "user".to_owned(), content: bare };
        history.push(question);
        proof {
            assert(messages_of(history@) =~= messages_of(before).push(question@));
            assert(history@.last()@.role == "user"@);
            assert(messages_of(history@).drop_last() =~= messages_of(before));
        }
        ReplNext::Ask(Question { history })
    }
}

impl Question {
    #[verifier::type_invariant]
    spec fn open_ended(self) -> bool {
        let messages = messages_of(self.history@);
        &&& messages.len() > 0
        &&& in_pairs(messages.drop_last())
        &&& messages.last().role == "user"@
    }

    /// The conversation with the question.
    pub fn messages(&self) -> (res: &Vec<Msg>)
        ensures
            messages_of(res@) == self@,
    {
        &self.history
    }

    /// Goes on with the answer, or without one.
    pub fn answered(self, outcome: Result<CompleteResult, String>) -> (res: Repl)
        ensures
            res@ == settled(self@, outcome_chars(outcome)),
            match outcome {
                Ok(result) => {
                    &&& res@.len() == self@.len() + 1
                    &&& res@.drop_last() == self@
                    &&& res@.last().role == "assistant"@
                    &&& res@.last().content == result.reply@
                },
                Err(_) => res@ == self@.drop_last(),
            },
            in_pairs(res@),
    {
        proof {
            use_type_invariant(&self);
        }
        let mut history = self.history;
        let ghost asked = messages_of(history@);
        match outcome {
            Ok(result) => {
                let ghost before = history@;
                let answer = Msg { role: "assistant".to_owned(), content: result.reply };
                history.push(answer);
                proof {
                    let now = messages_of(history@);
                    assert(now =~= asked.push(answer@));
                    assert(now.drop_last() =~= asked);
                    assert forall|i: int| 0 <= i < now.len() implies (#[trigger] now[i]).role == if i
                        % 2 == 0 {
                        "user"@
                    } else {
                        "assistant"@
                    } by {
                        if i < asked.len() - 1 {
                            assert(now[i] == asked.drop_last()[i]);
                        }
                    }
                }
            },
            Err(_) => {
                history.pop();
                proof {
                    assert(messages_of(history@) =~= asked.drop_last());
                }
            },
        }
        Repl { history }
    }
}

/// What the user is shown of an answer; `pace` is its pace in words.
pub fn answer_text(result: &CompleteResult, pace: &str) -> (res: String)
    ensures
        res@ == "\n"@ + trimmed(result.reply@) + "\n["@ + decimal(result.tokens as nat) + " ток · "@
            + decimal(result.ms as nat) + " мс · "@ + pace@ + " ток/с]\n"@,
{
    let reply = trim(result.reply.as_str());
    let tokens = decimal_of(result.tokens as u128);
    let ms = decimal_of(result.ms);
    let mut text = "\n".to_owned();
    text.append(reply.as_str());
    text.append("\n[");
    text.append(tokens.as_str());
    text.append(" ток · ");
    text.append(ms.as_str());
    text.append(" мс · ");
    text.append(pace);
    text.append(" ток/с]\n");
    text
}

/// What the user is shown when there is no answer.
pub fn error_text(reason: &str) -> (res: String)
    ensures
        res@ == "\nОшибка: "@ + reason@ + "\n"@,
{
    let mut text = "\nОшибка: ".to_owned();
    text.append(reason);
    text.append("\n");
    text
}

/// The conversation after a list of questions, each with its outcome.
pub open spec fn dialogue(exchanges: Seq<(Seq<char>, Result<Seq<char>, Seq<char>>)>) -> Seq<Message>
    decreases exchanges.len(),
{
    if exchanges.len() == 0 {
        Seq::empty()
    } else {
        settled(
            with_question(dialogue(exchanges.drop_last()), exchanges.last().0),
            exchanges.last().1,
        )
    }
}

/// The questions that were answered, each followed by its answer.
pub open spec fn answered_only(
    exchanges: Seq<(Seq<char>, Result<Seq<char>, Seq<char>>)>,
) -> Seq<Message>
    decreases exchanges.len(),
{
    if exchanges.len() == 0 {
        Seq::empty()
    } else {
        let front = answered_only(exchanges.drop_last());
        match exchanges.last().1 {
            Ok(reply) => front + seq![
                Message { role: "user"@, content: exchanges.last().0 },
                Message { role: "assistant"@, content: reply },
            ],
            Err(_) => front,
        }
    }
}

/// A question without an answer leaves no trace: the conversation holds the
/// answered questions with their answers, in order, and nothing else.
pub proof fn lemma_unanswered_leave_no_trace(
    exchanges: Seq<(Seq<char>, Result<Seq<char>, Seq<char>>)>,
)
    ensures
        dialogue(exchanges) == answered_only(exchanges),
    decreases exchanges.len(),
{
    if exchanges.len() > 0 {
        lemma_unanswered_leave_no_trace(exchanges.drop_last());
        let front = dialogue(exchanges.drop_last());
        let asked = with_question(front, exchanges.last().0);
        match exchanges.last().1 {
            Ok(_) => {
                assert(dialogue(exchanges) =~= answered_only(exchanges));
            },
            Err(_) => {
                assert(asked.drop_last() =~= front);
            },
        }
    }
}

/// A line says what stands between the white space at its ends: nothing, and it
/// leaves the conversation alone; `/exit`, and the chat is over; anything else,
/// and it is the next question of the user. So is the chat over at the end of the
/// input.
pub proof fn lemma_following(
    history: Seq<Message>,
    front: Seq<char>,
    text: Seq<char>,
    back: Seq<char>,
)
    requires
        blank(front),
        bare(text),
        blank(back),
    ensures
        following(history, None) == Following::Quit,
        ({
            let next = following(history, Some(front + text + back));
            &&& text.len() == 0 ==> next == Following::Again(history)
            &&& text == "/exit"@ ==> next == Following::Quit
            &&& text.len() > 0 && text != "/exit"@ ==> {
                &&& next is Ask
                &&& next->Ask_0.len() == history.len() + 1
                &&& next->Ask_0.drop_last() == history
                &&& next->Ask_0.last().role == "user"@
                &&& next->Ask_0.last().content == text
            }
        }),
{
    reveal_strlit("/exit");
    lemma_trimmed(front, text, back);
    if text.len() > 0 && text != "/exit"@ {
        assert(with_question(history, text).drop_last() =~= history);
    }
}

/// An answer is kept behind its question, as it came; a question without one is
/// taken back, and the conversation is what it was before.
pub proof fn lemma_settled(
    history: Seq<Message>,
    question: Seq<char>,
    text: Seq<char>,
)
    ensures
        ({
            let asked = with_question(history, question);
            let kept = settled(asked, Ok(text));
            &&& settled(asked, Err(text)) == history
            &&& kept.len() == history.len() + 2
            &&& kept.take(history.len() as int) == history
            &&& kept[history.len() as int].role == "user"@
            &&& kept[history.len() as int].content == question
            &&& kept.last().role == "assistant"@
            &&& kept.last().content == text
        }),
{
    let asked = with_question(history, question);
    assert(asked.drop_last() =~= history);
    assert(settled(asked, Ok(text)).take(history.len() as int) =~= history);
}

/// The views of outcomes and of what follows have what they hold as it stands.
pub proof fn lemma_repl_views(
    result: CompleteResult,
    reason: String,
    repl: Repl,
    question: Question,
)
    ensures
        outcome_chars(Ok(result)) == Ok::<Seq<char>, Seq<char>>(result.reply@),
        outcome_chars(Err(reason)) == Err::<Seq<char>, Seq<char>>(reason@),
        ReplNext::Quit@ == Following::Quit,
        ReplNext::Again(repl)@ == Following::Again(repl@),
        ReplNext::Ask(question)@ == Following::Ask(question@),
{
}

} // verus!
