//! What is asked of the model server, and what its answers mean.
//!
//! The server speaks the chat protocol of OpenAI over HTTP.

use vstd::prelude::*;
use vstd::string::*;

use crate::stats::{pace, rate, Rate};
use crate::text::{lemma_without_trailing, strip_trailing, without_trailing};

verus! {

/// A chat message, mathematically.
pub ghost struct Message {
    pub role: Seq<char>,
    pub content: Seq<char>,
}

/// A chat message.
#[derive(Debug, PartialEq)]
pub struct Msg {
    pub role: String,
    pub content: String,
}

impl View for Msg {
    type V = Message;

    open spec fn view(&self) -> Message {
        Message { role: self.role@, content: self.content@ }
    }
}

impl Clone for Msg {
    fn clone(&self) -> (res: Self)
        ensures
            res == *self,
    {
        Msg { role: self.role.clone(), content: self.content.clone() }
    }
}

/// The views of a list of messages.
pub open spec fn messages_of(list: Seq<Msg>) -> Seq<Message> {
    Seq::new(list.len(), |i: int| list[i]@)
}

/// The sampling temperature, in tenths.
pub const TEMPERATURE_TENTHS: u32 = 7;

/// A request for a reply.
#[derive(Debug, PartialEq)]
pub struct ChatRequest {
    pub model: String,
    pub messages: Vec<Msg>,
    /// Whether the reply is to come in pieces.
    pub stream: bool,
    /// The sampling temperature, in tenths.
    pub temperature_tenths: u32,
}

/// A complete answer of the server.
#[derive(Debug, PartialEq)]
pub struct Resp {
    pub choices: Vec<Choice>,
    pub usage: Option<Usage>,
}

/// One of the replies in an answer.
#[derive(Debug, PartialEq)]
pub struct Choice {
    pub message: ContentHolder,
}

/// The text of a reply.
#[derive(Debug, PartialEq)]
pub struct ContentHolder {
    pub content: String,
}

/// What a reply has cost.
#[derive(Clone, Copy, Debug, PartialEq, Eq)]
pub struct Usage {
    pub completion_tokens: Option<u32>,
}

/// A reply, with its tokens and the time it took.
#[derive(Debug, PartialEq)]
pub struct CompleteResult {
    pub reply: String,
    pub tokens: u32,
    pub ms: u128,
}

impl CompleteResult {
    /// The pace of the reply; none where no time passed.
    pub fn tok_per_s(&self) -> (res: Option<Rate>)
        ensures
            res == pace(self.tokens as u64, self.ms),
            self.ms == 0 ==> res is None,
            self.ms != 0 ==> res == Some(Rate { tokens: self.tokens as u64, ms: self.ms }),
    {
        rate(self.tokens as u64, self.ms)
    }
}

/// How a request went; failures come with their reasons.
pub enum Exchange {
    /// The server could not be reached.
    Unreachable(String),
    /// It answered with an error status.
    Refused(String),
    /// Its answer could not be read.
    Unreadable(String),
    /// It answered, after so many milliseconds.
    Answered(Resp, u128),
}

/// The text of the first reply; empty where there is none.
pub open spec fn first_reply(choices: Seq<Choice>) -> Seq<char> {
    if choices.len() == 0 {
        Seq::empty()
    } else {
        choices[0].message.content@
    }
}

/// The tokens of a reply; none where they are not told.
pub open spec fn tokens_used(usage: Option<Usage>) -> u32 {
    match usage {
        Some(Usage { completion_tokens: Some(n) }) => n,
        _ => 0,
    }
}

/// The address of the chat service on the server `upstream`.
pub open spec fn chat_url(upstream: Seq<char>) -> Seq<char> {
    without_trailing(upstream, '/') + "/v1/chat/completions"@
}

impl Resp {
    /// The reply in an answer that took `ms` milliseconds.
    pub fn into_result(self, ms: u128) -> (res: CompleteResult)
        ensures
            res.reply@ == first_reply(self.choices@),
            self.choices@.len() >= 1 ==> res.reply@ == self.choices@[0].message.content@,
            self.choices@.len() == 0 ==> res.reply@.len() == 0,
            res.tokens == tokens_used(self.usage),
            match self.usage {
                Some(usage) => match usage.completion_tokens {
                    Some(n) => res.tokens == n,
                    None => res.tokens == 0,
                },
                None => res.tokens == 0,
            },
            res.ms == ms,
    {
        let tokens = match self.usage {
            Some(usage) => match usage.completion_tokens {
                Some(n) => n,
                None => 0,
            },
            None => 0,
        };
        let reply = if self.choices.len() == 0 {
            String::new()
        } else {
            self.choices[0].message.content.clone()
        };
        CompleteResult { reply, tokens, ms }
    }
}

/// A model server, and the model to ask for.
#[derive(Debug, PartialEq)]
pub struct Backend {
    upstream: String,
    model: String,
}

impl Clone for Backend {
    fn clone(&self) -> (res: Self)
        ensures
            res == *self,
    {
        Backend { upstream: self.upstream.clone(), model: self.model.clone() }
    }
}

impl Backend {
    /// The address of the server.
    pub closed spec fn upstream(self) -> Seq<char> {
        self.upstream@
    }

    /// The name of the model.
    pub closed spec fn model(self) -> Seq<char> {
        self.model@
    }

    /// The model `model` on the server `upstream`.
    pub fn new(upstream: String, model: String) -> (res: Self)
        ensures
            res.upstream() == upstream@,
            res.model() == model@,
    {
        Self { upstream, model }
    }

    /// The address of the chat service.
    pub fn url(&self) -> (res: String)
        ensures
            res@ == chat_url(self.upstream()),
    {
        let mut out = strip_trailing(self.upstream.as_str(), '/');
        out.append("/v1/chat/completions");
        out
    }

    /// The request for a reply to `messages`, whole or in pieces.
    pub fn request(&self, messages: Vec<Msg>, stream: bool) -> (res: ChatRequest)
        ensures
            res.model@ == self.model(),
            res.messages == messages,
            res.stream == stream,
            res.temperature_tenths == TEMPERATURE_TENTHS,
            res.temperature_tenths == 7,
    {
        ChatRequest {
            model: self.model.clone(),
            messages,
            stream,
            temperature_tenths: TEMPERATURE_TENTHS,
        }
    }

    /// The outcome of a request for a whole reply: the reply, or what went wrong.
    pub fn complete(&self, exchange: Exchange) -> (res: Result<CompleteResult, String>)
        ensures
            match exchange {
                Exchange::Answered(resp, ms) => {
                    &&& res is Ok
                    &&& res->Ok_0.reply@ == first_reply(resp.choices@)
                    &&& resp.choices@.len() >= 1 ==> res->Ok_0.reply@
                        == resp.choices@[0].message.content@
                    &&& resp.choices@.len() == 0 ==> res->Ok_0.reply@.len() == 0
                    &&& res->Ok_0.tokens == tokens_used(resp.usage)
                    &&& resp.usage is None ==> res->Ok_0.tokens == 0
                    &&& resp.usage matches Some(usage) ==> match usage.completion_tokens {
                        Some(n) => res->Ok_0.tokens == n,
                        None => res->Ok_0.tokens == 0,
                    }
                    &&& res->Ok_0.ms == ms
                },
                Exchange::Unreachable(reason) => {
                    &&& res is Err
                    &&& res->Err_0@ == "не достучался до llama-server ("@ + self.upstream() + "): "@
                        + reason@
                },
                Exchange::Refused(reason) => {
                    &&& res is Err
                    &&& res->Err_0@ == "llama-server вернул ошибку: "@ + reason@
                },
                Exchange::Unreadable(reason) => {
                    &&& res is Err
                    &&& res->Err_0@ == reason@
                },
            },
    {
        match exchange {
            Exchange::Answered(resp, ms) => Ok(resp.into_result(ms)),
            Exchange::Unreachable(reason) => {
                let mut text = "не достучался до llama-server (".to_owned();
                text.append(self.upstream.as_str());
                text.append("): ");
                text.append(reason.as_str());
                Err(text)
            },
            Exchange::Refused(reason) => {
                let mut text = "llama-server вернул ошибку: ".to_owned();
                text.append(reason.as_str());
                Err(text)
            },
            Exchange::Unreadable(reason) => Err(reason),
        }
    }
}

/// Slashes at the end of the server's address make no difference.
pub proof fn lemma_trailing_slashes(upstream: Seq<char>, count: nat)
    ensures
        chat_url(upstream + Seq::new(count, |i: int| '/')) == chat_url(upstream),
    decreases count,
{
    let slashes = Seq::new(count, |i: int| '/');
    if count == 0 {
        assert(upstream + slashes =~= upstream);
    } else {
        let fewer = Seq::new((count - 1) as nat, |i: int| '/');
        assert((upstream + slashes).drop_last() =~= upstream + fewer);
        lemma_trailing_slashes(upstream, (count - 1) as nat);
    }
}

/// The reply of an answer is the text of its first choice, whatever other choices
/// there are, and empty only where there is no choice at all.
pub proof fn lemma_first_choice_is_the_reply(first: Choice, others: Seq<Choice>)
    ensures
        first_reply(seq![first] + others) == first.message.content@,
        first_reply(seq![first]) == first.message.content@,
        first_reply(Seq::empty()) == Seq::<char>::empty(),
{
    assert((seq![first] + others)[0] == first);
}

/// The tokens of a reply are those that the server tells of, and none where it
/// does not tell.
pub proof fn lemma_tokens_are_told(n: u32)
    ensures
        tokens_used(Some(Usage { completion_tokens: Some(n) })) == n,
        tokens_used(Some(Usage { completion_tokens: None })) == 0,
        tokens_used(None) == 0,
{
}

/// The chat service is found behind the address of the server, however many
/// slashes that ends with.
pub proof fn lemma_chat_url(upstream: Seq<char>, count: nat)
    requires
        upstream.len() > 0 ==> upstream.last() != '/',
    ensures
        chat_url(upstream + Seq::new(count, |i: int| '/')) == upstream + "/v1/chat/completions"@,
{
    lemma_without_trailing(upstream, '/', count);
}

/// The view of a list of messages has their roles and texts in their order.
pub proof fn lemma_messages_of(list: Seq<Msg>)
    ensures
        messages_of(list).len() == list.len(),
        forall|i: int|
            0 <= i < list.len() ==> (#[trigger] messages_of(list)[i]).role == list[i].role@
                && messages_of(list)[i].content == list[i].content@,
{
}

/// The view of a message has its role and its text as they stand.
pub proof fn lemma_message_view(message: Msg)
    ensures
        message@.role == message.role@,
        message@.content == message.content@,
{
}

} // verus!
