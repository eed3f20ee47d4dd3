//! The web server: what a chat request is answered, and what is counted of it.

use vstd::prelude::*;
use vstd::string::*;

use crate::backend::CompleteResult;
use crate::stats::{counted, modulus, pace, Rate, Stats};
use crate::text::{decimal, decimal_of, lemma_decimal, number};

verus! {

/// The HTTP status of an answer that the model server did not give.
pub const BAD_GATEWAY: u16 = 502;

/// The answer to a chat request.
#[derive(Debug, PartialEq)]
pub enum ChatAnswer {
    /// The reply of the model, with its tokens, its milliseconds and its pace.
    Reply { reply: String, tokens: u32, ms: u128, tok_per_s: Option<Rate> },
    /// There is none: an HTTP status, and the reason.
    Failure { status: u16, reason: String },
}

/// A time as the counters take it: its low 64 bits.
fn low_bits(ms: u128) -> (res: u64)
    ensures
        res == ms as int % modulus(),
{
    let low = ms as u64;
    proof {
        assert(ms as u64 == ms % 0x1_0000_0000_0000_0000u128) by (bit_vector);
    }
    low
}

/// Answers a chat request. A reply is counted; a failure is not, and comes back
/// as that of a gateway.
pub fn chat(stats: &mut Stats, outcome: Result<CompleteResult, String>) -> (res: ChatAnswer)
    ensures
        match outcome {
            Ok(result) => {
                &&& res == (ChatAnswer::Reply {
                    reply: result.reply,
                    tokens: result.tokens,
                    ms: result.ms,
                    tok_per_s: pace(result.tokens as u64, result.ms),
                })
                &&& result.ms == 0 ==> res->tok_per_s is None
                &&& result.ms > 0 ==> res->tok_per_s == Some(
                    Rate { tokens: result.tokens as u64, ms: result.ms },
                )
                &&& final(stats)@.requests == (old(stats)@.requests + 1) % 0x1_0000_0000_0000_0000
                &&& final(stats)@.tokens == (old(stats)@.tokens + result.tokens)
                    % 0x1_0000_0000_0000_0000
                &&& final(stats)@.total_ms == (old(stats)@.total_ms + result.ms as int
                    % 0x1_0000_0000_0000_0000) % 0x1_0000_0000_0000_0000
                &&& final(stats)@ == counted(
                    old(stats)@,
                    result.tokens as u64,
                    (result.ms as int % modulus()) as u64,
                )
            },
            Err(reason) => {
                &&& res == (ChatAnswer::Failure { status: BAD_GATEWAY, reason })
                &&& res->status == 502
                &&& *final(stats) == *old(stats)
            },
        },
        final(stats).started() == old(stats).started(),
{
    match outcome {
        Ok(result) => {
            let pace = result.tok_per_s();
            stats.record(result.tokens as u64, low_bits(result.ms));
            ChatAnswer::Reply {
                reply: result.reply,
                tokens: result.tokens,
                ms: result.ms,
                tok_per_s: pace,
            }
        },
        Err(reason) => ChatAnswer::Failure { status: BAD_GATEWAY, reason },
    }
}

/// An event for the browser, mathematically.
pub ghost struct Sent {
    pub event: Option<Seq<char>>,
    pub data: Seq<char>,
}

/// An event for the browser. A piece of the reply comes without a name.
#[derive(Debug, PartialEq)]
pub struct StreamEvent {
    pub event: Option<&'static str>,
    pub data: String,
}

impl View for StreamEvent {
    type V = Sent;

    open spec fn view(&self) -> Sent {
        Sent {
            event: match self.event {
                Some(name) => Some(name@),
                None => None,
            },
            data: self.data@,
        }
    }
}

/// The view of what comes of a reply: a piece, or a failure.
pub open spec fn item_chars(item: Result<String, String>) -> Result<Seq<char>, Seq<char>> {
    match item {
        Ok(piece) => Ok(piece@),
        Err(reason) => Err(reason@),
    }
}

/// The event for a piece of the reply, or for a failure.
pub open spec fn item_event(item: Result<Seq<char>, Seq<char>>) -> Sent {
    match item {
        Ok(piece) => Sent { event: None, data: piece },
        Err(reason) => Sent { event: Some("error"@), data: reason },
    }
}

/// The number of pieces once this has come too.
pub open spec fn with_item(count: nat, item: Result<Seq<char>, Seq<char>>) -> nat {
    if item is Ok {
        count + 1
    } else {
        count
    }
}

/// A reply that is passed on piece by piece, with the number of its pieces so far.
#[derive(Debug, PartialEq)]
pub struct ChatStream {
    count: u64,
}

impl View for ChatStream {
    type V = nat;

    closed spec fn view(&self) -> nat {
        self.count as nat
    }
}

impl ChatStream {
    /// A reply of which nothing has come yet.
    pub fn new() -> (res: ChatStream)
        ensures
            res@ == 0,
    {
        ChatStream { count: 0 }
    }

    /// How many pieces have come.
    pub fn count(&self) -> (res: u64)
        ensures
            res == self@,
    {
        self.count
    }

    /// Passes on a piece, which is counted, or a failure, which is not.
    pub fn pass(&mut self, item: Result<String, String>) -> (res: StreamEvent)
        requires
            item is Ok ==> old(self)@ < u64::MAX,
        ensures
            res@ == item_event(item_chars(item)),
            final(self)@ == with_item(old(self)@, item_chars(item)),
            match item {
                Ok(piece) => {
                    &&& res.event is None
                    &&& res.data@ == piece@
                    &&& final(self)@ == old(self)@ + 1
                },
                Err(reason) => {
                    &&& res.event matches Some(name) && name@ == "error"@
                    &&& res.data@ == reason@
                    &&& final(self)@ == old(self)@
                },
            },
    {
        match item {
            Ok(piece) => {
                self.count += 1;
                StreamEvent { event: None, data: piece }
            },
            Err(reason) => StreamEvent { event: Some("error"), data: reason },
        }
    }

    /// Ends the reply after `ms` milliseconds: its pieces are counted as tokens,
    /// and the browser is told how many there were.
    pub fn finish(self, stats: &mut Stats, ms: u128) -> (res: StreamEvent)
        ensures
            res@ == (Sent { event: Some("done"@), data: decimal(self@) }),
            res.event matches Some(name) && name@ == "done"@,
            number(res.data@) == self@,
            final(stats)@.requests == (old(stats)@.requests + 1) % 0x1_0000_0000_0000_0000,
            final(stats)@.tokens == (old(stats)@.tokens + self@) % 0x1_0000_0000_0000_0000,
            final(stats)@.total_ms == (old(stats)@.total_ms + ms as int % 0x1_0000_0000_0000_0000)
                % 0x1_0000_0000_0000_0000,
            final(stats)@ == counted(
                old(stats)@,
                self@ as u64,
                (ms as int % modulus()) as u64,
            ),
            final(stats).started() == old(stats).started(),
    {
        proof {
            lemma_decimal(self@);
        }
        stats.record(self.count, low_bits(ms));
        StreamEvent { event: Some("done"), data: decimal_of(self.count as u128) }
    }
}

/// How many pieces are counted of all that comes.
pub open spec fn pieces_counted(items: Seq<Result<Seq<char>, Seq<char>>>) -> nat
    decreases items.len(),
{
    if items.len() == 0 {
        0
    } else {
        with_item(pieces_counted(items.drop_last()), items.last())
    }
}

/// Failures do not count: what is counted are the pieces that came.
pub proof fn lemma_failures_do_not_count(items: Seq<Result<Seq<char>, Seq<char>>>)
    ensures
        pieces_counted(items) == items.filter(|item: Result<Seq<char>, Seq<char>>| item is Ok).len(),
    decreases items.len(),
{
    reveal(Seq::filter);
    if items.len() > 0 {
        lemma_failures_do_not_count(items.drop_last());
    }
}

/// A piece of the reply goes to the browser as it stands, without a name, and a
/// failure goes there as an error, with its reason; only pieces are counted.
pub proof fn lemma_item(count: nat, text: Seq<char>)
    ensures
        item_event(Ok(text)).event is None,
        item_event(Ok(text)).data == text,
        item_event(Err(text)).event == Some("error"@),
        item_event(Err(text)).data == text,
        with_item(count, Ok(text)) == count + 1,
        with_item(count, Err(text)) == count,
{
}

/// The views of what comes and of what is sent have their texts as they stand.
pub proof fn lemma_stream_views(sent: StreamEvent, text: String)
    ensures
        item_chars(Ok(text)) == Ok::<Seq<char>, Seq<char>>(text@),
        item_chars(Err(text)) == Err::<Seq<char>, Seq<char>>(text@),
        sent@.data == sent.data@,
        sent.event is None ==> sent@.event is None,
        sent.event matches Some(name) ==> sent@.event == Some(name@),
{
}

} // verus!
