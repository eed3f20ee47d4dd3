//! Counters of the work done so far, kept in memory.

use std::time::Instant;

use vstd::prelude::*;

verus! {

/// `std::time::Instant`, a reading of a monotonic clock.
#[verifier::external_type_specification]
#[verifier::external_body]
pub struct ExInstant(Instant);

/// `Instant::now` reads the clock; nothing is known of what it says.
pub assume_specification[ Instant::now ]() -> Instant;

/// `Instant::elapsed`, in whole seconds. It depends on the time of the call, so
/// nothing is known of it.
#[verifier::external_body]
fn seconds_since(start: &Instant) -> u64 {
    start.elapsed().as_secs()
}

/// How many different values a counter has.
pub open spec fn modulus() -> int {
    0x1_0000_0000_0000_0000
}

/// A pace: so many tokens in so many milliseconds.
#[derive(Clone, Copy, Debug, PartialEq, Eq)]
pub struct Rate {
    pub tokens: u64,
    pub ms: u128,
}

/// The pace of `tokens` in `ms` milliseconds; there is none where no time passed.
pub open spec fn pace(tokens: u64, ms: u128) -> Option<Rate> {
    if ms == 0 {
        None
    } else {
        Some(Rate { tokens, ms })
    }
}

/// The pace of `tokens` in `ms` milliseconds.
pub fn rate(tokens: u64, ms: u128) -> (res: Option<Rate>)
    ensures
        res == pace(tokens, ms),
        ms == 0 ==> res is None,
        ms != 0 ==> res == Some(Rate { tokens, ms }),
{
    if ms == 0 {
        None
    } else {
        Some(Rate { tokens, ms })
    }
}

/// What the counters say.
pub ghost struct Totals {
    pub requests: u64,
    pub tokens: u64,
    pub total_ms: u64,
}

/// Counters at zero.
pub open spec fn no_totals() -> Totals {
    Totals { requests: 0, tokens: 0, total_ms: 0 }
}

/// The counters after one more request. They start over at zero when they overflow.
pub open spec fn counted(t: Totals, tokens: u64, ms: u64) -> Totals {
    Totals {
        requests: ((t.requests + 1) % modulus()) as u64,
        tokens: ((t.tokens + tokens) % modulus()) as u64,
        total_ms: ((t.total_ms + ms) % modulus()) as u64,
    }
}

/// Counters of requests, tokens and time, and the moment they were started.
pub struct Stats {
    requests: u64,
    tokens: u64,
    total_ms: u64,
    start: Instant,
}

/// The state of the counters at one moment.
#[derive(Clone, Copy, Debug, PartialEq, Eq)]
pub struct Snapshot {
    pub requests: u64,
    pub tokens: u64,
    pub avg_tok_per_s: Option<Rate>,
    pub uptime_s: u64,
}

/// What a snapshot shows of the counters, `uptime_s` seconds after their start.
pub open spec fn shown(t: Totals, uptime_s: u64) -> Snapshot {
    Snapshot {
        requests: t.requests,
        tokens: t.tokens,
        avg_tok_per_s: pace(t.tokens, t.total_ms as u128),
        uptime_s,
    }
}

impl View for Stats {
    type V = Totals;

    closed spec fn view(&self) -> Totals {
        Totals { requests: self.requests, tokens: self.tokens, total_ms: self.total_ms }
    }
}

impl Stats {
    /// The moment at which the counters were started.
    pub closed spec fn started(&self) -> Instant {
        self.start
    }

    /// Counters at zero, started now.
    pub fn new() -> (res: Self)
        ensures
            res@ == no_totals(),
            res@.requests == 0 && res@.tokens == 0 && res@.total_ms == 0,
    {
        Self { requests: 0, tokens: 0, total_ms: 0, start: Instant::now() }
    }

    /// Counts one request that brought `tokens` tokens in `ms` milliseconds.
    pub fn record(&mut self, tokens: u64, ms: u64)
        ensures
            final(self)@ == counted(old(self)@, tokens, ms),
            final(self)@.requests == (old(self)@.requests + 1) % 0x1_0000_0000_0000_0000,
            final(self)@.tokens == (old(self)@.tokens + tokens) % 0x1_0000_0000_0000_0000,
            final(self)@.total_ms == (old(self)@.total_ms + ms) % 0x1_0000_0000_0000_0000,
            final(self).started() == old(self).started(),
    {
        self.requests = self.requests.wrapping_add(1);
        self.tokens = self.tokens.wrapping_add(tokens);
        self.total_ms = self.total_ms.wrapping_add(ms);
    }

    /// The state of the counters `uptime_s` seconds after their start.
    pub fn snapshot_at(&self, uptime_s: u64) -> (res: Snapshot)
        ensures
            res == shown(self@, uptime_s),
            res.requests == self@.requests,
            res.tokens == self@.tokens,
            res.uptime_s == uptime_s,
            self@.total_ms == 0 ==> res.avg_tok_per_s is None,
            self@.total_ms > 0 ==> res.avg_tok_per_s == Some(
                Rate { tokens: self@.tokens, ms: self@.total_ms as u128 },
            ),
    {
        Snapshot {
            requests: self.requests,
            tokens: self.tokens,
            avg_tok_per_s: rate(self.tokens, self.total_ms as u128),
            uptime_s,
        }
    }

    /// The state of the counters now. How long they have been running depends on
    /// the clock, and no clause speaks of it.
    pub fn snapshot(&self) -> (res: Snapshot)
        ensures
            res == shown(self@, res.uptime_s),
    {
        self.snapshot_at(seconds_since(&self.start))
    }
}

/// The counters after a list of requests, each with its tokens and milliseconds.
pub open spec fn counted_all(t: Totals, requests: Seq<(u64, u64)>) -> Totals
    decreases requests.len(),
{
    if requests.len() == 0 {
        t
    } else {
        counted(
            counted_all(t, requests.drop_last()),
            requests.last().0,
            requests.last().1,
        )
    }
}

/// The tokens of a list of requests.
pub open spec fn token_sum(requests: Seq<(u64, u64)>) -> int
    decreases requests.len(),
{
    if requests.len() == 0 {
        0
    } else {
        token_sum(requests.drop_last()) + requests.last().0
    }
}

/// The milliseconds of a list of requests.
pub open spec fn ms_sum(requests: Seq<(u64, u64)>) -> int
    decreases requests.len(),
{
    if requests.len() == 0 {
        0
    } else {
        ms_sum(requests.drop_last()) + requests.last().1
    }
}

/// No request is lost: the counters grow by the number of requests, the sum of
/// their tokens and the sum of their times, as far as the counters reach.
pub proof fn lemma_nothing_lost(t: Totals, requests: Seq<(u64, u64)>)
    ensures
        counted_all(t, requests).requests == (t.requests + requests.len()) % modulus(),
        counted_all(t, requests).tokens == (t.tokens + token_sum(requests)) % modulus(),
        counted_all(t, requests).total_ms == (t.total_ms + ms_sum(requests)) % modulus(),
    decreases requests.len(),
{
    let m = modulus();
    if requests.len() > 0 {
        let front = requests.drop_last();
        lemma_nothing_lost(t, front);
        vstd::arithmetic::div_mod::lemma_add_mod_noop(t.requests + front.len(), 1, m);
        vstd::arithmetic::div_mod::lemma_add_mod_noop(
            t.tokens + token_sum(front),
            requests.last().0 as int,
            m,
        );
        vstd::arithmetic::div_mod::lemma_add_mod_noop(
            t.total_ms + ms_sum(front),
            requests.last().1 as int,
            m,
        );
    }
}

/// The order in which two requests are counted makes no difference.
pub proof fn lemma_order_of_requests(t: Totals, a: (u64, u64), b: (u64, u64))
    ensures
        counted(counted(t, a.0, a.1), b.0, b.1) == counted(counted(t, b.0, b.1), a.0, a.1),
{
    lemma_two_steps(t.requests, 1, 1);
    lemma_two_steps(t.tokens, a.0, b.0);
    lemma_two_steps(t.tokens, b.0, a.0);
    lemma_two_steps(t.total_ms, a.1, b.1);
    lemma_two_steps(t.total_ms, b.1, a.1);
}

/// Counting in two steps is counting in one.
proof fn lemma_two_steps(x: u64, a: u64, b: u64)
    ensures
        ((((x + a) % modulus()) as u64) + b) % modulus() == (x + a + b) % modulus(),
{
    vstd::arithmetic::div_mod::lemma_add_mod_noop(x + a, b as int, modulus());
}

/// One request counted, as a step of a fold.
spec fn counting() -> spec_fn(Totals, (u64, u64)) -> Totals {
    |t: Totals, r: (u64, u64)| counted(t, r.0, r.1)
}

proof fn lemma_counted_all_folds(t: Totals, requests: Seq<(u64, u64)>)
    ensures
        counted_all(t, requests) == requests.fold_left(t, counting()),
    decreases requests.len(),
{
    if requests.len() > 0 {
        lemma_counted_all_folds(t, requests.drop_last());
    }
}

/// The order in which requests are counted makes no difference.
pub proof fn lemma_any_order(t: Totals, one: Seq<(u64, u64)>, other: Seq<(u64, u64)>)
    requires
        one.to_multiset() == other.to_multiset(),
    ensures
        counted_all(t, one) == counted_all(t, other),
{
    assert forall|x: (u64, u64), y: (u64, u64), v: Totals| #[trigger]
        counting()(counting()(v, x), y) == counting()(counting()(v, y), x) by {
        lemma_order_of_requests(v, x, y);
    }
    vstd::seq_lib::lemma_fold_left_permutation(one, other, counting(), t);
    lemma_counted_all_folds(t, one);
    lemma_counted_all_folds(t, other);
}

/// Several recorders lose nothing to one another: however their requests are
/// mixed, a snapshot taken after all of them shows the earlier totals plus the
/// requests, the tokens and the time of them all, while the counters have room.
pub proof fn lemma_recorders_together(
    t: Totals,
    recorders: Seq<Seq<(u64, u64)>>,
    mixed: Seq<(u64, u64)>,
    uptime_s: u64,
)
    requires
        mixed.to_multiset() == recorders.flatten().to_multiset(),
        t.requests + recorders.flatten().len() < modulus(),
        t.tokens + token_sum(recorders.flatten()) < modulus(),
        t.total_ms + ms_sum(recorders.flatten()) < modulus(),
    ensures
        shown(counted_all(t, mixed), uptime_s) == (Snapshot {
            requests: (t.requests + recorders.flatten().len()) as u64,
            tokens: (t.tokens + token_sum(recorders.flatten())) as u64,
            avg_tok_per_s: pace(
                (t.tokens + token_sum(recorders.flatten())) as u64,
                (t.total_ms + ms_sum(recorders.flatten())) as u128,
            ),
            uptime_s,
        }),
{
    let all = recorders.flatten();
    lemma_any_order(t, mixed, all);
    lemma_nothing_lost(t, all);
    lemma_sums(all);
    vstd::arithmetic::div_mod::lemma_small_mod((t.requests + all.len()) as nat, modulus() as nat);
    vstd::arithmetic::div_mod::lemma_small_mod(
        (t.tokens + token_sum(all)) as nat,
        modulus() as nat,
    );
    vstd::arithmetic::div_mod::lemma_small_mod((t.total_ms + ms_sum(all)) as nat, modulus() as nat);
}

proof fn lemma_sums(requests: Seq<(u64, u64)>)
    ensures
        token_sum(requests) >= 0,
        ms_sum(requests) >= 0,
    decreases requests.len(),
{
    if requests.len() > 0 {
        lemma_sums(requests.drop_last());
    }
}

/// A pace is so many tokens in so much time, unless no time passed.
pub proof fn lemma_pace(tokens: u64, ms: u128)
    ensures
        ms == 0 ==> pace(tokens, ms) is None,
        ms > 0 ==> pace(tokens, ms) is Some && pace(tokens, ms)->0.tokens == tokens && pace(
            tokens,
            ms,
        )->0.ms == ms,
{
}

/// A request adds one to the requests, its tokens to the tokens and its time to
/// the time, while the counters have room; where one has none, it starts over.
pub proof fn lemma_one_request(t: Totals, tokens: u64, ms: u64)
    ensures
        t.requests < u64::MAX ==> counted(t, tokens, ms).requests == t.requests + 1,
        t.requests == u64::MAX ==> counted(t, tokens, ms).requests == 0,
        t.tokens + tokens <= u64::MAX ==> counted(t, tokens, ms).tokens == t.tokens + tokens,
        t.tokens + tokens > u64::MAX ==> counted(t, tokens, ms).tokens == t.tokens + tokens
            - u64::MAX - 1,
        t.total_ms + ms <= u64::MAX ==> counted(t, tokens, ms).total_ms == t.total_ms + ms,
        t.total_ms + ms > u64::MAX ==> counted(t, tokens, ms).total_ms == t.total_ms + ms
            - u64::MAX - 1,
{
}

/// A snapshot shows the counters as they are, and the pace over all of the time.
pub proof fn lemma_shown(t: Totals, uptime_s: u64)
    ensures
        shown(t, uptime_s).requests == t.requests,
        shown(t, uptime_s).tokens == t.tokens,
        shown(t, uptime_s).uptime_s == uptime_s,
        t.total_ms == 0 ==> shown(t, uptime_s).avg_tok_per_s is None,
        t.total_ms > 0 ==> shown(t, uptime_s).avg_tok_per_s is Some && shown(
            t,
            uptime_s,
        ).avg_tok_per_s->0.tokens == t.tokens && shown(t, uptime_s).avg_tok_per_s->0.ms
            == t.total_ms,
{
}

} // verus!
