//! Conversations kept on disk, each in a JSON file of its own.

use std::time::UNIX_EPOCH;

use vstd::prelude::*;
use vstd::string::*;

use crate::json::{docs, text_member, Doc, Json};
use crate::order::{peer, ranked, rearranged, sorted, views, Ranked};
use crate::text::{
    blank, chars_of, decimal, decimal_of, lemma_decimal, lemma_decimal_digits,
    lemma_trimmed_blank, number, same_text, text_of, trim, trimmed,
};

verus! {

/// A conversation in brief, mathematically.
pub ghost struct Card {
    pub id: Seq<char>,
    pub title: Seq<char>,
    pub ts: u64,
    pub count: nat,
}

/// A conversation in brief.
#[derive(Debug, PartialEq)]
pub struct Meta {
    pub id: String,
    pub title: String,
    /// When it was saved, in milliseconds since 1970.
    pub ts: u64,
    /// How many messages it has.
    pub count: usize,
}

impl View for Meta {
    type V = Card;

    open spec fn view(&self) -> Card {
        Card { id: self.id@, title: self.title@, ts: self.ts, count: self.count as nat }
    }
}

/// A conversation.
#[derive(Debug, PartialEq)]
pub struct Conversation {
    pub id: String,
    pub title: String,
    /// When it was saved, in milliseconds since 1970.
    pub ts: u64,
    /// The list of its messages.
    pub messages: Json,
}

/// What can go wrong with a conversation.
#[derive(Debug, PartialEq)]
pub enum HistoryError {
    /// Its id cannot be the name of a file.
    BadId,
    /// It cannot be read, for this reason.
    NotFound { id: String, reason: String },
}

impl HistoryError {
    /// What the user is told.
    pub fn message(&self) -> (res: String)
        ensures
            res@ == (match self {
                HistoryError::BadId => "некорректный id диалога"@,
                HistoryError::NotFound { id, reason } => "не найден диалог «"@ + id@ + "»: "@
                    + reason@,
            }),
    {
        match self {
            HistoryError::BadId => "некорректный id диалога".to_owned(),
            HistoryError::NotFound { id, reason } => {
                let mut text = "не найден диалог «".to_owned();
                text.append(id.as_str());
                text.append("»: ");
                text.append(reason.as_str());
                text
            },
        }
    }
}

/// The directory of the conversations.
pub fn dir() -> (res: &'static str)
    ensures
        res@ == "data/conversations"@,
{
    "data/conversations"
}

/// The characters of an id: ASCII letters and digits, and the hyphen.
pub open spec fn id_char(c: char) -> bool {
    ||| '0' <= c <= '9'
    ||| 'A' <= c <= 'Z'
    ||| 'a' <= c <= 'z'
    ||| c == '-'
}

/// Whether this can be the id of a conversation.
pub open spec fn valid_id(id: Seq<char>) -> bool {
    id.len() > 0 && forall|i: int| 0 <= i < id.len() ==> id_char(#[trigger] id[i])
}

/// The file of a conversation.
pub open spec fn file_of(id: Seq<char>) -> Seq<char> {
    "data/conversations"@ + "/"@ + id + ".json"@
}

/// The file of the conversation `id`. An id that could lead out of the directory
/// is refused.
pub fn path_for(id: &str) -> (res: Result<String, HistoryError>)
    ensures
        match res {
            Ok(path) => valid_id(id@) && path@ == file_of(id@),
            Err(e) => !valid_id(id@) && e == HistoryError::BadId,
        },
{
    let chars = chars_of(id);
    if chars.len() == 0 {
        return Err(HistoryError::BadId);
    }
    let mut i: usize = 0;
    while i < chars.len()
        invariant
            chars@ == id@,
            i <= chars@.len(),
            forall|j: int| 0 <= j < i ==> id_char(#[trigger] id@[j]),
        decreases chars@.len() - i,
    {
        let c = chars[i];
        if !(('0' <= c && c <= '9') || ('A' <= c && c <= 'Z') || ('a' <= c && c <= 'z') || c == '-') {
            proof {
                assert(!id_char(id@[i as int]));
            }
            return Err(HistoryError::BadId);
        }
        i += 1;
    }
    let mut path = dir().to_owned();
    path.append("/");
    path.append(id);
    path.append(".json");
    Ok(path)
}

/// Whether a file with this name holds a conversation: its extension is `json`.
pub fn is_conversation_file(name: &str) -> (res: bool)
    ensures
        res == (name@.len() > ".json"@.len() && ".json"@.is_suffix_of(name@)),
{
    let chars = chars_of(name);
    let extension = chars_of(".json");
    if chars.len() <= extension.len() {
        return false;
    }
    let tail = text_of(&chars, chars.len() - extension.len(), chars.len());
    same_text(tail.as_str(), ".json")
}

/// The most characters of a title.
pub const TITLE_CHARS: usize = 60;

/// The beginning of a text, as long as a title may be.
pub open spec fn title_part(content: Option<Seq<char>>) -> Seq<char> {
    match content {
        Some(s) => if s.len() > TITLE_CHARS {
            s.take(TITLE_CHARS as int)
        } else {
            s
        },
        None => Seq::empty(),
    }
}

/// The title that a message gives: the beginning of what the user says, unless
/// it is blank.
pub open spec fn title_of(message: Doc) -> Option<Seq<char>> {
    if text_member(message, "role"@) == Some("user"@) {
        let part = title_part(text_member(message, "content"@));
        if trimmed(part).len() == 0 {
            None
        } else {
            Some(part)
        }
    } else {
        None
    }
}

/// The title of a list of messages: the first that one of them gives.
pub open spec fn first_title(messages: Seq<Doc>) -> Seq<char>
    decreases messages.len(),
{
    if messages.len() == 0 {
        "(без названия)"@
    } else {
        match title_of(messages[0]) {
            Some(title) => title,
            None => first_title(messages.drop_first()),
        }
    }
}

/// The title of a conversation.
pub open spec fn title(messages: Doc) -> Seq<char> {
    match messages {
        Doc::Array(items) => first_title(items),
        _ => "(без названия)"@,
    }
}

/// How many messages there are; none where it is no list.
pub open spec fn message_count(messages: Doc) -> nat {
    match messages {
        Doc::Array(items) => items.len(),
        _ => 0,
    }
}

/// The beginning of a text, as long as a title may be.
fn beginning(s: &str) -> (res: String)
    ensures
        res@ == title_part(Some(s@)),
{
    let chars = chars_of(s);
    if chars.len() > TITLE_CHARS {
        let res = text_of(&chars, 0, TITLE_CHARS);
        proof {
            assert(res@ =~= s@.take(TITLE_CHARS as int));
        }
        res
    } else {
        s.to_owned()
    }
}

/// The title of a conversation: the beginning of the first thing the user says.
pub fn title_from(messages: &Json) -> (res: String)
    ensures
        res@ == title(messages@),
{
    let items = match messages.as_array() {
        Some(items) => items,
        None => return "(без названия)".to_owned(),
    };
    let ghost all = docs(items@);
    let mut i: usize = 0;
    proof {
        assert(all.skip(0) =~= all);
    }
    while i < items.len()
        invariant
            all == docs(items@),
            i <= items@.len(),
            messages@ == Doc::Array(all),
            first_title(all) == first_title(all.skip(i as int)),
        decreases items@.len() - i,
    {
        proof {
            assert(all[i as int] == items@[i as int]@);
            assert(all.skip(i as int)[0] == all[i as int]);
            assert(all.skip(i as int).drop_first() =~= all.skip(i + 1));
        }
        let from_user = match items[i].get_str("role") {
            Some(role) => same_text(role, "user"),
            None => false,
        };
        if from_user {
            let part = match items[i].get_str("content") {
                Some(content) => beginning(content),
                None => String::new(),
            };
            let bare = trim(part.as_str());
            if !bare.as_str().is_empty() {
                return part;
            }
        }
        i += 1;
    }
    "(без названия)".to_owned()
}

/// `SystemTime::elapsed` of `UNIX_EPOCH`, in milliseconds: the time since 1970 by
/// the system clock, where the clock is not before that. Nothing is known of it.
#[verifier::external_body]
fn since_epoch() -> Option<u128> {
    UNIX_EPOCH.elapsed().ok().map(|d| d.as_millis())
}

/// A time as it is written down: the milliseconds since 1970, their low 64 bits;
/// zero for an earlier time.
pub fn clock_ms(since: Option<u128>) -> (res: u64)
    ensures
        res == (match since {
            Some(ms) => ms as int % 0x1_0000_0000_0000_0000,
            None => 0,
        }),
{
    match since {
        Some(ms) => {
            let low = ms as u64;
            proof {
                assert(ms as u64 == ms % 0x1_0000_0000_0000_0000u128) by (bit_vector);
            }
            low
        },
        None => 0,
    }
}

/// The time now, in milliseconds since 1970. It is what the clock says, and no
/// clause speaks of it.
pub fn now_ms() -> u64 {
    clock_ms(since_epoch())
}

/// A conversation that is to be written, and the file that it goes to.
#[derive(Debug, PartialEq)]
pub struct Saved {
    pub path: String,
    pub conversation: Conversation,
}

/// The id of a conversation without one, first saved at this time.
pub open spec fn new_id(ms: u64) -> Seq<char> {
    "c"@ + decimal(ms as nat)
}

/// The id under which a conversation is saved: its own, or a new one.
pub open spec fn id_for(id: Option<String>, ms: u64) -> Seq<char> {
    match id {
        Some(s) => if s@.len() == 0 {
            new_id(ms)
        } else {
            s@
        },
        None => new_id(ms),
    }
}

/// Whether a conversation comes with an id that cannot be one.
pub open spec fn own_id_refused(id: Option<String>) -> bool {
    match id {
        Some(s) => s@.len() > 0 && !valid_id(s@),
        None => false,
    }
}

/// The conversation to be written for these messages, in the file of its id.
pub open spec fn saved_as(saved: Saved, id: Seq<char>, messages: Doc, ts: u64) -> bool {
    &&& saved.path@ == file_of(id)
    &&& saved.conversation.id@ == id
    &&& saved.conversation.title@ == title(messages)
    &&& saved.conversation.ts == ts
    &&& saved.conversation.messages@ == messages
}

/// Prepares a conversation for saving: `id_ms` is the time that makes a new id,
/// `ts` the time of saving.
pub fn save_at(id: Option<String>, messages: Json, id_ms: u64, ts: u64) -> (res: Result<
    Saved,
    HistoryError,
>)
    ensures
        match res {
            Ok(saved) => valid_id(id_for(id, id_ms)) && saved_as(
                saved,
                id_for(id, id_ms),
                messages@,
                ts,
            ),
            Err(e) => !valid_id(id_for(id, id_ms)) && e == HistoryError::BadId,
        },
{
    let own = match id {
        Some(s) => s,
        None => String::new(),
    };
    let id = if own.as_str().is_empty() {
        let digits = decimal_of(id_ms as u128);
        let mut text = "c".to_owned();
        text.append(digits.as_str());
        text
    } else {
        own
    };
    let title = title_from(&messages);
    match path_for(id.as_str()) {
        Ok(path) => Ok(
            Saved { path, conversation: Conversation { id, title, ts, messages } },
        ),
        Err(e) => Err(e),
    }
}

/// Prepares a conversation for saving now. A conversation without an id gets a
/// new one, made of the time.
pub fn save(id: Option<String>, messages: Json) -> (res: Result<Saved, HistoryError>)
    ensures
        match res {
            Ok(saved) => exists|id_ms: u64, ts: u64|
                valid_id(#[trigger] id_for(id, id_ms)) && #[trigger] saved_as(
                    saved,
                    id_for(id, id_ms),
                    messages@,
                    ts,
                ),
            Err(e) => e == HistoryError::BadId,
        },
        res is Err <==> own_id_refused(id),
{
    let id_ms = now_ms();
    let ts = now_ms();
    proof {
        lemma_new_id_valid(id_ms);
    }
    save_at(id, messages, id_ms, ts)
}

/// The failure to read the conversation `id`.
pub fn load_failure(id: &str, reason: &str) -> (res: HistoryError)
    ensures
        res matches HistoryError::NotFound { id: i, reason: r } && i@ == id@ && r@ == reason@,
{
    HistoryError::NotFound { id: id.to_owned(), reason: reason.to_owned() }
}

/// A conversation in brief.
pub open spec fn card(conversation: Conversation) -> Card {
    Card {
        id: conversation.id@,
        title: conversation.title@,
        ts: conversation.ts,
        count: message_count(conversation.messages@),
    }
}

/// Conversations in brief.
pub open spec fn cards(conversations: Seq<Conversation>) -> Seq<Card> {
    Seq::new(conversations.len(), |i: int| card(conversations[i]))
}

impl Ranked for Meta {
    open spec fn not_after(a: Card, b: Card) -> bool {
        a.ts >= b.ts
    }

    proof fn lemma_total(a: Card, b: Card) {
    }

    proof fn lemma_transitive(a: Card, b: Card, c: Card) {
    }

    fn may_precede(&self, other: &Self) -> (res: bool) {
        self.ts >= other.ts
    }
}

/// The list of conversations, the newest first. Those of one time stay in the
/// order in which they were found.
pub fn list(conversations: Vec<Conversation>) -> (res: Vec<Meta>)
    ensures
        ranked::<Meta>(views(res@)),
        rearranged::<Meta>(cards(conversations@), views(res@)),
        res@.len() == conversations@.len(),
        forall|i: int, j: int| 0 <= i < j < res@.len() ==> res@[i].ts >= res@[j].ts,
{
    let ghost all = conversations@;
    let mut out: Vec<Meta> = Vec::new();
    for conversation in it: conversations
        invariant
            it.seq() == all,
            views(out@) =~= cards(all).take(it.index() as int),
    {
        let ghost done = out@;
        proof {
            assert(conversation == all[it.index() as int]);
        }
        let count = match conversation.messages.as_array() {
            Some(items) => items.len(),
            None => 0,
        };
        let meta = Meta {
            id: conversation.id,
            title: conversation.title,
            ts: conversation.ts,
            count,
        };
        out.push(meta);
        proof {
            assert(views(out@) =~= views(done).push(meta@));
        }
    }
    proof {
        assert(views(out@) =~= cards(all));
    }
    let res = sorted(out);
    proof {
        lemma_newest_first(cards(all), views(res@));
        assert(views(res@).to_multiset().len() == views(res@).len()) by {
            views(res@).to_multiset_ensures();
        }
        cards(all).to_multiset_ensures();
        assert forall|i: int, j: int| 0 <= i < j < res@.len() implies res@[i].ts
            >= res@[j].ts by {
            assert(views(res@)[i].ts >= views(res@)[j].ts);
        }
    }
    res
}

/// An id made of the time is valid: saving without an id never fails.
pub proof fn lemma_new_id_valid(ms: u64)
    ensures
        valid_id(new_id(ms)),
{
    reveal_strlit("c");
    lemma_decimal_digits(ms as nat);
    let id = new_id(ms);
    assert forall|i: int| 0 <= i < id.len() implies id_char(#[trigger] id[i]) by {
        if i > 0 {
            assert(id[i] == decimal(ms as nat)[i - 1]);
        }
    }
}

/// What was saved is found again: its id leads to the file that it went to, and
/// saving under that id, at whatever time, goes to the same file.
pub proof fn lemma_saved_is_found(
    saved: Saved,
    id: Seq<char>,
    messages: Doc,
    ts: u64,
    later_ms: u64,
)
    requires
        valid_id(id),
        saved_as(saved, id, messages, ts),
    ensures
        valid_id(saved.conversation.id@),
        file_of(saved.conversation.id@) == saved.path@,
        id_for(Some(saved.conversation.id), later_ms) == saved.conversation.id@,
{
}

/// No conversation leads out of the directory: behind it the path of its file
/// holds no separator, and no dot but the one of the extension.
pub proof fn lemma_file_stays_inside(id: Seq<char>)
    requires
        valid_id(id),
    ensures
        file_of(id).take("data/conversations/"@.len() as int) == "data/conversations/"@,
        forall|i: int|
            "data/conversations/"@.len() <= i < file_of(id).len() ==> {
                &&& #[trigger] file_of(id)[i] != '/'
                &&& file_of(id)[i] != '\\'
                &&& file_of(id)[i] == '.' ==> i == file_of(id).len() - ".json"@.len()
            },
{
    reveal_strlit("data/conversations");
    reveal_strlit("data/conversations/");
    reveal_strlit("/");
    reveal_strlit(".json");
    let path = file_of(id);
    let start = "data/conversations/"@.len() as int;
    assert(path.take(start) =~= "data/conversations/"@);
    assert forall|i: int| start <= i < path.len() implies {
        &&& #[trigger] path[i] != '/'
        &&& path[i] != '\\'
        &&& path[i] == '.' ==> i == path.len() - ".json"@.len()
    } by {
        if i < start + id.len() {
            assert(path[i] == id[i - start]);
            assert(id_char(id[i - start]));
        } else {
            assert(path[i] == ".json"@[i - start - id.len()]);
        }
    }
}

/// Different conversations have different files.
pub proof fn lemma_files_differ(a: Seq<char>, b: Seq<char>)
    requires
        file_of(a) == file_of(b),
    ensures
        a == b,
{
    let front = "data/conversations"@ + "/"@;
    let n = front.len() as int;
    assert(file_of(a).len() == n + a.len() + ".json"@.len());
    assert(file_of(b).len() == n + b.len() + ".json"@.len());
    assert(file_of(a).subrange(n, n + a.len()) =~= a);
    assert(file_of(b).subrange(n, n + b.len()) =~= b);
}

/// The characters of an id, by their codes.
pub proof fn lemma_id_char(c: char)
    ensures
        id_char(c) <==> {
            let n = c as int;
            ||| 48 <= n <= 57
            ||| 65 <= n <= 90
            ||| 97 <= n <= 122
            ||| n == 45
        },
{
}

/// The first 60 characters of a text, or all of them where there are fewer.
pub open spec fn first_sixty(s: Seq<char>) -> Seq<char> {
    s.take(vstd::math::min(60, s.len() as int))
}

/// Whether a message gives a title: it is from the user, and the beginning of its
/// text is not blank.
pub open spec fn gives_title(message: Doc) -> bool {
    &&& text_member(message, "role"@) == Some("user"@)
    &&& text_member(message, "content"@) is Some
    &&& !blank(first_sixty(text_member(message, "content"@)->0))
}

proof fn lemma_title_of(message: Doc)
    ensures
        gives_title(message) ==> title_of(message) == Some(
            first_sixty(text_member(message, "content"@)->0),
        ),
        !gives_title(message) ==> title_of(message) is None,
{
    let content = text_member(message, "content"@);
    let part = title_part(content);
    lemma_trimmed_blank(part);
    if let Some(s) = content {
        assert(part =~= first_sixty(s));
    }
}

/// The title is given by the earliest message that gives one: it is the beginning
/// of its text. It is the same whatever messages come later.
pub proof fn lemma_earliest_message_gives_title(messages: Seq<Doc>, i: int)
    requires
        0 <= i < messages.len(),
        gives_title(messages[i]),
        forall|j: int| 0 <= j < i ==> !gives_title(#[trigger] messages[j]),
    ensures
        title(Doc::Array(messages)) == first_sixty(text_member(messages[i], "content"@)->0),
    decreases messages.len(),
{
    lemma_title_of(messages[0]);
    if i > 0 {
        let rest = messages.drop_first();
        assert(!gives_title(messages[0]));
        assert(rest[i - 1] == messages[i]);
        assert forall|j: int| 0 <= j < i - 1 implies !gives_title(#[trigger] rest[j]) by {
            assert(rest[j] == messages[j + 1]);
        }
        lemma_earliest_message_gives_title(rest, i - 1);
    }
}

/// Where no message gives a title, and where there is no list of messages, there
/// is none.
pub proof fn lemma_without_title(messages: Seq<Doc>, other: Doc)
    ensures
        (forall|i: int| 0 <= i < messages.len() ==> !gives_title(#[trigger] messages[i])) ==> title(
            Doc::Array(messages),
        ) == "(без названия)"@,
        !(other is Array) ==> title(other) == "(без названия)"@,
    decreases messages.len(),
{
    if messages.len() > 0 && (forall|i: int|
        0 <= i < messages.len() ==> !gives_title(#[trigger] messages[i])) {
        let rest = messages.drop_first();
        assert forall|i: int| 0 <= i < rest.len() implies !gives_title(#[trigger] rest[i]) by {
            assert(rest[i] == messages[i + 1]);
        }
        assert(!gives_title(messages[0]));
        lemma_title_of(messages[0]);
        lemma_without_title(rest, other);
    }
}

/// A conversation that has a title keeps it, however it goes on.
pub proof fn lemma_title_stays(messages: Seq<Doc>, more: Seq<Doc>)
    requires
        exists|i: int| 0 <= i < messages.len() && gives_title(#[trigger] messages[i]),
    ensures
        title(Doc::Array(messages + more)) == title(Doc::Array(messages)),
    decreases messages.len(),
{
    lemma_title_of(messages[0]);
    assert((messages + more)[0] == messages[0]);
    if !gives_title(messages[0]) {
        let rest = messages.drop_first();
        let i = choose|i: int| 0 <= i < messages.len() && gives_title(#[trigger] messages[i]);
        assert(rest[i - 1] == messages[i]);
        lemma_title_stays(rest, more);
        assert((messages + more).drop_first() =~= rest + more);
    }
}

/// A title is never longer than 60 characters.
pub proof fn lemma_title_length(messages: Doc)
    ensures
        title(messages).len() <= 60,
{
    reveal_strlit("(без названия)");
    if let Doc::Array(items) = messages {
        lemma_first_title_length(items);
    }
}

proof fn lemma_first_title_length(messages: Seq<Doc>)
    ensures
        first_title(messages).len() <= 60,
    decreases messages.len(),
{
    reveal_strlit("(без названия)");
    if messages.len() > 0 {
        lemma_title_of(messages[0]);
        lemma_first_title_length(messages.drop_first());
    }
}

/// The file of a conversation is named after its id.
pub proof fn lemma_file_of(id: Seq<char>)
    ensures
        file_of(id) == "data/conversations/"@ + id + ".json"@,
{
    reveal_strlit("data/conversations");
    reveal_strlit("data/conversations/");
    reveal_strlit("/");
    assert("data/conversations"@ + "/"@ =~= "data/conversations/"@);
}

/// A new id is made of the letter `c` and the time.
pub proof fn lemma_new_id(ms: u64)
    ensures
        new_id(ms)[0] == 'c',
        number(new_id(ms).skip(1)) == ms,
{
    reveal_strlit("c");
    lemma_decimal(ms as nat);
    assert(new_id(ms).skip(1) =~= decimal(ms as nat));
}

/// A conversation keeps the id that it has, and gets a new one only where it has
/// none; only an id of its own can be refused.
pub proof fn lemma_id_for(own: String, ms: u64)
    ensures
        own@.len() > 0 ==> id_for(Some(own), ms) == own@,
        own@.len() == 0 ==> id_for(Some(own), ms) == new_id(ms),
        id_for(None, ms) == new_id(ms),
        own_id_refused(Some(own)) <==> own@.len() > 0 && !valid_id(own@),
        !own_id_refused(None),
{
}

/// What is written of a conversation: its id, its title, the time and all of its
/// messages, in the file of its id.
pub proof fn lemma_saved_as(saved: Saved, id: Seq<char>, messages: Doc, ts: u64)
    ensures
        saved_as(saved, id, messages, ts) <==> {
            &&& saved.path@ == "data/conversations/"@ + id + ".json"@
            &&& saved.conversation.id@ == id
            &&& saved.conversation.title@ == title(messages)
            &&& saved.conversation.ts == ts
            &&& saved.conversation.messages@ == messages
        },
{
    lemma_file_of(id);
}

/// In brief, a conversation has its own id, title and time, and the number of its
/// messages.
pub proof fn lemma_cards(conversations: Seq<Conversation>)
    ensures
        cards(conversations).len() == conversations.len(),
        forall|i: int|
            0 <= i < conversations.len() ==> {
                let brief = #[trigger] cards(conversations)[i];
                &&& brief.id == conversations[i].id@
                &&& brief.title == conversations[i].title@
                &&& brief.ts == conversations[i].ts
                &&& conversations[i].messages@ is Array ==> brief.count
                    == conversations[i].messages@->Array_0.len()
                &&& !(conversations[i].messages@ is Array) ==> brief.count == 0
            },
{
}

/// Which conversations were saved at this time.
pub open spec fn saved_at(ts: u64) -> spec_fn(Card) -> bool {
    |c: Card| c.ts == ts
}

/// A ranked rearrangement of a list of conversations has the same ones, the newest
/// first; those of one time are in the order of the list.
pub proof fn lemma_newest_first(from: Seq<Card>, to: Seq<Card>)
    requires
        ranked::<Meta>(to),
        rearranged::<Meta>(from, to),
    ensures
        to.to_multiset() == from.to_multiset(),
        forall|i: int, j: int| 0 <= i < j < to.len() ==> to[i].ts >= to[j].ts,
        forall|ts: u64| to.filter(#[trigger] saved_at(ts)) == from.filter(saved_at(ts)),
{
    assert forall|i: int, j: int| 0 <= i < j < to.len() implies to[i].ts >= to[j].ts by {
        assert(<Meta as Ranked>::not_after(to[i], to[j]));
    }
    assert forall|ts: u64| to.filter(#[trigger] saved_at(ts)) == from.filter(saved_at(ts)) by {
        let any = Card { id: Seq::empty(), title: Seq::empty(), ts, count: 0 };
        assert(peer::<Meta>(any) =~= saved_at(ts));
        assert(to.filter(peer::<Meta>(any)) == from.filter(peer::<Meta>(any)));
    }
}

/// Just those texts can be ids that are not empty and have only ASCII letters,
/// digits and hyphens in them, however long they are.
pub proof fn lemma_valid_id(id: Seq<char>)
    ensures
        valid_id(id) <==> id.len() > 0 && (forall|i: int|
            0 <= i < id.len() ==> {
                let n = #[trigger] id[i] as int;
                48 <= n <= 57 || 65 <= n <= 90 || 97 <= n <= 122 || n == 45
            }),
{
    if valid_id(id) {
        assert forall|i: int| 0 <= i < id.len() implies {
            let n = #[trigger] id[i] as int;
            48 <= n <= 57 || 65 <= n <= 90 || 97 <= n <= 122 || n == 45
        } by {
            assert(id_char(id[i]));
        }
    }
}

/// The view of a conversation in brief has all that it says.
pub proof fn lemma_meta_view(meta: Meta)
    ensures
        meta@.id == meta.id@,
        meta@.title == meta.title@,
        meta@.ts == meta.ts,
        meta@.count == meta.count,
{
}

} // verus!
