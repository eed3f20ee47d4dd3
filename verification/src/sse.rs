//! The reply of the model as it comes in: a stream of server-sent events, cut
//! into chunks at arbitrary places.

use vstd::prelude::*;
use vstd::string::*;
use vstd::utf8::*;

use crate::json::{element, lemma_distinct_fields, member, object_of, parsed, Doc, Json};
use crate::text::{
    bare, blank, chars_of, lemma_trimmed, lossy_text, optional_text, read_lossy, same_text, text_of, texts, trim, trimmed,
};

verus! {

/// A text as lines: those that a line feed ends, and what is left after the last
/// line feed.
pub open spec fn split(text: Seq<char>) -> (Seq<Seq<char>>, Seq<char>)
    decreases text.len(),
{
    if text.len() == 0 {
        (Seq::empty(), Seq::empty())
    } else {
        let (lines, rest) = split(text.drop_last());
        if text.last() == '\n' {
            (lines.push(rest), Seq::empty())
        } else {
            (lines, rest.push(text.last()))
        }
    }
}

/// What a line carries: the text after `data:`, unless it is empty or the marker
/// of the end. Other lines carry nothing.
pub open spec fn payload(line: Seq<char>) -> Option<Seq<char>> {
    let bare = trimmed(line);
    if "data:"@.is_prefix_of(bare) {
        let data = trimmed(bare.skip("data:"@.len() as int));
        if data == "[DONE]"@ || data.len() == 0 {
            None
        } else {
            Some(data)
        }
    } else {
        None
    }
}

/// The piece of text in an event: `choices[0].delta.content`, where it is a text
/// and not empty.
pub open spec fn delta(doc: Doc) -> Option<Seq<char>> {
    match member(doc, "choices"@) {
        Some(choices) => match element(choices, 0) {
            Some(choice) => match member(choice, "delta"@) {
                Some(d) => match member(d, "content"@) {
                    Some(Doc::Text(s)) => if s.len() == 0 {
                        None
                    } else {
                        Some(s)
                    },
                    _ => None,
                },
                None => None,
            },
            None => None,
        },
        None => None,
    }
}

/// The piece of text that a line brings; none where its payload is no JSON.
pub open spec fn piece(line: Seq<char>) -> Option<Seq<char>> {
    match payload(line) {
        Some(data) => match parsed(data) {
            Ok(doc) => delta(doc),
            Err(_) => None,
        },
        None => None,
    }
}

/// The pieces of text that these lines bring, in order.
pub open spec fn pieces(lines: Seq<Seq<char>>) -> Seq<Seq<char>>
    decreases lines.len(),
{
    if lines.len() == 0 {
        Seq::empty()
    } else {
        match piece(lines.last()) {
            Some(text) => pieces(lines.drop_last()).push(text),
            None => pieces(lines.drop_last()),
        }
    }
}

/// What a line carries.
pub fn line_payload(line: &str) -> (res: Option<String>)
    ensures
        optional_text(res) == payload(line@),
{
    let bare = chars_of(trim(line).as_str());
    let prefix = chars_of("data:");
    if bare.len() < prefix.len() {
        return None;
    }
    let head = text_of(&bare, 0, prefix.len());
    proof {
        assert("data:"@.is_prefix_of(bare@) <==> head@ == "data:"@);
    }
    if !same_text(head.as_str(), "data:") {
        return None;
    }
    let tail = text_of(&bare, prefix.len(), bare.len());
    proof {
        assert(tail@ =~= bare@.skip(prefix@.len() as int));
    }
    let data = trim(tail.as_str());
    if same_text(data.as_str(), "[DONE]") || data.as_str().is_empty() {
        None
    } else {
        Some(data)
    }
}

/// The piece of text in an event.
pub fn delta_text(doc: &Json) -> (res: Option<String>)
    ensures
        optional_text(res) == delta(doc@),
        res matches Some(s) ==> says(doc@, s@),
        forall|s: Seq<char>| s.len() > 0 && #[trigger] says(doc@, s) ==> res is Some,
{
    let choices = match doc.get("choices") {
        Some(c) => c,
        None => return None,
    };
    let choice = match choices.at(0) {
        Some(c) => c,
        None => return None,
    };
    let d = match choice.get("delta") {
        Some(d) => d,
        None => return None,
    };
    match d.get_str("content") {
        Some(s) => if s.is_empty() {
            None
        } else {
            Some(s.to_owned())
        },
        None => None,
    }
}

/// The piece of text that a line brings.
pub fn line_piece(line: &str) -> (res: Option<String>)
    ensures
        optional_text(res) == piece(line@),
{
    match line_payload(line) {
        Some(data) => match Json::parse(data.as_str()) {
            Ok(doc) => delta_text(&doc),
            Err(_) => None,
        },
        None => None,
    }
}

/// Reads a stream of events; between chunks it holds the line that has not ended yet.
pub struct SseReader {
    rest: Vec<char>,
}

impl View for SseReader {
    type V = Seq<char>;

    closed spec fn view(&self) -> Seq<char> {
        self.rest@
    }
}

impl SseReader {
    #[verifier::type_invariant]
    spec fn unfinished(self) -> bool {
        !self.rest@.contains('\n')
    }

    /// A reader at the start of a stream.
    pub fn new() -> (res: SseReader)
        ensures
            res@ == Seq::<char>::empty(),
    {
        SseReader { rest: Vec::new() }
    }

    /// Reads on, and returns the pieces of text in the lines that have ended.
    pub fn feed_text(self, text: &str) -> (res: (SseReader, Vec<String>))
        ensures
            texts(res.1@) == pieces(split(self@ + text@).0),
            res.0@ == split(self@ + text@).1,
            !res.0@.contains('\n'),
    {
        proof {
            use_type_invariant(&self);
        }
        let ghost before = self.rest@;
        let mut rest = self.rest;
        let mut out: Vec<String> = Vec::new();
        let chars = chars_of(text);
        let mut i: usize = 0;
        proof {
            lemma_no_line(before);
            assert(before + text@.take(0) =~= before);
            assert(texts(out@) =~= Seq::empty());
        }
        while i < chars.len()
            invariant
                chars@ == text@,
                before == self@,
                i <= chars@.len(),
                !rest@.contains('\n'),
                rest@ == split(before + text@.take(i as int)).1,
                texts(out@) == pieces(split(before + text@.take(i as int)).0),
            decreases chars@.len() - i,
        {
            let ghost so_far = before + text@.take(i as int);
            let ghost done = out@;
            let c = chars[i];
            proof {
                assert(before + text@.take(i + 1) =~= so_far.push(c));
                assert(so_far.push(c).drop_last() =~= so_far);
            }
            if c == '\n' {
                let line = text_of(&rest, 0, rest.len());
                proof {
                    assert(line@ =~= rest@);
                    let lines = split(so_far).0;
                    assert(lines.push(line@).drop_last() =~= lines);
                }
                if let Some(token) = line_piece(line.as_str()) {
                    out.push(token);
                    proof {
                        assert(texts(out@) =~= texts(done).push(token@));
                    }
                }
                rest = Vec::new();
            } else {
                let ghost kept = rest@;
                rest.push(c);
                proof {
                    assert forall|j: int| 0 <= j < rest@.len() implies rest@[j] != '\n' by {
                        if j < kept.len() {
                            assert(kept.contains(kept[j]));
                        }
                    }
                }
            }
            i += 1;
        }
        proof {
            assert(text@.take(i as int) =~= text@);
        }
        (SseReader { rest }, out)
    }

    /// Reads a chunk, and returns the pieces of text in the lines that have
    /// ended. Ill-formed UTF-8 in it is replaced.
    pub fn feed(self, chunk: &[u8]) -> (res: (SseReader, Vec<String>))
        ensures
            texts(res.1@) == pieces(split(self@ + lossy_text(chunk@)).0),
            res.0@ == split(self@ + lossy_text(chunk@)).1,
            valid_utf8(chunk@) ==> texts(res.1@) == pieces(split(self@ + decode_utf8(chunk@)).0),
            valid_utf8(chunk@) ==> res.0@ == split(self@ + decode_utf8(chunk@)).1,
            !res.0@.contains('\n'),
    {
        let text = read_lossy(chunk);
        self.feed_text(text.as_str())
    }
}

/// A text without line feeds is a line that has not ended.
proof fn lemma_no_line(text: Seq<char>)
    requires
        !text.contains('\n'),
    ensures
        split(text).0 =~= Seq::empty(),
        split(text).1 =~= text,
    decreases text.len(),
{
    if text.len() > 0 {
        assert(text.contains(text[text.len() - 1]));
        assert forall|i: int| 0 <= i < text.len() - 1 implies text.drop_last()[i] != '\n' by {
            assert(text.contains(text[i]));
        }
        lemma_no_line(text.drop_last());
    }
}

/// Splitting goes on where it left off.
proof fn lemma_split(a: Seq<char>, b: Seq<char>)
    ensures
        split(a + b).0 =~= split(a).0 + split(split(a).1 + b).0,
        split(a + b).1 =~= split(split(a).1 + b).1,
    decreases b.len(),
{
    let rest = split(a).1;
    if b.len() == 0 {
        assert(a + b =~= a);
        assert(rest + b =~= rest);
        lemma_rest_open(a);
        lemma_no_line(rest);
    } else {
        lemma_split(a, b.drop_last());
        assert((a + b).drop_last() =~= a + b.drop_last());
        assert((rest + b).drop_last() =~= rest + b.drop_last());
    }
}

/// What is left after the last line feed holds none.
proof fn lemma_rest_open(text: Seq<char>)
    ensures
        !split(text).1.contains('\n'),
    decreases text.len(),
{
    if text.len() > 0 {
        let rest = split(text.drop_last()).1;
        lemma_rest_open(text.drop_last());
        if text.last() != '\n' {
            assert forall|i: int| 0 <= i < rest.push(text.last()).len() implies rest.push(
                text.last(),
            )[i] != '\n' by {
                if i < rest.len() {
                    assert(rest.contains(rest[i]));
                }
            }
        }
    }
}

proof fn lemma_pieces(a: Seq<Seq<char>>, b: Seq<Seq<char>>)
    ensures
        pieces(a + b) =~= pieces(a) + pieces(b),
    decreases b.len(),
{
    if b.len() == 0 {
        assert(a + b =~= a);
    } else {
        lemma_pieces(a, b.drop_last());
        assert((a + b).drop_last() =~= a + b.drop_last());
    }
}

/// It makes no difference where a stream is cut: a reader that holds `held` and
/// reads `a` and then `b` finds the same pieces, and holds the same line in the
/// end, as one that reads both at once.
pub proof fn lemma_cuts_do_not_matter(held: Seq<char>, a: Seq<char>, b: Seq<char>)
    ensures
        pieces(split(held + (a + b)).0) == pieces(split(held + a).0) + pieces(
            split(split(held + a).1 + b).0,
        ),
        split(held + (a + b)).1 == split(split(held + a).1 + b).1,
{
    assert(held + (a + b) =~= (held + a) + b);
    lemma_split(held + a, b);
    lemma_pieces(split(held + a).0, split(split(held + a).1 + b).0);
}

/// What a reader that holds `held` finds in these chunks of text, one after the
/// other, and the line that it holds in the end.
pub open spec fn read_in_turn(held: Seq<char>, chunks: Seq<Seq<char>>) -> (
    Seq<Seq<char>>,
    Seq<char>,
)
    decreases chunks.len(),
{
    if chunks.len() == 0 {
        (Seq::empty(), held)
    } else {
        let (found, rest) = read_in_turn(held, chunks.drop_last());
        let (lines, open) = split(rest + chunks.last());
        (found + pieces(lines), open)
    }
}

/// However a stream is cut into chunks, a reader finds the same pieces in them,
/// and holds the same line in the end, as if it had come at once. What a reader
/// holds at any time has no line feed in it.
pub proof fn lemma_any_cuts(held: Seq<char>, chunks: Seq<Seq<char>>)
    requires
        !held.contains('\n'),
    ensures
        read_in_turn(held, chunks) == (
            pieces(split(held + chunks.flatten()).0),
            split(held + chunks.flatten()).1,
        ),
    decreases chunks.len(),
{
    if chunks.len() == 0 {
        assert(held + chunks.flatten() =~= held);
        lemma_no_line(held);
    } else {
        let earlier = chunks.drop_last();
        lemma_any_cuts(held, earlier);
        lemma_cuts_do_not_matter(held, earlier.flatten(), chunks.last());
        assert(earlier.push(chunks.last()) =~= chunks);
        earlier.lemma_flatten_push(chunks.last());
    }
}

/// The texts of chunks of bytes.
pub open spec fn decoded(chunks: Seq<Seq<u8>>) -> Seq<Seq<char>> {
    Seq::new(chunks.len(), |i: int| decode_utf8(chunks[i]))
}

/// The same of chunks of bytes, however many, that are cut between characters.
pub proof fn lemma_any_byte_cuts(held: Seq<char>, chunks: Seq<Seq<u8>>)
    requires
        !held.contains('\n'),
        forall|i: int| 0 <= i < chunks.len() ==> valid_utf8(#[trigger] chunks[i]),
    ensures
        valid_utf8(chunks.flatten()),
        read_in_turn(held, decoded(chunks)) == (
            pieces(split(held + decode_utf8(chunks.flatten())).0),
            split(held + decode_utf8(chunks.flatten())).1,
        ),
{
    lemma_decode_all(chunks);
    lemma_any_cuts(held, decoded(chunks));
}

proof fn lemma_decode_all(chunks: Seq<Seq<u8>>)
    requires
        forall|i: int| 0 <= i < chunks.len() ==> valid_utf8(#[trigger] chunks[i]),
    ensures
        valid_utf8(chunks.flatten()),
        decode_utf8(chunks.flatten()) == decoded(chunks).flatten(),
    decreases chunks.len(),
{
    if chunks.len() == 0 {
        assert(decode_utf8(chunks.flatten()) =~= decoded(chunks).flatten());
    } else {
        let earlier = chunks.drop_last();
        assert forall|i: int| 0 <= i < earlier.len() implies valid_utf8(
            #[trigger] earlier[i],
        ) by {
            assert(earlier[i] == chunks[i]);
        }
        lemma_decode_all(earlier);
        assert(valid_utf8(chunks[chunks.len() - 1]));
        assert(earlier.push(chunks.last()) =~= chunks);
        earlier.lemma_flatten_push(chunks.last());
        lemma_decode(earlier.flatten(), chunks.last());
        assert(decoded(earlier).push(decode_utf8(chunks.last())) =~= decoded(chunks));
        decoded(earlier).lemma_flatten_push(decode_utf8(chunks.last()));
    }
}

proof fn lemma_decode(a: Seq<u8>, b: Seq<u8>)
    requires
        valid_utf8(a),
        valid_utf8(b),
    ensures
        valid_utf8(a + b),
        decode_utf8(a + b) == decode_utf8(a) + decode_utf8(b),
    decreases a.len(),
{
    valid_utf8_concat(a, b);
    if a.len() == 0 {
        assert(a + b =~= b);
    } else {
        let rest = pop_first_scalar(a);
        assert(rest.len() < a.len());
        lemma_decode(rest, b);
        assert(pop_first_scalar(a + b) =~= rest + b);
        assert(decode_first_scalar(a + b) == decode_first_scalar(a));
        assert(decode_utf8(a + b) =~= decode_utf8(a) + decode_utf8(b));
    }
}

/// Lines, each ended by a line feed.
pub open spec fn terminated(lines: Seq<Seq<char>>) -> Seq<char>
    decreases lines.len(),
{
    if lines.len() == 0 {
        Seq::empty()
    } else {
        terminated(lines.drop_last()) + lines.last() + seq!['\n']
    }
}

/// Splitting gives back the lines that a text was made of, and what stands behind
/// the last line feed.
pub proof fn lemma_split_into_lines(lines: Seq<Seq<char>>, rest: Seq<char>)
    requires
        forall|i: int| 0 <= i < lines.len() ==> !(#[trigger] lines[i]).contains('\n'),
        !rest.contains('\n'),
    ensures
        split(terminated(lines) + rest) == (lines, rest),
    decreases lines.len(),
{
    let nothing = Seq::<char>::empty();
    if lines.len() == 0 {
        assert(terminated(lines) + rest =~= rest);
        lemma_no_line(rest);
        assert(lines =~= Seq::empty());
    } else {
        let front = lines.drop_last();
        assert forall|i: int| 0 <= i < front.len() implies !(#[trigger] front[i]).contains(
            '\n',
        ) by {
            assert(front[i] == lines[i]);
        }
        assert(!lines[lines.len() - 1].contains('\n'));
        lemma_split_into_lines(front, lines.last());
        let open = terminated(front) + lines.last();
        assert(terminated(lines) =~= open.push('\n'));
        assert(open.push('\n').drop_last() =~= open);
        assert(front.push(lines.last()) =~= lines);
        assert(split(terminated(lines)) == (lines, nothing));
        lemma_split(terminated(lines), rest);
        assert(nothing + rest =~= rest);
        lemma_no_line(rest);
        assert(lines + Seq::<Seq<char>>::empty() =~= lines);
    }
}

/// Whatever surrounds it, a line that says `data:` carries what follows, without
/// the white space around it: nothing where that is empty or the marker of the end.
pub proof fn lemma_data_line(
    front: Seq<char>,
    middle: Seq<char>,
    data: Seq<char>,
    back: Seq<char>,
)
    requires
        blank(front),
        blank(middle),
        bare(data),
        blank(back),
    ensures
        data.len() > 0 && data != "[DONE]"@ ==> payload(front + "data:"@ + middle + data + back)
            == Some(data),
        data.len() == 0 || data == "[DONE]"@ ==> payload(
            front + "data:"@ + middle + data + back,
        ) is None,
{
    reveal_strlit("data:");
    let name = "data:"@;
    let line = front + name + middle + data + back;
    if data.len() == 0 {
        let end = middle + back;
        assert(blank(end));
        assert(line =~= front + name + end);
        lemma_trimmed(front, name, end);
        assert(name.skip(5) =~= Seq::empty());
        lemma_trimmed(Seq::empty(), Seq::empty(), Seq::empty());
        assert(Seq::<char>::empty() + Seq::<char>::empty() + Seq::<char>::empty()
            =~= Seq::<char>::empty());
    } else {
        let core = name + middle + data;
        assert(core[0] == 'd');
        assert(core.last() == data.last());
        assert(line =~= front + core + back);
        lemma_trimmed(front, core, back);
        assert(name.is_prefix_of(core));
        assert(core.skip(5) =~= middle + data + Seq::<char>::empty());
        lemma_trimmed(middle, data, Seq::empty());
    }
}

/// A line that says anything else carries nothing.
pub proof fn lemma_other_line(front: Seq<char>, text: Seq<char>, back: Seq<char>)
    requires
        blank(front),
        bare(text),
        blank(back),
        text.len() < 5 || text.take(5) != "data:"@,
    ensures
        payload(front + text + back) is None,
{
    reveal_strlit("data:");
    lemma_trimmed(front, text, back);
    if "data:"@.is_prefix_of(text) {
        assert(text.take(5) =~= "data:"@);
    }
}

/// Whether a document has the text `s` at `choices[0].delta.content`.
pub open spec fn says(doc: Doc, s: Seq<char>) -> bool {
    &&& doc is Object
    &&& doc->Object_0.dom().contains("choices"@)
    &&& doc->Object_0["choices"@] is Array
    &&& doc->Object_0["choices"@]->Array_0.len() > 0
    &&& ({
        let choice = doc->Object_0["choices"@]->Array_0[0];
        &&& choice is Object
        &&& choice->Object_0.dom().contains("delta"@)
        &&& choice->Object_0["delta"@] is Object
        &&& choice->Object_0["delta"@]->Object_0.dom().contains("content"@)
        &&& choice->Object_0["delta"@]->Object_0["content"@] == Doc::Text(s)
    })
}

/// A piece is passed on unchanged: a document brings a piece just where it has a
/// text at `choices[0].delta.content` that is not empty, and the piece has exactly
/// the characters of that text, white space included.
pub proof fn lemma_piece_unchanged(doc: Doc, s: Seq<char>)
    ensures
        delta(doc) == Some(s) <==> says(doc, s) && s.len() > 0,
        says(doc, s) && s.len() == 0 ==> delta(doc) is None,
{
}

/// The event by which the model server sends the text `s`, among other choices.
pub open spec fn event_with(s: Seq<char>, others: Seq<Doc>) -> Doc {
    object_of(
        seq![
            (
                "choices"@,
                Doc::Array(
                    seq![
                        object_of(
                            seq![("delta"@, object_of(seq![("content"@, Doc::Text(s))]))],
                        ),
                    ] + others,
                ),
            ),
        ],
    )
}

/// The piece of such an event is its text, as it stands.
pub proof fn lemma_event_piece(s: Seq<char>, others: Seq<Doc>)
    requires
        s.len() > 0,
    ensures
        delta(event_with(s, others)) == Some(s),
{
    let d = object_of(seq![("content"@, Doc::Text(s))]);
    let choice = object_of(seq![("delta"@, d)]);
    let choices = seq![choice] + others;
    lemma_distinct_fields(seq![("content"@, Doc::Text(s))]);
    lemma_distinct_fields(seq![("delta"@, d)]);
    lemma_distinct_fields(seq![("choices"@, Doc::Array(choices))]);
    assert(seq![("content"@, Doc::Text(s))][0].0 == "content"@);
    assert(seq![("delta"@, d)][0].0 == "delta"@);
    assert(seq![("choices"@, Doc::Array(choices))][0].0 == "choices"@);
    assert(choices[0] == choice);
    lemma_piece_unchanged(event_with(s, others), s);
}

/// The pieces of lines are the pieces of each, in order.
pub proof fn lemma_pieces_in_order(a: Seq<Seq<char>>, b: Seq<Seq<char>>)
    ensures
        pieces(a + b) == pieces(a) + pieces(b),
        pieces(Seq::empty()) == Seq::<Seq<char>>::empty(),
{
    lemma_pieces(a, b);
}

/// A line brings the text of its event as the one piece; it brings none where it
/// carries no event, where the event cannot be read, and where that has no text.
pub proof fn lemma_line_piece(line: Seq<char>)
    ensures
        payload(line) is None ==> pieces(seq![line]) == Seq::<Seq<char>>::empty(),
        payload(line) matches Some(data) ==> match parsed(data) {
            Ok(doc) => {
                &&& forall|s: Seq<char>|
                    s.len() > 0 && #[trigger] says(doc, s) ==> pieces(seq![line]) == seq![s]
                &&& (forall|s: Seq<char>| s.len() > 0 ==> !#[trigger] says(doc, s)) ==> pieces(
                    seq![line],
                ) == Seq::<Seq<char>>::empty()
            },
            Err(_) => pieces(seq![line]) == Seq::<Seq<char>>::empty(),
        },
{
    let one = seq![line];
    let none = Seq::<Seq<char>>::empty();
    reveal_with_fuel(pieces, 2);
    assert(one.drop_last() =~= none);
    if let Some(data) = payload(line) {
        if let Ok(doc) = parsed(data) {
            assert forall|s: Seq<char>| s.len() > 0 && #[trigger] says(doc, s) implies pieces(one)
                == seq![s] by {
                lemma_piece_unchanged(doc, s);
                assert(none.push(s) =~= seq![s]);
            }
            if delta(doc) is Some {
                lemma_piece_unchanged(doc, delta(doc)->0);
            }
        }
    }
}

/// The lines by which these events are sent, each as its JSON text.
pub open spec fn event_lines(events: Seq<(Seq<char>, Seq<char>)>) -> Seq<Seq<char>> {
    Seq::new(events.len(), |i: int| "data: "@ + events[i].0)
}

/// The reply comes through whole: of a stream of events, each sent as a JSON text
/// and each with a text in it that is not empty, the pieces are these texts, in
/// order and unchanged.
pub proof fn lemma_reply_comes_through(events: Seq<(Seq<char>, Seq<char>)>)
    requires
        forall|i: int|
            0 <= i < events.len() ==> {
                let (data, s) = #[trigger] events[i];
                &&& data.len() > 0 && bare(data) && !data.contains('\n') && data != "[DONE]"@
                &&& parsed(data) matches Ok(doc) && says(doc, s)
                &&& s.len() > 0
            },
    ensures
        pieces(split(terminated(event_lines(events))).0) == Seq::new(
            events.len(),
            |i: int| events[i].1,
        ),
{
    let lines = event_lines(events);
    reveal_strlit("data: ");
    assert forall|i: int| 0 <= i < lines.len() implies !(#[trigger] lines[i]).contains('\n') by {
        let data = events[i].0;
        assert forall|k: int| 0 <= k < lines[i].len() implies lines[i][k] != '\n' by {
            if k >= 6 {
                assert(lines[i][k] == data[k - 6]);
            }
        }
    }
    let nothing = Seq::<char>::empty();
    lemma_split_into_lines(lines, nothing);
    assert(terminated(lines) + nothing =~= terminated(lines));
    lemma_event_lines_bring(events);
}

proof fn lemma_event_lines_bring(events: Seq<(Seq<char>, Seq<char>)>)
    requires
        forall|i: int|
            0 <= i < events.len() ==> {
                let (data, s) = #[trigger] events[i];
                &&& data.len() > 0 && bare(data) && data != "[DONE]"@
                &&& parsed(data) matches Ok(doc) && says(doc, s)
                &&& s.len() > 0
            },
    ensures
        pieces(event_lines(events)) == Seq::new(events.len(), |i: int| events[i].1),
    decreases events.len(),
{
    let wanted = Seq::new(events.len(), |i: int| events[i].1);
    if events.len() == 0 {
        assert(pieces(event_lines(events)) =~= wanted);
    } else {
        let front = events.drop_last();
        let (data, s) = events.last();
        assert(events[events.len() - 1] == (data, s));
        assert forall|i: int| 0 <= i < front.len() implies {
            let (data, s) = #[trigger] front[i];
            &&& data.len() > 0 && bare(data) && data != "[DONE]"@
            &&& parsed(data) matches Ok(doc) && says(doc, s)
            &&& s.len() > 0
        } by {
            assert(front[i] == events[i]);
        }
        lemma_event_lines_bring(front);
        let line = "data: "@ + data;
        assert(event_lines(events) =~= event_lines(front) + seq![line]);
        lemma_pieces(event_lines(front), seq![line]);
        reveal_strlit("data:");
        reveal_strlit("data: ");
        let nothing = Seq::<char>::empty();
        let gap = seq![' '];
        assert(nothing + "data:"@ + gap + data + nothing =~= line);
        lemma_data_line(nothing, gap, data, nothing);
        lemma_line_piece(line);
        assert(says(parsed(data)->Ok_0, s));
        assert(pieces(seq![line]) == seq![s]);
        assert(pieces(event_lines(events)) =~= wanted);
    }
}

} // verus!
