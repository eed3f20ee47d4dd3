//! JSON documents.
//!
//! `serde_json` reads the text; the documents that the library works on are
//! plain trees of its own.

use serde_json::{Number, Value};
use vstd::prelude::*;
use vstd::string::*;

use crate::text::{optional_str, same_text};

verus! {

/// `serde_json::Value`, a parsed document. Opaque: see [`document`].
#[verifier::external_type_specification]
#[verifier::external_body]
pub struct ExValue(Value);

/// `serde_json::Number`, carried through and never looked into.
#[verifier::external_type_specification]
#[verifier::external_body]
pub struct ExNumber(Number);

/// A JSON document, mathematically.
#[verifier::ext_equal]
pub ghost enum Doc {
    Null,
    Bool(bool),
    Number(Number),
    Text(Seq<char>),
    Array(Seq<Doc>),
    Object(Map<Seq<char>, Doc>),
}

/// A JSON document. Of two fields of an object with the same key, the later counts.
#[derive(Debug, PartialEq)]
pub enum Json {
    Null,
    Bool(bool),
    Number(Number),
    Text(String),
    Array(Vec<Json>),
    Object(Vec<(String, Json)>),
}

/// The object with these fields; a later field replaces an earlier one with its key.
pub open spec fn assembled(fields: Seq<(Seq<char>, Doc)>) -> Map<Seq<char>, Doc>
    decreases fields.len(),
{
    if fields.len() == 0 {
        Map::empty()
    } else {
        assembled(fields.drop_last()).insert(fields.last().0, fields.last().1)
    }
}

impl Json {
    /// The document that the tree stands for.
    pub open spec fn doc(self) -> Doc
        decreases self,
    {
        match self {
            Json::Null => Doc::Null,
            Json::Bool(b) => Doc::Bool(b),
            Json::Number(n) => Doc::Number(n),
            Json::Text(s) => Doc::Text(s@),
            Json::Array(items) => Doc::Array(docs(items@)),
            Json::Object(fields) => Doc::Object(assembled(field_docs(fields@))),
        }
    }
}

/// The documents of a list of trees.
pub open spec fn docs(items: Seq<Json>) -> Seq<Doc>
    decreases items,
{
    Seq::new(
        items.len(),
        |i: int|
            if 0 <= i < items.len() {
                items[i].doc()
            } else {
                Doc::Null
            },
    )
}

/// The keys and documents of a list of fields.
pub open spec fn field_docs(fields: Seq<(String, Json)>) -> Seq<(Seq<char>, Doc)>
    decreases fields,
{
    Seq::new(
        fields.len(),
        |i: int|
            if 0 <= i < fields.len() {
                (fields[i].0@, fields[i].1.doc())
            } else {
                (Seq::empty(), Doc::Null)
            },
    )
}

impl View for Json {
    type V = Doc;

    open spec fn view(&self) -> Doc {
        self.doc()
    }
}

/// The field `key` of an object; `None` where it has no such field, and on
/// anything that is no object.
pub open spec fn member(doc: Doc, key: Seq<char>) -> Option<Doc> {
    match doc {
        Doc::Object(fields) => if fields.dom().contains(key) {
            Some(fields[key])
        } else {
            None
        },
        _ => None,
    }
}

/// The item at `index` of an array; `None` beyond its end, and on anything that
/// is no array.
pub open spec fn element(doc: Doc, index: int) -> Option<Doc> {
    match doc {
        Doc::Array(items) => if 0 <= index < items.len() {
            Some(items[index])
        } else {
            None
        },
        _ => None,
    }
}

/// The characters of a text; `None` on anything else.
pub open spec fn characters(doc: Doc) -> Option<Seq<char>> {
    match doc {
        Doc::Text(s) => Some(s),
        _ => None,
    }
}

/// The characters of the field `key`, where it is a text.
pub open spec fn text_member(doc: Doc, key: Seq<char>) -> Option<Seq<char>> {
    match member(doc, key) {
        Some(field) => characters(field),
        None => None,
    }
}

/// The object with these fields.
pub open spec fn object_of(fields: Seq<(Seq<char>, Doc)>) -> Doc {
    Doc::Object(assembled(fields))
}

/// The keys and documents of a list of named trees.
pub open spec fn named_docs(fields: Seq<(&str, Json)>) -> Seq<(Seq<char>, Doc)> {
    Seq::new(fields.len(), |i: int| (fields[i].0@, fields[i].1@))
}

/// The view of an optional tree.
pub open spec fn doc_of(tree: Option<&Json>) -> Option<Doc> {
    match tree {
        Some(t) => Some(t@),
        None => None,
    }
}

/// A key of an assembled object is a key of one of its fields.
proof fn lemma_assembled_absent(fields: Seq<(Seq<char>, Doc)>, key: Seq<char>)
    requires
        forall|i: int| 0 <= i < fields.len() ==> (#[trigger] fields[i]).0 != key,
    ensures
        !assembled(fields).dom().contains(key),
    decreases fields.len(),
{
    if fields.len() > 0 {
        assert forall|i: int| 0 <= i < fields.len() - 1 implies (#[trigger] fields.drop_last()[i]).0
            != key by {
            assert(fields.drop_last()[i] == fields[i]);
        }
        lemma_assembled_absent(fields.drop_last(), key);
    }
}

/// An assembled object has finitely many fields.
proof fn lemma_assembled_finite(fields: Seq<(Seq<char>, Doc)>)
    ensures
        assembled(fields).dom().finite(),
    decreases fields.len(),
{
    if fields.len() > 0 {
        lemma_assembled_finite(fields.drop_last());
    }
}

/// The last field with a key gives the object its value there.
proof fn lemma_assembled_present(fields: Seq<(Seq<char>, Doc)>, at: int)
    requires
        0 <= at < fields.len(),
        forall|i: int| at < i < fields.len() ==> (#[trigger] fields[i]).0 != fields[at].0,
    ensures
        assembled(fields).dom().contains(fields[at].0),
        assembled(fields)[fields[at].0] == fields[at].1,
    decreases fields.len(),
{
    if at < fields.len() - 1 {
        let front = fields.drop_last();
        assert(front[at] == fields[at]);
        assert forall|i: int| at < i < front.len() implies (#[trigger] front[i]).0
            != front[at].0 by {
            assert(front[i] == fields[i]);
        }
        lemma_assembled_present(front, at);
        assert(fields.last().0 != fields[at].0);
    }
}

impl Json {
    /// The text `s`.
    pub fn text(s: &str) -> (res: Json)
        ensures
            res@ == Doc::Text(s@),
    {
        Json::Text(s.to_owned())
    }

    /// The object with these fields.
    pub fn object(fields: Vec<(&str, Json)>) -> (res: Json)
        ensures
            res@ == object_of(named_docs(fields@)),
    {
        let ghost all = fields@;
        let mut out: Vec<(String, Json)> = Vec::new();
        for field in it: fields
            invariant
                it.seq() == all,
                field_docs(out@) =~= named_docs(all).take(it.index() as int),
        {
            let ghost done = out@;
            out.push((field.0.to_owned(), field.1));
            proof {
                assert(field == all[it.index() as int]);
                assert(field_docs(out@) =~= field_docs(done).push((field.0@, field.1@)));
            }
        }
        proof {
            assert(field_docs(out@) =~= named_docs(all));
        }
        Json::Object(out)
    }

    /// The field `key`.
    pub fn get(&self, key: &str) -> (res: Option<&Json>)
        ensures
            doc_of(res) == member(self@, key@),
    {
        match self {
            Json::Object(fields) => {
                let mut left: usize = fields.len();
                while left > 0
                    invariant
                        left <= fields@.len(),
                        self@ == Doc::Object(assembled(field_docs(fields@))),
                        forall|i: int|
                            left <= i < fields@.len() ==> (#[trigger] field_docs(fields@)[i]).0
                                != key@,
                    decreases left,
                {
                    left -= 1;
                    if same_text(fields[left].0.as_str(), key) {
                        proof {
                            assert(field_docs(fields@)[left as int].0 == key@);
                            lemma_assembled_present(field_docs(fields@), left as int);
                        }
                        return Some(&fields[left].1);
                    }
                }
                proof {
                    lemma_assembled_absent(field_docs(fields@), key@);
                }
                None
            },
            _ => None,
        }
    }

    /// The item at `index`.
    pub fn at(&self, index: usize) -> (res: Option<&Json>)
        ensures
            doc_of(res) == element(self@, index as int),
    {
        match self {
            Json::Array(items) => if index < items.len() {
                Some(&items[index])
            } else {
                None
            },
            _ => None,
        }
    }

    /// The characters of a text.
    pub fn as_str(&self) -> (res: Option<&str>)
        ensures
            optional_str(res) == characters(self@),
            *self matches Json::Text(s) ==> res matches Some(t) && t@ == s@,
            !(*self is Text) ==> res is None,
    {
        match self {
            Json::Text(s) => Some(s.as_str()),
            _ => None,
        }
    }

    /// The characters of the field `key`, where it is a text.
    pub fn get_str(&self, key: &str) -> (res: Option<&str>)
        ensures
            optional_str(res) == text_member(self@, key@),
    {
        match self.get(key) {
            Some(field) => field.as_str(),
            None => None,
        }
    }

    /// The items of an array.
    pub fn as_array(&self) -> (res: Option<&Vec<Json>>)
        ensures
            match res {
                Some(items) => self@ == Doc::Array(docs(items@)),
                None => !(self@ is Array),
            },
    {
        match self {
            Json::Array(items) => Some(items),
            _ => None,
        }
    }
}

/// One level of a `serde_json::Value`.
enum Node {
    Null,
    Bool(bool),
    Number(Number),
    Text(String),
    Array(Vec<Value>),
    Object(Vec<(String, Value)>),
}

/// What a `serde_json::Value` holds.
pub uninterp spec fn document(value: Value) -> Doc;

/// What `serde_json` makes of a text: a document, or the words of its complaint.
pub uninterp spec fn parsed(text: Seq<char>) -> Result<Doc, Seq<char>>;

/// The documents of a list of values.
pub open spec fn documents(items: Seq<Value>) -> Seq<Doc> {
    Seq::new(items.len(), |i: int| document(items[i]))
}

/// The keys and documents of a list of fields.
pub open spec fn field_documents(fields: Seq<(String, Value)>) -> Seq<(Seq<char>, Doc)> {
    Seq::new(fields.len(), |i: int| (fields[i].0@, document(fields[i].1)))
}

/// No two of the fields have the same key.
pub open spec fn distinct_keys(fields: Seq<(Seq<char>, Doc)>) -> bool {
    forall|i: int, j: int|
        0 <= i < j < fields.len() ==> (#[trigger] fields[i]).0 != (#[trigger] fields[j]).0
}

/// `serde_json::from_str` into a `serde_json::Value`. The outcome depends on the
/// characters of `text` alone; an error is given by its `Display` text.
#[verifier::external_body]
fn read_value(text: &str) -> (res: Result<Value, String>)
    ensures
        parsed(text@) == (match res {
            Ok(value) => Ok::<Doc, Seq<char>>(document(value)),
            Err(complaint) => Err(complaint@),
        }),
{
    serde_json::from_str::<Value>(text).map_err(|e| e.to_string())
}

/// The variants of a `serde_json::Value` told apart: each hands out what it
/// holds, an object its entries, whose keys differ from one another.
#[verifier::external_body]
fn open(value: Value) -> (res: Node)
    ensures
        match res {
            Node::Null => document(value) == Doc::Null,
            Node::Bool(b) => document(value) == Doc::Bool(b),
            Node::Number(n) => document(value) == Doc::Number(n),
            Node::Text(s) => document(value) == Doc::Text(s@),
            Node::Array(items) => document(value) == Doc::Array(documents(items@)),
            Node::Object(fields) => {
                &&& distinct_keys(field_documents(fields@))
                &&& document(value) == Doc::Object(assembled(field_documents(fields@)))
            },
        },
{
    match value {
        Value::Null => Node::Null,
        Value::Bool(b) => Node::Bool(b),
        Value::Number(n) => Node::Number(n),
        Value::String(s) => Node::Text(s),
        Value::Array(items) => Node::Array(items),
        Value::Object(fields) => Node::Object(fields.into_iter().collect()),
    }
}

impl Json {
    /// The tree of a `serde_json::Value`.
    pub fn from_value(value: Value) -> (res: Json)
        ensures
            res@ == document(value),
        decreases document(value),
    {
        match open(value) {
            Node::Null => Json::Null,
            Node::Bool(b) => Json::Bool(b),
            Node::Number(n) => Json::Number(n),
            Node::Text(s) => Json::Text(s),
            Node::Array(items) => {
                let ghost all = items@;
                let mut out: Vec<Json> = Vec::new();
                for item in it: items
                    invariant
                        it.seq() == all,
                        document(value) == Doc::Array(documents(all)),
                        docs(out@) =~= documents(all).take(it.index() as int),
                {
                    proof {
                        let at = it.index() as int;
                        assert(item == all[at]);
                        assert(decreases_to!(document(value) => document(value)->Array_0));
                        assert(decreases_to!(documents(all) => documents(all)[at]));
                    }
                    let ghost done = out@;
                    let tree = Json::from_value(item);
                    out.push(tree);
                    proof {
                        assert(docs(out@) =~= docs(done).push(tree@));
                    }
                }
                let tree = Json::Array(out);
                proof {
                    assert(docs(out@) =~= documents(all));
                }
                tree
            },
            Node::Object(fields) => {
                let ghost all = fields@;
                let mut out: Vec<(String, Json)> = Vec::new();
                for field in it: fields
                    invariant
                        it.seq() == all,
                        distinct_keys(field_documents(all)),
                        document(value) == Doc::Object(assembled(field_documents(all))),
                        field_docs(out@) =~= field_documents(all).take(it.index() as int),
                {
                    proof {
                        let at = it.index() as int;
                        assert(field == all[at]);
                        lemma_assembled_present(field_documents(all), at);
                        lemma_assembled_finite(field_documents(all));
                        let whole = assembled(field_documents(all));
                        assert(decreases_to!(document(value) => document(value)->Object_0));
                        assert(decreases_to!(whole => whole[field.0@]));
                    }
                    let ghost done = out@;
                    let ghost key = field.0@;
                    let tree = Json::from_value(field.1);
                    out.push((field.0, tree));
                    proof {
                        assert(field_docs(out@) =~= field_docs(done).push((key, tree@)));
                    }
                }
                let tree = Json::Object(out);
                proof {
                    assert(field_docs(out@) =~= field_documents(all));
                }
                tree
            },
        }
    }

    /// Reads a document. On failure the complaint of `serde_json` comes back.
    pub fn parse(text: &str) -> (res: Result<Json, String>)
        ensures
            parsed(text@) == (match res {
                Ok(tree) => Ok::<Doc, Seq<char>>(tree@),
                Err(complaint) => Err(complaint@),
            }),
    {
        match read_value(text) {
            Ok(value) => Ok(Json::from_value(value)),
            Err(complaint) => Err(complaint),
        }
    }
}

/// A field is found under its key in an object that has it, and nowhere else; its
/// characters are found where it is a text.
pub proof fn lemma_member(fields: Map<Seq<char>, Doc>, key: Seq<char>, other: Doc)
    ensures
        fields.dom().contains(key) ==> member(Doc::Object(fields), key) == Some(fields[key]),
        !fields.dom().contains(key) ==> member(Doc::Object(fields), key) is None,
        fields.dom().contains(key) && fields[key] is Text ==> text_member(
            Doc::Object(fields),
            key,
        ) == Some(fields[key]->Text_0),
        !(fields.dom().contains(key) && fields[key] is Text) ==> text_member(
            Doc::Object(fields),
            key,
        ) is None,
        !(other is Object) ==> member(other, key) is None && text_member(other, key) is None,
        other is Text ==> characters(other) == Some(other->Text_0),
        !(other is Text) ==> characters(other) is None,
{
}

/// An item is found at its place in an array, and nowhere else.
pub proof fn lemma_element(items: Seq<Doc>, index: int, other: Doc)
    ensures
        0 <= index < items.len() ==> element(Doc::Array(items), index) == Some(items[index]),
        !(0 <= index < items.len()) ==> element(Doc::Array(items), index) is None,
        !(other is Array) ==> element(other, index) is None,
{
}

/// An object has the fields that it is made of, and no others. Where several have
/// the same key, the last of them counts.
pub proof fn lemma_object_of(fields: Seq<(Seq<char>, Doc)>, key: Seq<char>)
    ensures
        forall|at: int|
            0 <= at < fields.len() && (#[trigger] fields[at]).0 == key && (forall|i: int|
                at < i < fields.len() ==> (#[trigger] fields[i]).0 != key) ==> member(
                object_of(fields),
                key,
            ) == Some(fields[at].1),
        (forall|i: int| 0 <= i < fields.len() ==> (#[trigger] fields[i]).0 != key) ==> member(
            object_of(fields),
            key,
        ) is None,
{
    assert forall|at: int|
        0 <= at < fields.len() && (#[trigger] fields[at]).0 == key && (forall|i: int|
            at < i < fields.len() ==> (#[trigger] fields[i]).0 != key) implies member(
        object_of(fields),
        key,
    ) == Some(fields[at].1) by {
        lemma_assembled_present(fields, at);
    }
    if forall|i: int| 0 <= i < fields.len() ==> (#[trigger] fields[i]).0 != key {
        lemma_assembled_absent(fields, key);
    }
}

/// An object whose fields have different keys has each of them under its key.
pub proof fn lemma_distinct_fields(fields: Seq<(Seq<char>, Doc)>)
    requires
        distinct_keys(fields),
    ensures
        forall|at: int|
            0 <= at < fields.len() ==> member(object_of(fields), (#[trigger] fields[at]).0) == Some(
                fields[at].1,
            ),
        object_of(fields) is Object,
        forall|key: Seq<char>|
            #[trigger] object_of(fields)->Object_0.dom().contains(key) ==> exists|at: int|
                0 <= at < fields.len() && (#[trigger] fields[at]).0 == key,
{
    assert forall|at: int| 0 <= at < fields.len() implies member(
        object_of(fields),
        (#[trigger] fields[at]).0,
    ) == Some(fields[at].1) by {
        lemma_object_of(fields, fields[at].0);
    }
    assert forall|key: Seq<char>|
        #[trigger] object_of(fields)->Object_0.dom().contains(key) implies exists|at: int|
        0 <= at < fields.len() && (#[trigger] fields[at]).0 == key by {
        lemma_object_of(fields, key);
    }
}

/// A tree stands for what it holds: a text for its characters, an array for its
/// items in their order, an object for its fields.
pub proof fn lemma_tree(s: String, b: bool, items: Vec<Json>, fields: Vec<(String, Json)>, at: int)
    ensures
        Json::Null@ == Doc::Null,
        Json::Bool(b)@ == Doc::Bool(b),
        Json::Text(s)@ == Doc::Text(s@),
        Json::Array(items)@ is Array,
        Json::Array(items)@->Array_0.len() == items@.len(),
        forall|i: int|
            0 <= i < items@.len() ==> #[trigger] Json::Array(items)@->Array_0[i] == items@[i]@,
        0 <= at < fields@.len() && (forall|i: int|
            at < i < fields@.len() ==> (#[trigger] fields@[i]).0@ != fields@[at].0@) ==> member(
            Json::Object(fields)@,
            fields@[at].0@,
        ) == Some(fields@[at].1@),
{
    let list = field_docs(fields@);
    assert(Json::Object(fields)@ == object_of(list));
    if 0 <= at < fields@.len() {
        assert(list[at].0 == fields@[at].0@);
        lemma_object_of(list, list[at].0);
    }
}

/// The views of trees keep their order, their keys and what they stand for.
pub proof fn lemma_tree_views(
    tree: &Json,
    n: Number,
    items: Seq<Json>,
    fields: Seq<(&str, Json)>,
    own: Seq<(String, Json)>,
)
    ensures
        Json::Number(n)@ == Doc::Number(n),
        doc_of(Some(tree)) == Some(tree@),
        doc_of(None) is None,
        docs(items).len() == items.len(),
        forall|i: int| 0 <= i < items.len() ==> #[trigger] docs(items)[i] == items[i]@,
        named_docs(fields).len() == fields.len(),
        forall|i: int|
            0 <= i < fields.len() ==> (#[trigger] named_docs(fields)[i]).0 == fields[i].0@
                && named_docs(fields)[i].1 == fields[i].1@,
        field_docs(own).len() == own.len(),
        forall|i: int|
            0 <= i < own.len() ==> (#[trigger] field_docs(own)[i]).0 == own[i].0@ && field_docs(
                own,
            )[i].1 == own[i].1@,
{
}

} // verus!
