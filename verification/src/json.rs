//! JSON documents as plain values, and the calls that read and write their
//! text.

use vstd::prelude::*;
use serde_json::{Number, Value};

verus! {

/// A JSON number. `NegInt` is meant for values below zero and `Real` for the
/// text of a number that is no integer, or one too large for 64 bits.
#[derive(Debug, PartialEq, Eq)]
pub enum JsonNumber {
    PosInt(u64),
    NegInt(i64),
    Real(String),
}

/// One entry of a JSON object.
#[derive(Debug, PartialEq, Eq)]
pub struct Member {
    pub key: String,
    pub value: Json,
}

/// A JSON document.
#[derive(Debug, PartialEq, Eq)]
pub enum Json {
    Null,
    Bool(bool),
    Number(JsonNumber),
    Str(String),
    Array(Vec<Json>),
    Object(Vec<Member>),
}

/// What a `JsonNumber` is: the same three cases, the text as characters.
pub enum NumberView {
    PosInt(u64),
    NegInt(i64),
    Real(Seq<char>),
}

/// What a `Json` is: the document as a mathematical value.
pub enum JsonView {
    Null,
    Bool(bool),
    Number(NumberView),
    Str(Seq<char>),
    Array(Seq<JsonView>),
    Object(Seq<(Seq<char>, JsonView)>),
}

impl View for JsonNumber {
    type V = NumberView;

    open spec fn view(&self) -> NumberView {
        match self {
            JsonNumber::PosInt(u) => NumberView::PosInt(*u),
            JsonNumber::NegInt(i) => NumberView::NegInt(*i),
            JsonNumber::Real(t) => NumberView::Real(t@),
        }
    }
}

impl View for Json {
    type V = JsonView;

    open spec fn view(&self) -> JsonView
        decreases self,
    {
        match self {
            Json::Null => JsonView::Null,
            Json::Bool(b) => JsonView::Bool(*b),
            Json::Number(n) => JsonView::Number(n@),
            Json::Str(s) => JsonView::Str(s@),
            Json::Array(items) => JsonView::Array(items_view(items@)),
            Json::Object(members) => JsonView::Object(entries(members@)),
        }
    }
}

/// The views of a list of documents.
pub open spec fn items_view(items: Seq<Json>) -> Seq<JsonView>
    decreases items,
{
    if items.len() == 0 {
        Seq::empty()
    } else {
        items_view(items.drop_last()).push(items.last()@)
    }
}

/// The views of a list of members: each key with its value.
pub open spec fn entries(members: Seq<Member>) -> Seq<(Seq<char>, JsonView)>
    decreases members,
{
    if members.len() == 0 {
        Seq::empty()
    } else {
        entries(members.drop_last()).push((members.last().key@, members.last().value@))
    }
}

/// `items_view` has the length of the list and holds each element's view.
pub proof fn items_view_index(items: Seq<Json>, i: int)
    requires
        0 <= i < items.len(),
    ensures
        items_view(items).len() == items.len(),
        items_view(items)[i] == items[i]@,
    decreases items.len(),
{
    items_view_len(items);
    items_view_len(items.drop_last());
    assert(items_view(items) == items_view(items.drop_last()).push(items.last()@));
    if i < items.len() - 1 {
        items_view_index(items.drop_last(), i);
    }
}

/// `items_view` has the length of the list.
pub proof fn items_view_len(items: Seq<Json>)
    ensures
        items_view(items).len() == items.len(),
    decreases items.len(),
{
    if items.len() > 0 {
        items_view_len(items.drop_last());
        assert(items_view(items) == items_view(items.drop_last()).push(items.last()@));
    } else {
        assert(items_view(items) == Seq::<JsonView>::empty());
    }
}

/// `entries` has the length of the list and holds each member's key and
/// value.
pub proof fn entries_index(members: Seq<Member>, i: int)
    requires
        0 <= i < members.len(),
    ensures
        entries(members).len() == members.len(),
        entries(members)[i] == (members[i].key@, members[i].value@),
    decreases members.len(),
{
    entries_len(members);
    entries_len(members.drop_last());
    assert(entries(members) == entries(members.drop_last()).push(
        (members.last().key@, members.last().value@),
    ));
    if i < members.len() - 1 {
        entries_index(members.drop_last(), i);
    }
}

/// `entries` has the length of the list.
pub proof fn entries_len(members: Seq<Member>)
    ensures
        entries(members).len() == members.len(),
    decreases members.len(),
{
    if members.len() > 0 {
        entries_len(members.drop_last());
        assert(entries(members) == entries(members.drop_last()).push(
            (members.last().key@, members.last().value@),
        ));
    } else {
        assert(entries(members) == Seq::<(Seq<char>, JsonView)>::empty());
    }
}

/// The view of a document that may be missing.
pub open spec fn view_of(doc: Option<Json>) -> Option<JsonView> {
    match doc {
        Some(d) => Some(d@),
        None => None,
    }
}

/// `serde_json::Value`, carried through the conversions as it is.
#[verifier::external_type_specification]
#[verifier::external_body]
pub struct ExValue(Value);

/// `serde_json::Number`, carried through the conversions as it is.
#[verifier::external_type_specification]
#[verifier::external_body]
pub struct ExNumber(Number);

/// What `serde_json::from_str` returns for a text: the document that the
/// text holds, or, where the text is not one JSON document, the error, taken
/// as the text that its `Display` writes.
pub uninterp spec fn parsed(text: Seq<char>) -> Result<JsonView, Seq<char>>;

/// The document that a text holds, if it holds one.
pub open spec fn document(text: Seq<char>) -> Option<JsonView> {
    match parsed(text) {
        Ok(doc) => Some(doc),
        Err(_) => None,
    }
}

/// What reading gave, as a mathematical value.
pub open spec fn reading(r: Result<Json, String>) -> Result<JsonView, Seq<char>> {
    match r {
        Ok(doc) => Ok(doc@),
        Err(why) => Err(why@),
    }
}

/// The one-line text that `serde_json` writes for a document.
pub uninterp spec fn compact_text(doc: JsonView) -> Seq<char>;

/// The indented text that `serde_json::to_string_pretty` writes for a
/// document.
pub uninterp spec fn pretty_text(doc: JsonView) -> Seq<char>;

/// Copies a `serde_json::Value` into a `Json`, node by node. Nothing is
/// claimed of the copy here; the callers name what they return.
#[verifier::external_body]
fn lift(v: &Value) -> Json {
    match v {
        Value::Null => Json::Null,
        Value::Bool(b) => Json::Bool(*b),
        Value::Number(n) => Json::Number(lift_number(n)),
        Value::String(s) => Json::Str(s.clone()),
        Value::Array(a) => Json::Array(a.iter().map(lift).collect()),
        Value::Object(m) => Json::Object(
            m.iter().map(|(k, v)| Member { key: k.clone(), value: lift(v) }).collect()),
    }
}

/// Copies a `serde_json::Number`: by `as_u64` where that gives a value, else
/// by `as_i64`, else as the text that its `Display` writes.
#[verifier::external_body]
fn lift_number(n: &Number) -> JsonNumber {
    match (n.as_u64(), n.as_i64()) {
        (Some(u), _) => JsonNumber::PosInt(u),
        (None, Some(i)) => JsonNumber::NegInt(i),
        (None, None) => JsonNumber::Real(n.to_string()),
    }
}

/// Copies a `Json` into a `serde_json::Value`, node by node. A `Real` whose
/// text is no JSON number becomes `null`. Nothing is claimed of the copy
/// here; the callers name what they return.
#[verifier::external_body]
fn lower(j: &Json) -> Value {
    match j {
        Json::Null => Value::Null,
        Json::Bool(b) => Value::Bool(*b),
        Json::Number(JsonNumber::PosInt(u)) => Value::from(*u),
        Json::Number(JsonNumber::NegInt(i)) => Value::from(*i),
        Json::Number(JsonNumber::Real(t)) => serde_json::from_str::<Number>(t)
            .map(Value::Number).unwrap_or_default(),
        Json::Str(s) => Value::String(s.clone()),
        Json::Array(a) => Value::Array(a.iter().map(lower).collect()),
        Json::Object(m) => Value::Object(
            m.iter().map(|e| (e.key.clone(), lower(&e.value))).collect()),
    }
}

/// Calls `serde_json::from_str` for a `serde_json::Value`. The result is a
/// function of the text alone: the document that the text holds, or the
/// text of the error where it is not one JSON document.
#[verifier::external_body]
pub(crate) fn parse(text: &str) -> (r: Result<Json, String>)
    ensures
        reading(r) == parsed(text@),
{
    match serde_json::from_str::<Value>(text) {
        Ok(v) => Ok(lift(&v)),
        Err(e) => Err(e.to_string()),
    }
}

/// Calls `serde_json::to_string` on the document. The result is a function
/// of the document alone: its JSON text on one line.
#[verifier::external_body]
pub(crate) fn render(doc: &Json) -> (text: String)
    ensures
        text@ == compact_text(doc@),
{
    serde_json::to_string(&lower(doc)).unwrap_or_default()
}

/// Calls `serde_json::to_string_pretty` on the document. The result is a
/// function of the document alone: its JSON text, indented.
#[verifier::external_body]
pub(crate) fn render_pretty(doc: &Json) -> (text: String)
    ensures
        text@ == pretty_text(doc@),
{
    serde_json::to_string_pretty(&lower(doc)).unwrap_or_default()
}

/// Whether two string slices hold the same characters.
pub fn same_text(a: &str, b: &str) -> (same: bool)
    ensures
        same == (a@ == b@),
{
    a.to_owned() == b.to_owned()
}

/// The position of the first entry at or after `from` whose key is `key`.
pub open spec fn entry_index(list: Seq<(Seq<char>, JsonView)>, key: Seq<char>, from: int) -> Option<int>
    decreases list.len() - from,
{
    if from < 0 || from >= list.len() {
        None
    } else if list[from].0 == key {
        Some(from)
    } else {
        entry_index(list, key, from + 1)
    }
}

/// The value of the first entry whose key is `key`.
pub open spec fn entry_value(list: Seq<(Seq<char>, JsonView)>, key: Seq<char>) -> Option<JsonView> {
    match entry_index(list, key, 0) {
        Some(i) => Some(list[i].1),
        None => None,
    }
}

impl JsonView {
    /// The value under `key`, where this is an object that has the key.
    pub open spec fn field(self, key: Seq<char>) -> Option<JsonView> {
        match self {
            JsonView::Object(list) => entry_value(list, key),
            _ => None,
        }
    }

    /// The number, where this is a whole number from 0 up.
    pub open spec fn as_u64(self) -> Option<u64> {
        match self {
            JsonView::Number(NumberView::PosInt(u)) => Some(u),
            _ => None,
        }
    }

    /// The number, where this is a whole number that fits 64 signed bits.
    pub open spec fn as_i64(self) -> Option<i64> {
        match self {
            JsonView::Number(NumberView::PosInt(u)) => if u <= i64::MAX as u64 {
                Some(u as i64)
            } else {
                None
            },
            JsonView::Number(NumberView::NegInt(i)) => Some(i),
            _ => None,
        }
    }

    /// The characters, where this is a string.
    pub open spec fn as_str(self) -> Option<Seq<char>> {
        match self {
            JsonView::Str(s) => Some(s),
            _ => None,
        }
    }

    /// The elements, where this is an array.
    pub open spec fn as_array(self) -> Option<Seq<JsonView>> {
        match self {
            JsonView::Array(items) => Some(items),
            _ => None,
        }
    }

    /// The entries, where this is an object.
    pub open spec fn as_object(self) -> Option<Seq<(Seq<char>, JsonView)>> {
        match self {
            JsonView::Object(list) => Some(list),
            _ => None,
        }
    }
}

/// The position of the first member whose key is `key`, if there is one.
pub fn find_member(members: &Vec<Member>, key: &str) -> (at: Option<usize>)
    ensures
        match at {
            Some(i) => i < members@.len() && entry_index(entries(members@), key@, 0) == Some(i as int),
            None => entry_index(entries(members@), key@, 0).is_none(),
        },
{
    let mut i: usize = 0;
    proof {
        entries_len(members@);
    }
    while i < members.len()
        invariant
            i <= members@.len(),
            entries(members@).len() == members@.len(),
            entry_index(entries(members@), key@, 0) == entry_index(entries(members@), key@, i as int),
        decreases members@.len() - i,
    {
        proof {
            entries_index(members@, i as int);
        }
        if same_text(members[i].key.as_str(), key) {
            return Some(i);
        }
        i += 1;
    }
    None
}

impl Clone for JsonNumber {
    fn clone(&self) -> (r: JsonNumber)
        ensures
            r@ == self@,
    {
        match self {
            JsonNumber::PosInt(u) => JsonNumber::PosInt(*u),
            JsonNumber::NegInt(i) => JsonNumber::NegInt(*i),
            JsonNumber::Real(t) => JsonNumber::Real(t.clone()),
        }
    }
}

impl Clone for Member {
    fn clone(&self) -> (r: Member)
        ensures
            r.key@ == self.key@,
            r.value@ == self.value@,
        decreases self,
    {
        Member { key: self.key.clone(), value: self.value.clone() }
    }
}

impl Clone for Json {
    fn clone(&self) -> (r: Json)
        ensures
            r@ == self@,
        decreases self,
    {
        match self {
            Json::Null => Json::Null,
            Json::Bool(b) => Json::Bool(*b),
            Json::Number(n) => Json::Number(n.clone()),
            Json::Str(s) => Json::Str(s.clone()),
            Json::Array(items) => {
                let mut out: Vec<Json> = Vec::new();
                let mut i: usize = 0;
                assert(decreases_to!(*self => *items));
                while i < items.len()
                    invariant
                        i <= items@.len(),
                        decreases_to!(*self => *items),
                        out@.len() == i,
                        forall|j: int| 0 <= j < i ==> out@[j]@ == items@[j]@,
                        *self == Json::Array(*items),
                    decreases items@.len() - i,
                {
                    assert(decreases_to!(*items => items[i as int]));
                    out.push(items[i].clone());
                    i += 1;
                }
                proof {
                    items_view_len(out@);
                    items_view_len(items@);
                    assert forall|j: int| 0 <= j < items@.len() implies items_view(out@)[j]
                        == items_view(items@)[j] by {
                        items_view_index(out@, j);
                        items_view_index(items@, j);
                    }
                    assert(items_view(out@) =~= items_view(items@));
                }
                Json::Array(out)
            },
            Json::Object(members) => {
                let mut out: Vec<Member> = Vec::new();
                let mut i: usize = 0;
                assert(decreases_to!(*self => *members));
                while i < members.len()
                    invariant
                        i <= members@.len(),
                        decreases_to!(*self => *members),
                        out@.len() == i,
                        forall|j: int| 0 <= j < i ==> out@[j].key@ == members@[j].key@
                            && out@[j].value@ == members@[j].value@,
                        *self == Json::Object(*members),
                    decreases members@.len() - i,
                {
                    assert(decreases_to!(*members => members[i as int]));
                    out.push(members[i].clone());
                    i += 1;
                }
                proof {
                    entries_len(out@);
                    entries_len(members@);
                    assert forall|j: int| 0 <= j < members@.len() implies entries(out@)[j]
                        == entries(members@)[j] by {
                        entries_index(out@, j);
                        entries_index(members@, j);
                    }
                    assert(entries(out@) =~= entries(members@));
                }
                Json::Object(out)
            },
        }
    }
}

/// Adds a member at the end of a list of members.
pub fn push_member(members: &mut Vec<Member>, key: &str, value: Json)
    ensures
        entries(final(members)@) == entries(old(members)@).push((key@, value@)),
{
    let ghost before = members@;
    members.push(Member { key: key.to_owned(), value });
    assert(members@.drop_last() =~= before);
}

impl Json {
    /// The value under `key`, where this is an object that has the key.
    pub fn get(&self, key: &str) -> (r: Option<&Json>)
        ensures
            match r {
                Some(v) => self@.field(key@) == Some(v@),
                None => self@.field(key@).is_none(),
            },
    {
        match self {
            Json::Object(members) => {
                match find_member(members, key) {
                    Some(i) => {
                        proof {
                            entries_index(members@, i as int);
                        }
                        Some(&members[i].value)
                    },
                    None => None,
                }
            },
            _ => None,
        }
    }

    /// The number, where this is a whole number from 0 up.
    pub fn as_u64(&self) -> (r: Option<u64>)
        ensures
            r == self@.as_u64(),
    {
        match self {
            Json::Number(JsonNumber::PosInt(u)) => Some(*u),
            _ => None,
        }
    }

    /// The number, where this is a whole number that fits 64 signed bits.
    pub fn as_i64(&self) -> (r: Option<i64>)
        ensures
            r == self@.as_i64(),
    {
        match self {
            Json::Number(JsonNumber::PosInt(u)) => if *u <= 0x7fff_ffff_ffff_ffffu64 {
                Some(*u as i64)
            } else {
                None
            },
            Json::Number(JsonNumber::NegInt(i)) => Some(*i),
            _ => None,
        }
    }

    /// The characters, where this is a string.
    pub fn as_str(&self) -> (r: Option<&str>)
        ensures
            match r {
                Some(s) => self@.as_str() == Some(s@),
                None => self@.as_str().is_none(),
            },
    {
        match self {
            Json::Str(s) => Some(s.as_str()),
            _ => None,
        }
    }

    /// The elements, where this is an array.
    pub fn as_array(&self) -> (r: Option<&Vec<Json>>)
        ensures
            match r {
                Some(items) => self@.as_array() == Some(items_view(items@)),
                None => self@.as_array().is_none(),
            },
    {
        match self {
            Json::Array(items) => {
                Some(items)
            },
            _ => None,
        }
    }

    /// The members, where this is an object.
    pub fn as_object(&self) -> (r: Option<&Vec<Member>>)
        ensures
            match r {
                Some(members) => self@.as_object() == Some(entries(members@)),
                None => self@.as_object().is_none(),
            },
    {
        match self {
            Json::Object(members) => {
                Some(members)
            },
            _ => None,
        }
    }

    /// Reads one JSON document from a text; where the text is not JSON, the
    /// error is the reader's reason.
    pub fn read(text: &str) -> (r: Result<Json, String>)
        ensures
            reading(r) == parsed(text@),
    {
        parse(text)
    }

    /// Reads one JSON document from a text; `None` where the text is not
    /// JSON.
    pub fn from_text(text: &str) -> (doc: Option<Json>)
        ensures
            view_of(doc) == document(text@),
    {
        match parse(text) {
            Ok(doc) => Some(doc),
            Err(_) => None,
        }
    }

    /// The document's text on one line.
    pub fn to_text(&self) -> (text: String)
        ensures
            text@ == compact_text(self@),
    {
        render(self)
    }

    /// The document's text, indented.
    pub fn to_pretty_text(&self) -> (text: String)
        ensures
            text@ == pretty_text(self@),
    {
        render_pretty(self)
    }
}

} // verus!
