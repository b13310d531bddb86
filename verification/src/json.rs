//! JSON, as far as the runtime reads it.

use crate::text;
use vstd::prelude::*;

verus! {

/// One JSON value. A number that is no unsigned number of 64 bits is
/// `Number`.
#[derive(Debug, PartialEq, Eq)]
pub enum Json {
    Null,
    Bool(bool),
    Uint(u64),
    Number,
    Text(String),
    List(Vec<Json>),
    Object(Vec<(String, Json)>),
}

/// What a JSON value is.
#[verifier::ext_equal]
pub enum JsonView {
    Null,
    Bool(bool),
    Uint(u64),
    Number,
    Text(Seq<char>),
    List(Seq<JsonView>),
    Object(Seq<(Seq<char>, JsonView)>),
}

impl Json {
    /// The value, as mathematics.
    pub open spec fn view(&self) -> JsonView
        decreases self,
    {
        match self {
            Json::Null => JsonView::Null,
            Json::Bool(b) => JsonView::Bool(*b),
            Json::Uint(n) => JsonView::Uint(*n),
            Json::Number => JsonView::Number,
            Json::Text(s) => JsonView::Text(s@),
            Json::List(v) => JsonView::List(
                Seq::new(
                    v@.len(),
                    |i: int|
                        if 0 <= i < v@.len() {
                            v@[i].view()
                        } else {
                            JsonView::Null
                        },
                ),
            ),
            Json::Object(m) => JsonView::Object(
                Seq::new(
                    m@.len(),
                    |i: int|
                        if 0 <= i < m@.len() {
                            (m@[i].0@, m@[i].1.view())
                        } else {
                            (Seq::empty(), JsonView::Null)
                        },
                ),
            ),
        }
    }
}

/// The view of an optional value.
pub open spec fn opt(v: Option<Json>) -> Option<JsonView> {
    match v {
        Some(v) => Some(v@),
        None => None,
    }
}

/// The view of an optional reference to a value.
pub open spec fn opt_ref(v: Option<&Json>) -> Option<JsonView> {
    match v {
        Some(v) => Some(v@),
        None => None,
    }
}

/// The value that `serde_json::from_str` reads from a text, `None` where it
/// refuses it.
pub uninterp spec fn json_in(s: Seq<char>) -> Option<JsonView>;

/// A value of `serde_json`, which only the conversion below looks into.
#[verifier::external_type_specification]
#[verifier::external_body]
pub struct ExternalJson(serde_json::Value);

/// `serde_json::from_str` on the text, for any JSON value: what it reads
/// depends on the text alone, and its error is dropped.
#[verifier::external_body]
pub(crate) fn parse(s: &str) -> (r: Option<Json>)
    ensures
        opt(r) == json_in(s@),
{
    serde_json::from_str::<serde_json::Value>(s).ok().map(inward)
}

/// The value of the library for a value of `serde_json`, kind by kind.
/// Nothing is claimed of it: it serves `parse`.
#[verifier::external_body]
fn inward(v: serde_json::Value) -> Json {
    match v {
        serde_json::Value::Null => Json::Null,
        serde_json::Value::Bool(b) => Json::Bool(b),
        serde_json::Value::Number(n) => n.as_u64().map_or(Json::Number, Json::Uint),
        serde_json::Value::String(s) => Json::Text(s),
        serde_json::Value::Array(v) => Json::List(v.into_iter().map(inward).collect()),
        serde_json::Value::Object(m) => Json::Object(m.into_iter().map(|(k, v)| (k, inward(v))).collect()),
    }
}

/// The member of an object under its first key `name`, from entry `i` on.
pub open spec fn seek(es: Seq<(Seq<char>, JsonView)>, name: Seq<char>, i: int) -> Option<JsonView>
    decreases es.len() - i,
{
    if i < 0 || i >= es.len() {
        None
    } else if es[i].0 == name {
        Some(es[i].1)
    } else {
        seek(es, name, i + 1)
    }
}

/// The member of an object under a key.
pub open spec fn member(v: Option<JsonView>, name: Seq<char>) -> Option<JsonView> {
    match v {
        Some(JsonView::Object(es)) => seek(es, name, 0),
        _ => None,
    }
}

/// The member of an object under a key.
pub fn field<'a>(v: Option<&'a Json>, name: &str) -> (r: Option<&'a Json>)
    ensures
        opt_ref(r) == member(opt_ref(v), name@),
{
    match v {
        Some(Json::Object(m)) => {
            let ghost es = opt_ref(v)->0->Object_0;
            let mut i: usize = 0;
            while i < m.len()
                invariant
                    i <= m.len(),
                    opt_ref(v) == Some(JsonView::Object(es)),
                    es.len() == m@.len(),
                    forall|k: int| 0 <= k < m@.len() ==> (#[trigger] es[k]) == (m@[k].0@, m@[k].1@),
                    seek(es, name@, 0) == seek(es, name@, i as int),
                decreases m.len() - i,
            {
                assert(es[i as int] == (m@[i as int].0@, m@[i as int].1@));
                if text::same(m[i].0.as_str(), name) {
                    return Some(&m[i].1);
                }
                i = i + 1;
            }
            None
        },
        _ => None,
    }
}

/// A value as an unsigned number.
pub open spec fn as_u64(v: Option<JsonView>) -> Option<u64> {
    match v {
        Some(JsonView::Uint(n)) => Some(n),
        _ => None,
    }
}

/// A value as text.
pub open spec fn as_text(v: Option<JsonView>) -> Option<Seq<char>> {
    match v {
        Some(JsonView::Text(s)) => Some(s),
        _ => None,
    }
}

/// Reads an unsigned number.
pub fn unsigned(v: Option<&Json>) -> (r: Option<u64>)
    ensures
        r == as_u64(opt_ref(v)),
{
    match v {
        Some(Json::Uint(n)) => Some(*n),
        _ => None,
    }
}

/// Reads text.
pub fn words(v: Option<&Json>) -> (r: Option<String>)
    ensures
        text::opt(r) == as_text(opt_ref(v)),
{
    match v {
        Some(Json::Text(s)) => Some(s.clone()),
        _ => None,
    }
}

// ---- laws ----

/// An object's member is the value under the first entry with that key, and
/// there is none where no entry has it, nor in anything else.
pub proof fn a_member_is_the_first_of_its_name(
    es: Seq<(Seq<char>, JsonView)>,
    name: Seq<char>,
    i: int,
)
    ensures
        member(Some(JsonView::Object(es)), name) is None <==> forall|k: int|
            0 <= k < es.len() ==> (#[trigger] es[k]).0 != name,
        0 <= i < es.len() && es[i].0 == name && (forall|k: int|
            0 <= k < i ==> (#[trigger] es[k]).0 != name) ==> member(
            Some(JsonView::Object(es)),
            name,
        ) == Some(es[i].1),
        member(None, name) is None,
        forall|v: JsonView| !(v is Object) ==> (#[trigger] member(Some(v), name)) is None,
{
    sought(es, name, 0, i);
}

proof fn sought(es: Seq<(Seq<char>, JsonView)>, name: Seq<char>, from: int, i: int)
    requires
        0 <= from <= es.len(),
    ensures
        seek(es, name, from) is None <==> forall|k: int|
            from <= k < es.len() ==> (#[trigger] es[k]).0 != name,
        from <= i < es.len() && es[i].0 == name && (forall|k: int|
            from <= k < i ==> (#[trigger] es[k]).0 != name) ==> seek(es, name, from) == Some(
            es[i].1,
        ),
    decreases es.len() - from,
{
    if from < es.len() && es[from].0 != name {
        sought(es, name, from + 1, i);
    }
}

/// A value reads as what it is, and as nothing else.
pub proof fn a_value_reads_as_what_it_is(v: JsonView)
    ensures
        as_u64(Some(v)) == (match v {
            JsonView::Uint(n) => Some(n),
            _ => None,
        }),
        as_text(Some(v)) == (match v {
            JsonView::Text(s) => Some(s),
            _ => None,
        }),
        as_u64(None) is None,
        as_text(None) is None,
{
}

} // verus!
