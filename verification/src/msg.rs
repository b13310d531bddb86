//! Messages between the runtime and the instances it runs: MessagePack
//! values, as the library holds them, and their bytes.

use crate::text;
use rmpv::Value;
use vstd::prelude::*;

verus! {

/// One message value.
///
/// An integer is `Uint` when it is zero or more and `Nint` when it is less.
/// A string whose bytes are not UTF-8 is `RawText`. A floating-point number is
/// its bits, `Single` or `Double`, and an extension is its type and its bytes:
/// no message of the runtime's own holds one, but what a program asks for may.
#[derive(Debug, PartialEq, Eq)]
pub enum Datum {
    Nil,
    Bool(bool),
    Uint(u64),
    Nint(i64),
    Text(String),
    RawText(Vec<u8>),
    Binary(Vec<u8>),
    List(Vec<Datum>),
    Table(Vec<(Datum, Datum)>),
    Single(u32),
    Double(u64),
    Extension(i8, Vec<u8>),
}

/// What a message value is.
#[verifier::ext_equal]
pub enum Msg {
    Nil,
    Bool(bool),
    Int(int),
    Text(Seq<char>),
    RawText(Seq<u8>),
    Binary(Seq<u8>),
    List(Seq<Msg>),
    Table(Seq<(Msg, Msg)>),
    Single(u32),
    Double(u64),
    Extension(i8, Seq<u8>),
}

impl Datum {
    /// The value, as mathematics.
    pub open spec fn view(&self) -> Msg
        decreases self,
    {
        match self {
            Datum::Nil => Msg::Nil,
            Datum::Bool(b) => Msg::Bool(*b),
            Datum::Uint(n) => Msg::Int(*n as int),
            Datum::Nint(n) => Msg::Int(*n as int),
            Datum::Text(s) => Msg::Text(s@),
            Datum::RawText(b) => Msg::RawText(b@),
            Datum::Binary(b) => Msg::Binary(b@),
            Datum::List(v) => Msg::List(
                Seq::new(
                    v@.len(),
                    |i: int|
                        if 0 <= i < v@.len() {
                            v@[i].view()
                        } else {
                            Msg::Nil
                        },
                ),
            ),
            Datum::Table(m) => Msg::Table(
                Seq::new(
                    m@.len(),
                    |i: int|
                        if 0 <= i < m@.len() {
                            (m@[i].0.view(), m@[i].1.view())
                        } else {
                            (Msg::Nil, Msg::Nil)
                        },
                ),
            ),
            Datum::Single(bits) => Msg::Single(*bits),
            Datum::Double(bits) => Msg::Double(*bits),
            Datum::Extension(kind, b) => Msg::Extension(*kind, b@),
        }
    }
}

/// The view of an optional value.
pub open spec fn opt(v: Option<Datum>) -> Option<Msg> {
    match v {
        Some(v) => Some(v@),
        None => None,
    }
}

/// The view of an optional reference to a value.
pub open spec fn opt_ref(v: Option<&Datum>) -> Option<Msg> {
    match v {
        Some(v) => Some(v@),
        None => None,
    }
}

// ---- bytes ----

/// The most tables and lists that a message nests.
pub const NESTING: u8 = 8;

/// Whether a value is one that messages are made of, nested at most `depth`
/// deep: no raw text, no float and no extension in it.
pub open spec fn plain(m: Msg, depth: nat) -> bool
    decreases depth,
{
    match m {
        Msg::RawText(_) => false,
        Msg::Single(_) => false,
        Msg::Double(_) => false,
        Msg::Extension(_, _) => false,
        Msg::List(v) => depth > 0 && forall|i: int|
            0 <= i < v.len() ==> plain(#[trigger] v[i], (depth - 1) as nat),
        Msg::Table(es) => depth > 0 && forall|i: int|
            0 <= i < es.len() ==> plain((#[trigger] es[i]).0, (depth - 1) as nat) && plain(
                es[i].1,
                (depth - 1) as nat,
            ),
        _ => true,
    }
}

/// Whether every length in the value fits the format's 32-bit length field.
pub open spec fn sized(m: Msg, depth: nat) -> bool
    decreases depth,
{
    match m {
        Msg::Text(s) => vstd::utf8::encode_utf8(s).len() <= u32::MAX,
        Msg::Binary(b) => b.len() <= u32::MAX,
        Msg::List(v) => v.len() <= u32::MAX && depth > 0 && forall|i: int|
            0 <= i < v.len() ==> sized(#[trigger] v[i], (depth - 1) as nat),
        Msg::Table(es) => es.len() <= u32::MAX && depth > 0 && forall|i: int|
            0 <= i < es.len() ==> sized((#[trigger] es[i]).0, (depth - 1) as nat) && sized(
                es[i].1,
                (depth - 1) as nat,
            ),
        _ => true,
    }
}

/// The bytes that `rmpv::encode::write_value` writes for a value.
pub uninterp spec fn packed(m: Msg) -> Seq<u8>;

/// The value that `rmpv::decode::read_value` reads at the start of some
/// bytes, `None` where it refuses them.
pub uninterp spec fn unpacked(raw: Seq<u8>) -> Option<Msg>;

/// A value of `rmpv`, which only the two conversions below look into.
#[verifier::external_type_specification]
#[verifier::external_body]
pub struct ExternalValue(rmpv::Value);

/// `rmpv::encode::write_value`, into memory: what it writes depends on the
/// value alone. Where the lengths fit, `rmpv::decode::read_value` reads the
/// written bytes back as the same value: the nesting is far below its limit
/// and each of these kinds is written under a marker that it reads as that
/// kind.
#[verifier::external_body]
pub(crate) fn encode(v: &Datum) -> (r: Vec<u8>)
    requires
        plain(v@, NESTING as nat),
    ensures
        r@ == packed(v@),
        sized(v@, NESTING as nat) ==> unpacked(r@) == Some(v@),
{
    let mut out = Vec::new();
    rmpv::encode::write_value(&mut out, &outward(v)).expect("memory takes every byte");
    out
}

/// The words of the error with which `rmpv::decode::read_value` refuses some
/// bytes.
pub uninterp spec fn unpack_error(raw: Seq<u8>) -> Seq<char>;

/// `rmpv::decode::read_value` on the given bytes: what it reads, and the
/// words of its error, depend on the bytes alone.
#[verifier::external_body]
pub(crate) fn decode(raw: &[u8]) -> (r: Result<Datum, String>)
    ensures
        match unpacked(raw@) {
            Some(m) => r matches Ok(v) && v@ == m,
            None => r matches Err(why) && why@ == unpack_error(raw@),
        },
{
    rmpv::decode::read_value(&mut &raw[..]).map(inward).map_err(|e| e.to_string())
}

/// The value of `rmpv` for a plain value of the library, kind by kind. Nothing
/// is claimed of it: it serves `encode`, which is handed plain values only, so
/// that what is left to the last arm is nil.
#[verifier::external_body]
fn outward(v: &Datum) -> Value {
    match v {
        Datum::Bool(b) => Value::from(*b),
        Datum::Uint(n) => Value::from(*n),
        Datum::Nint(n) => Value::from(*n),
        Datum::Text(s) => Value::from(s.as_str()),
        Datum::Binary(b) => Value::Binary(b.clone()),
        Datum::List(v) => Value::Array(v.iter().map(outward).collect()),
        Datum::Table(m) => m.iter().map(|(k, v)| (outward(k), outward(v))).collect::<Vec<_>>().into(),
        _ => Value::Nil,
    }
}

/// The value of the library for a value of `rmpv`, kind by kind. Nothing is
/// claimed of it: it serves `decode`.
#[verifier::external_body]
fn inward(v: Value) -> Datum {
    match v {
        Value::Array(v) => Datum::List(v.into_iter().map(inward).collect()),
        Value::Map(m) => Datum::Table(m.into_iter().map(|(k, v)| (inward(k), inward(v))).collect()),
        Value::F32(x) => Datum::Single(x.to_bits()),
        Value::F64(x) => Datum::Double(x.to_bits()),
        Value::Ext(kind, b) => Datum::Extension(kind, b),
        other => inward_simple(other),
    }
}

/// The value of the library for a value of `rmpv` of one of the kinds that
/// `inward` leaves to it, kind by kind. Nothing is claimed of it: it serves
/// `inward`.
#[verifier::external_body]
fn inward_simple(v: Value) -> Datum {
    match v {
        Value::Boolean(b) => Datum::Bool(b),
        Value::Integer(n) => n.as_u64().map_or(Datum::Nint(n.as_i64().unwrap_or(0)), Datum::Uint),
        Value::String(s) => s.as_str().map_or(Datum::RawText(s.as_bytes().to_vec()), |t| Datum::Text(t.to_string())),
        Value::Binary(b) => Datum::Binary(b),
        _ => Datum::Nil,
    }
}

// ---- reading a value ----

/// The member of a list of entries under the first key `name`, from entry
/// `i` on.
pub open spec fn seek(es: Seq<(Msg, Msg)>, name: Seq<char>, i: int) -> Option<Msg>
    decreases es.len() - i,
{
    if i < 0 || i >= es.len() {
        None
    } else if es[i].0 == Msg::Text(name) {
        Some(es[i].1)
    } else {
        seek(es, name, i + 1)
    }
}

/// The member of a table under a text key; the first such key counts.
pub open spec fn member(m: Msg, name: Seq<char>) -> Option<Msg> {
    match m {
        Msg::Table(es) => seek(es, name, 0),
        _ => None,
    }
}

/// The member of a table under a text key.
pub fn field<'a>(v: &'a Datum, name: &str) -> (r: Option<&'a Datum>)
    ensures
        opt_ref(r) == member(v@, name@),
{
    match v {
        Datum::Table(m) => {
            let ghost es = v@->Table_0;
            let mut i: usize = 0;
            while i < m.len()
                invariant
                    i <= m.len(),
                    v@ == Msg::Table(es),
                    *v == Datum::Table(*m),
                    es.len() == m@.len(),
                    forall|k: int|
                        0 <= k < m@.len() ==> (#[trigger] es[k]) == (m@[k].0@, m@[k].1@),
                    seek(es, name@, 0) == seek(es, name@, i as int),
                decreases m.len() - i,
            {
                assert(es[i as int] == (m@[i as int].0@, m@[i as int].1@));
                if let Datum::Text(key) = &m[i].0 {
                    if text::same(key.as_str(), name) {
                        return Some(&m[i].1);
                    }
                }
                i = i + 1;
            }
            None
        },
        _ => None,
    }
}

/// A value as an unsigned number of 64 bits.
pub open spec fn as_u64(m: Option<Msg>) -> Option<u64> {
    match m {
        Some(Msg::Int(n)) => if 0 <= n <= u64::MAX {
            Some(n as u64)
        } else {
            None
        },
        _ => None,
    }
}

/// A value as a signed number of 64 bits.
pub open spec fn as_i64(m: Option<Msg>) -> Option<i64> {
    match m {
        Some(Msg::Int(n)) => if i64::MIN <= n <= i64::MAX {
            Some(n as i64)
        } else {
            None
        },
        _ => None,
    }
}

/// A value as text.
pub open spec fn as_text(m: Option<Msg>) -> Option<Seq<char>> {
    match m {
        Some(Msg::Text(s)) => Some(s),
        _ => None,
    }
}

/// A value as a truth value.
pub open spec fn as_bool(m: Option<Msg>) -> Option<bool> {
    match m {
        Some(Msg::Bool(b)) => Some(b),
        _ => None,
    }
}

/// The bytes of a string or of binary data.
pub open spec fn as_bytes(m: Option<Msg>) -> Option<Seq<u8>> {
    match m {
        Some(Msg::Text(s)) => Some(vstd::utf8::encode_utf8(s)),
        Some(Msg::RawText(b)) => Some(b),
        Some(Msg::Binary(b)) => Some(b),
        _ => None,
    }
}

/// Reads an unsigned number.
pub fn unsigned(v: Option<&Datum>) -> (r: Option<u64>)
    ensures
        r == as_u64(opt_ref(v)),
{
    match v {
        Some(Datum::Uint(n)) => Some(*n),
        Some(Datum::Nint(n)) => if *n >= 0 {
            Some(*n as u64)
        } else {
            None
        },
        _ => None,
    }
}

/// Reads a signed number.
pub fn signed(v: Option<&Datum>) -> (r: Option<i64>)
    ensures
        r == as_i64(opt_ref(v)),
{
    match v {
        Some(Datum::Uint(n)) => if *n <= i64::MAX as u64 {
            Some(*n as i64)
        } else {
            None
        },
        Some(Datum::Nint(n)) => Some(*n),
        _ => None,
    }
}

/// Reads text.
pub fn words(v: Option<&Datum>) -> (r: Option<String>)
    ensures
        text::opt(r) == as_text(opt_ref(v)),
{
    match v {
        Some(Datum::Text(s)) => Some(s.clone()),
        _ => None,
    }
}

/// Reads a truth value.
pub fn truth(v: Option<&Datum>) -> (r: Option<bool>)
    ensures
        r == as_bool(opt_ref(v)),
{
    match v {
        Some(Datum::Bool(b)) => Some(*b),
        _ => None,
    }
}

/// The view of optional bytes.
pub open spec fn opt_bytes(b: Option<Vec<u8>>) -> Option<Seq<u8>> {
    match b {
        Some(b) => Some(b@),
        None => None,
    }
}

/// Reads the bytes of a string or of binary data.
pub fn bytes(v: Option<&Datum>) -> (r: Option<Vec<u8>>)
    ensures
        opt_bytes(r) == as_bytes(opt_ref(v)),
{
    match v {
        Some(Datum::Text(s)) => Some(vstd::slice::slice_to_vec(s.as_str().as_bytes())),
        Some(Datum::RawText(b)) => Some(vstd::slice::slice_to_vec(b.as_slice())),
        Some(Datum::Binary(b)) => Some(vstd::slice::slice_to_vec(b.as_slice())),
        _ => None,
    }
}

// ---- building a table ----

/// The entries of a table, as mathematics.
pub open spec fn entries(es: Seq<(Datum, Datum)>) -> Seq<(Msg, Msg)> {
    Seq::new(es.len(), |i: int| (es[i].0@, es[i].1@))
}

/// Adds one entry under a text key.
pub fn put(es: &mut Vec<(Datum, Datum)>, key: &str, v: Datum)
    ensures
        entries(final(es)@) == entries(old(es)@).push((Msg::Text(key@), v@)),
{
    let k = Datum::Text(key.to_owned());
    assert(k@ == Msg::Text(key@));
    es.push((k, v));
    assert(entries(es@) =~= entries(old(es)@).push((Msg::Text(key@), v@)));
}

/// The table with these entries.
pub fn table(es: Vec<(Datum, Datum)>) -> (r: Datum)
    ensures
        r@ == Msg::Table(entries(es@)),
{
    let r = Datum::Table(es);
    assert(r@->Table_0 =~= entries(es@));
    r
}

/// A text value.
pub fn say(s: &str) -> (r: Datum)
    ensures
        r@ == Msg::Text(s@),
{
    Datum::Text(s.to_owned())
}

/// A table of `plain` members is plain, one level deeper.
pub proof fn plain_table(es: Seq<(Msg, Msg)>, depth: nat)
    requires
        forall|i: int|
            0 <= i < es.len() ==> plain((#[trigger] es[i]).0, depth) && plain(es[i].1, depth),
    ensures
        plain(Msg::Table(es), depth + 1),
{
}

/// A table's member is the value under the first entry with that text for its
/// key, and there is none where no entry has it.
pub proof fn a_member_is_the_first_of_its_name(es: Seq<(Msg, Msg)>, name: Seq<char>, i: int)
    ensures
        member(Msg::Table(es), name) is None <==> forall|k: int|
            0 <= k < es.len() ==> (#[trigger] es[k]).0 != Msg::Text(name),
        0 <= i < es.len() && es[i].0 == Msg::Text(name) && (forall|k: int|
            0 <= k < i ==> (#[trigger] es[k]).0 != Msg::Text(name)) ==> member(
            Msg::Table(es),
            name,
        ) == Some(es[i].1),
{
    sought(es, name, 0, i);
}

proof fn sought(es: Seq<(Msg, Msg)>, name: Seq<char>, from: int, i: int)
    requires
        0 <= from <= es.len(),
    ensures
        seek(es, name, from) is None <==> forall|k: int|
            from <= k < es.len() ==> (#[trigger] es[k]).0 != Msg::Text(name),
        from <= i < es.len() && es[i].0 == Msg::Text(name) && (forall|k: int|
            from <= k < i ==> (#[trigger] es[k]).0 != Msg::Text(name)) ==> seek(es, name, from)
            == Some(es[i].1),
    decreases es.len() - from,
{
    if from < es.len() && es[from].0 != Msg::Text(name) {
        sought(es, name, from + 1, i);
    }
}

/// Only a table has members.
pub proof fn only_a_table_has_members(m: Msg, name: Seq<char>)
    requires
        !(m is Table),
    ensures
        member(m, name) is None,
{
}

/// A value reads as what it is: a number where it fits, a text, a truth value,
/// and the bytes of a text or of binary data; nothing reads as another kind.
pub proof fn a_value_reads_as_what_it_is(n: int, s: Seq<char>, b: Seq<u8>, t: bool)
    ensures
        as_u64(Some(Msg::Int(n))) == (if 0 <= n < 0x1_0000_0000_0000_0000 {
            Some(n as u64)
        } else {
            None
        }),
        as_i64(Some(Msg::Int(n))) == (if -0x8000_0000_0000_0000 <= n < 0x8000_0000_0000_0000 {
            Some(n as i64)
        } else {
            None
        }),
        as_text(Some(Msg::Text(s))) == Some(s),
        as_bool(Some(Msg::Bool(t))) == Some(t),
        as_bytes(Some(Msg::Text(s))) == Some(vstd::utf8::encode_utf8(s)),
        as_bytes(Some(Msg::Binary(b))) == Some(b),
        as_bytes(Some(Msg::RawText(b))) == Some(b),
        as_text(Some(Msg::Binary(b))) is None,
        as_u64(Some(Msg::Text(s))) is None,
        as_i64(Some(Msg::Text(s))) is None,
        as_bool(Some(Msg::Int(n))) is None,
        as_bytes(Some(Msg::Int(n))) is None,
        as_u64(None) is None,
        as_i64(None) is None,
        as_text(None) is None,
        as_bool(None) is None,
        as_bytes(None) is None,
{
}

/// A message has tables and lists at most eight deep, and holds no raw text, no
/// extension and no number with a fraction.
pub proof fn nesting_is_bounded(es: Seq<(Msg, Msg)>, v: Seq<Msg>, m: Msg, depth: nat)
    ensures
        NESTING == 8,
        !plain(Msg::Table(es), 0),
        !plain(Msg::List(v), 0),
        plain(m, depth) ==> !(m is RawText) && !(m is Single) && !(m is Double) && !(m is Extension),
        depth > 0 && es.len() == 0 ==> plain(Msg::Table(es), depth),
        depth > 0 && v.len() == 0 ==> plain(Msg::List(v), depth),
{
}

} // verus!
