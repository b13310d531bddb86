//! What a start resolves: each thing it would use, with the rule that
//! decided it, and what was found on the way.

use crate::consent_gate::ConsentCheck;
use crate::grants::Grant;
use crate::text;
use vstd::prelude::*;

verus! {

/// A text that was decided, and the name of the rule that decided it.
#[derive(Debug)]
pub struct Decided {
    pub value: String,
    pub rule: String,
}

impl Decided {
    /// The text, with its rule behind it in parentheses.
    pub open spec fn shown(&self) -> Seq<char> {
        self.value@ + " ("@ + self.rule@ + ")"@
    }

    /// Shows the text and its rule.
    pub fn show(&self) -> (r: String)
        ensures
            r@ == self.shown(),
    {
        text::join4(self.value.as_str(), " (", self.rule.as_str(), ")")
    }
}

/// The value of an argument.
#[derive(Debug)]
pub enum ArgValue {
    Bool(bool),
    Int(i64),
    Str(String),
    List(Vec<String>),
}

impl ArgValue {
    fn copied(&self) -> (r: ArgValue)
        ensures
            same_value(r, *self),
    {
        match self {
            ArgValue::Bool(b) => ArgValue::Bool(*b),
            ArgValue::Int(n) => ArgValue::Int(*n),
            ArgValue::Str(s) => ArgValue::Str(s.clone()),
            ArgValue::List(items) => {
                let mut r: Vec<String> = Vec::new();
                let mut i: usize = 0;
                while i < items.len()
                    invariant
                        i <= items.len(),
                        text::texts(r@) == text::texts(items@).subrange(0, i as int),
                    decreases items.len() - i,
                {
                    let ghost had = text::texts(r@);
                    r.push(items[i].clone());
                    assert(text::texts(r@) =~= had.push(items@[i as int]@));
                    assert(text::texts(items@).subrange(0, i + 1) =~= text::texts(
                        items@,
                    ).subrange(0, i as int).push(items@[i as int]@));
                    i = i + 1;
                }
                assert(text::texts(items@).subrange(0, items@.len() as int) =~= text::texts(
                    items@,
                ));
                ArgValue::List(r)
            },
        }
    }
}

/// Whether two values are the same.
pub open spec fn same_value(a: ArgValue, b: ArgValue) -> bool {
    match (a, b) {
        (ArgValue::Bool(x), ArgValue::Bool(y)) => x == y,
        (ArgValue::Int(x), ArgValue::Int(y)) => x == y,
        (ArgValue::Str(x), ArgValue::Str(y)) => x@ == y@,
        (ArgValue::List(x), ArgValue::List(y)) => text::texts(x@) == text::texts(y@),
        _ => false,
    }
}

/// Whether two lists hold the same arguments, in the same order.
pub open spec fn same_args(a: Seq<(String, ArgValue)>, b: Seq<(String, ArgValue)>) -> bool {
    &&& a.len() == b.len()
    &&& forall|i: int|
        0 <= i < a.len() ==> (#[trigger] a[i]).0@ == b[i].0@ && same_value(a[i].1, b[i].1)
}

/// A copy of the arguments.
pub fn copied(args: &Vec<(String, ArgValue)>) -> (r: Vec<(String, ArgValue)>)
    ensures
        same_args(r@, args@),
{
    let mut r: Vec<(String, ArgValue)> = Vec::new();
    let mut i: usize = 0;
    while i < args.len()
        invariant
            i <= args.len(),
            same_args(r@, args@.subrange(0, i as int)),
        decreases args.len() - i,
    {
        let ghost had = r@;
        r.push((args[i].0.clone(), args[i].1.copied()));
        assert forall|j: int| 0 <= j < r@.len() implies (#[trigger] r@[j]).0@ == args@.subrange(
            0,
            i + 1,
        )[j].0@ && same_value(r@[j].1, args@.subrange(0, i + 1)[j].1) by {
            if j < i {
                assert(had[j] == r@[j]);
            }
        }
        i = i + 1;
    }
    assert(args@.subrange(0, args@.len() as int) =~= args@);
    r
}

/// Something that was found while resolving.
#[derive(Debug)]
pub struct Finding {
    /// What the operator is told.
    pub text: String,
    /// Whether it stops a start.
    pub blocks: bool,
}

/// What a profile starts.
#[derive(Debug)]
pub enum Entry {
    /// A file of the deployment.
    File(String),
    /// A program that the binary carries.
    Stdlib(String),
}

impl Entry {
    /// The entry as it is written.
    pub open spec fn shown(&self) -> Seq<char> {
        match self {
            Entry::File(path) => path@,
            Entry::Stdlib(name) => "stdlib:"@ + name@,
        }
    }

    /// Shows the entry as it is written.
    pub fn show(&self) -> (r: String)
        ensures
            r@ == self.shown(),
    {
        match self {
            Entry::File(path) => path.clone(),
            Entry::Stdlib(name) => text::join2("stdlib:", name.as_str()),
        }
    }
}

/// What a start resolves to.
#[derive(Debug)]
pub struct Resolution {
    pub profile: Option<Decided>,
    pub entry: Option<Entry>,
    /// The version of the binary that the root pins.
    pub pin: Option<String>,
    /// How the ceiling compares with what was accepted.
    pub consent: Option<ConsentCheck>,
    pub ceiling: Option<Vec<Grant>>,
    /// The arguments, by name.
    pub args: Vec<(String, ArgValue)>,
    pub findings: Vec<Finding>,
}

/// The first finding at or after place `i` that stops a start.
pub open spec fn first_blocking(findings: Seq<Finding>, i: int) -> Option<int>
    decreases findings.len() - i,
{
    if i < 0 || i >= findings.len() {
        None
    } else if findings[i].blocks {
        Some(i)
    } else {
        first_blocking(findings, i + 1)
    }
}

impl Resolution {
    /// The first finding that stops a start.
    pub fn blocker(&self) -> (r: Option<&Finding>)
        ensures
            match first_blocking(self.findings@, 0) {
                Some(i) => r matches Some(f) && *f == self.findings@[i] && 0 <= i
                    < self.findings@.len(),
                None => r is None,
            },
    {
        let mut i: usize = 0;
        while i < self.findings.len()
            invariant
                i <= self.findings.len(),
                first_blocking(self.findings@, 0) == first_blocking(self.findings@, i as int),
            decreases self.findings.len() - i,
        {
            if self.findings[i].blocks {
                return Some(&self.findings[i]);
            }
            i = i + 1;
        }
        None
    }
}

// ---- laws ----

/// A start is stopped by the first finding that stops one, and by no other;
/// where none does, none is named.
pub proof fn the_blocker_is_the_first(findings: Seq<Finding>, i: int)
    requires
        0 <= i,
    ensures
        match first_blocking(findings, i) {
            Some(b) => i <= b < findings.len() && findings[b].blocks && forall|j: int|
                i <= j < b ==> !(#[trigger] findings[j]).blocks,
            None => forall|j: int| i <= j < findings.len() ==> !(#[trigger] findings[j]).blocks,
        },
    decreases findings.len() - i,
{
    if i < findings.len() && !findings[i].blocks {
        the_blocker_is_the_first(findings, i + 1);
    }
}

/// What was decided is shown with the rule that decided it, and an entry as it
/// is written.
pub proof fn what_is_shown_is_what_was_decided(d: Decided, path: String, name: String)
    ensures
        d.shown() == d.value@ + " ("@ + d.rule@ + ")"@,
        Entry::File(path).shown() == path@,
        Entry::Stdlib(name).shown() == "stdlib:"@ + name@,
{
}

/// Two lists of the same arguments agree in every name and every value.
pub proof fn same_arguments_agree(
    a: Seq<(String, ArgValue)>,
    b: Seq<(String, ArgValue)>,
    i: int,
)
    requires
        same_args(a, b),
        0 <= i < a.len(),
    ensures
        a.len() == b.len(),
        a[i].0@ == b[i].0@,
        match a[i].1 {
            ArgValue::Bool(x) => b[i].1 == ArgValue::Bool(x),
            ArgValue::Int(x) => b[i].1 == ArgValue::Int(x),
            ArgValue::Str(x) => b[i].1 matches ArgValue::Str(y) && x@ == y@,
            ArgValue::List(x) => b[i].1 matches ArgValue::List(y) && text::texts(x@) == text::texts(
                y@,
            ),
        },
{
}

} // verus!
