//! The grants desk: what a node is told about a grant it asks for.

use crate::grants;
use crate::grants::{Effect, Grant};
use crate::msg;
use crate::msg::{Datum, Msg};
use crate::paths;
use crate::text;
use vstd::prelude::*;

verus! {

/// Tells whether the operator's record is for this root.
pub fn same_root(consent_root: &str, project_root: &str) -> (r: Result<(), String>)
    ensures
        if consent_root@ == project_root@ {
            r is Ok
        } else {
            r matches Err(why) && why@ == "consent.json is for root "@ + consent_root@
                + ", but this root is "@ + project_root@
        },
{
    if text::same(consent_root, project_root) {
        Ok(())
    } else {
        Err(
            text::join4(
                "consent.json is for root ",
                consent_root,
                ", but this root is ",
                project_root,
            ),
        )
    }
}

/// What the root could be allowed: the capabilities that its ceiling grants,
/// and nothing where the ceiling cannot be read.
pub fn ceiling(caps: Option<&Vec<Grant>>) -> (r: Vec<String>)
    ensures
        match caps {
            Some(gs) => text::texts(r@) == grants::with_effect(grants::views(gs@), Effect::Grant),
            None => r@.len() == 0,
        },
{
    match caps {
        Some(gs) => grants::select(gs, Effect::Grant),
        None => Vec::new(),
    }
}

// ---- what a node is told ----

/// The answer that a request waits.
pub open spec fn pending_msg(identity: Seq<char>) -> Msg {
    Msg::Table(
        seq![
            (Msg::Text("status"@), Msg::Text("pending"@)),
            (Msg::Text("request"@), Msg::Text(identity)),
        ],
    )
}

/// The answer that a request is granted, within the window.
pub open spec fn granted_msg(from: Option<Seq<char>>, until: Option<Seq<char>>) -> Msg {
    let a = seq![(Msg::Text("status"@), Msg::Text("granted"@))];
    let b = match from {
        Some(t) => a.push((Msg::Text("from"@), Msg::Text(t))),
        None => a,
    };
    Msg::Table(
        match until {
            Some(t) => b.push((Msg::Text("until"@), Msg::Text(t))),
            None => b,
        },
    )
}

/// The answer that a request is denied.
pub open spec fn denied_msg(reason: Seq<char>) -> Msg {
    Msg::Table(
        seq![
            (Msg::Text("status"@), Msg::Text("denied"@)),
            (Msg::Text("reason"@), Msg::Text(reason)),
        ],
    )
}

/// The answer that a request waits.
pub fn pending_value(identity: &str) -> (r: Datum)
    ensures
        r@ == pending_msg(identity@),
{
    let mut es: Vec<(Datum, Datum)> = Vec::new();
    msg::put(&mut es, "status", msg::say("pending"));
    msg::put(&mut es, "request", msg::say(identity));
    let r = msg::table(es);
    assert(r@->Table_0 =~= pending_msg(identity@)->Table_0);
    r
}

/// The answer that a request is granted.
pub fn granted_value(from: &Option<String>, until: &Option<String>) -> (r: Datum)
    ensures
        r@ == granted_msg(text::opt(*from), text::opt(*until)),
{
    let mut es: Vec<(Datum, Datum)> = Vec::new();
    msg::put(&mut es, "status", msg::say("granted"));
    if let Some(t) = from {
        msg::put(&mut es, "from", msg::say(t.as_str()));
    }
    if let Some(t) = until {
        msg::put(&mut es, "until", msg::say(t.as_str()));
    }
    let r = msg::table(es);
    assert(r@->Table_0 =~= granted_msg(text::opt(*from), text::opt(*until))->Table_0);
    r
}

/// The answer that a request is denied.
pub fn denied_value(reason: &str) -> (r: Datum)
    ensures
        r@ == denied_msg(reason@),
{
    let mut es: Vec<(Datum, Datum)> = Vec::new();
    msg::put(&mut es, "status", msg::say("denied"));
    msg::put(&mut es, "reason", msg::say(reason));
    let r = msg::table(es);
    assert(r@->Table_0 =~= denied_msg(reason@)->Table_0);
    r
}

// ---- what a node asks ----

/// What a node asked for, as it wrote it.
#[derive(Debug)]
pub struct Asked<'a> {
    pub realm: String,
    /// What it asks to have, where it says.
    pub ask: Option<&'a Datum>,
    pub reason: String,
    pub valid_from: Option<String>,
    pub valid_until: Option<String>,
}

/// What an ask is.
#[verifier::ext_equal]
pub struct AskedView {
    pub realm: Seq<char>,
    pub ask: Option<Msg>,
    pub reason: Seq<char>,
    pub valid_from: Option<Seq<char>>,
    pub valid_until: Option<Seq<char>>,
}

/// What the arguments of a call ask for.
pub open spec fn asked_in(args: Option<Msg>) -> Result<AskedView, Seq<char>> {
    match args {
        None => Err("request_grant takes {realm, ask, reason} and got nothing"@),
        Some(m) => match msg::as_text(msg::member(m, "realm"@)) {
            None => Err("request_grant: `realm` is required and is a dotted path"@),
            Some(realm) => Ok(
                AskedView {
                    realm,
                    ask: msg::member(m, "ask"@),
                    reason: match msg::as_text(msg::member(m, "reason"@)) {
                        Some(s) => s,
                        None => Seq::empty(),
                    },
                    valid_from: msg::as_text(msg::member(m, "valid_from"@)),
                    valid_until: msg::as_text(msg::member(m, "valid_until"@)),
                },
            ),
        },
    }
}

impl<'a> Asked<'a> {
    /// The ask, as mathematics.
    pub open spec fn view(&self) -> AskedView {
        AskedView {
            realm: self.realm@,
            ask: msg::opt_ref(self.ask),
            reason: self.reason@,
            valid_from: text::opt(self.valid_from),
            valid_until: text::opt(self.valid_until),
        }
    }

    /// Reads what the arguments of a call ask for.
    pub fn decode(args: Option<&'a Datum>) -> (r: Result<Asked<'a>, String>)
        ensures
            match asked_in(msg::opt_ref(args)) {
                Ok(v) => r matches Ok(a) && a@ == v,
                Err(what) => r matches Err(why) && why@ == what,
            },
    {
        let args = match args {
            None => return Err(
                "request_grant takes {realm, ask, reason} and got nothing".to_owned(),
            ),
            Some(a) => a,
        };
        let realm = match msg::words(msg::field(args, "realm")) {
            None => return Err(
                "request_grant: `realm` is required and is a dotted path".to_owned(),
            ),
            Some(s) => s,
        };
        let reason: String = match msg::words(msg::field(args, "reason")) {
            Some(s) => s,
            None => String::new(),
        };
        Ok(
            Asked {
                realm,
                ask: msg::field(args, "ask"),
                reason,
                valid_from: msg::words(msg::field(args, "valid_from")),
                valid_until: msg::words(msg::field(args, "valid_until")),
            },
        )
    }
}

/// How the parts of an ask read: its realm, what it asks for as something
/// that can be hashed, and the two ends of its window in seconds, where it
/// names them.
#[derive(Debug)]
pub struct Readings {
    pub realm: Result<(), String>,
    pub ask: Result<(), String>,
    pub valid_from: Option<Result<i64, String>>,
    pub valid_until: Option<Result<i64, String>>,
}

/// The window in which a grant is asked for.
#[derive(Clone, Copy, Debug, PartialEq, Eq, Structural)]
pub struct Window {
    pub from: Option<i64>,
    pub until: Option<i64>,
}

/// One end of the window.
pub open spec fn end_of(read: Option<Result<i64, String>>) -> Result<Option<i64>, Seq<char>> {
    match read {
        None => Ok(None),
        Some(Ok(t)) => Ok(Some(t)),
        Some(Err(e)) => Err(e@),
    }
}

/// The window of an ask whose parts all read, or what is wrong with the first
/// that does not.
pub open spec fn window_in(r: Readings) -> Result<Window, Seq<char>> {
    match (r.realm, r.ask, end_of(r.valid_from), end_of(r.valid_until)) {
        (Err(e), _, _, _) => Err(e@),
        (_, Err(e), _, _) => Err(e@),
        (_, _, Err(e), _) => Err(e),
        (_, _, _, Err(e)) => Err(e),
        (Ok(_), Ok(_), Ok(from), Ok(until)) => Ok(Window { from, until }),
    }
}

/// Takes in how the parts of an ask read. An ask that cannot be hashed cannot
/// be signed, so it is refused here and not where nobody can see why.
pub fn window(readings: Readings) -> (r: Result<Window, String>)
    ensures
        match window_in(readings) {
            Ok(w) => r == Ok::<Window, String>(w),
            Err(what) => r matches Err(why) && why@ == what,
        },
{
    if let Err(e) = readings.realm {
        return Err(e);
    }
    if let Err(e) = readings.ask {
        return Err(e);
    }
    let from: Option<i64> = match readings.valid_from {
        None => None,
        Some(Ok(t)) => Some(t),
        Some(Err(e)) => return Err(e),
    };
    let until: Option<i64> = match readings.valid_until {
        None => None,
        Some(Ok(t)) => Some(t),
        Some(Err(e)) => return Err(e),
    };
    Ok(Window { from, until })
}

// ---- the decisions on file ----

/// What verifying a decision came to.
#[derive(Debug)]
pub enum Verdict {
    /// It grants, within the window.
    Granted { from: Option<String>, until: Option<String> },
    /// It denies.
    Denied,
    /// It does not verify, and which step failed.
    Unverified(String),
}

/// What one file among the decisions is.
#[derive(Debug)]
pub enum Filed {
    /// Nothing that this desk can read; it is somebody else's to keep.
    NotADecision,
    /// A decision: whether it is over, which request it answers, and what
    /// verifying it came to.
    Decision { expired: bool, request_hash: String, verdict: Verdict },
}

/// What is done on disk.
#[derive(Debug, PartialEq, Eq)]
pub enum Act {
    /// Remove a file; one that cannot be removed stays.
    Remove(String),
    /// Write a file.
    Write(String, String),
}

/// What an act is.
#[verifier::ext_equal]
pub enum ActView {
    Remove(Seq<char>),
    Write(Seq<char>, Seq<char>),
}

impl Act {
    /// The act, as mathematics.
    pub open spec fn view(&self) -> ActView {
        match self {
            Act::Remove(p) => ActView::Remove(p@),
            Act::Write(p, s) => ActView::Write(p@, s@),
        }
    }
}

/// The acts of a list, as mathematics.
pub open spec fn act_views(acts: Seq<Act>) -> Seq<ActView> {
    Seq::new(acts.len(), |i: int| acts[i]@)
}

/// Whether a file answers a request: a decision that is not over, about it.
pub open spec fn answers(f: Filed, identity: Seq<char>) -> bool {
    f matches Filed::Decision { expired, request_hash, verdict } && !expired && request_hash@
        == identity
}

/// The place of the first file, from `i` on, that answers the request.
pub open spec fn standing(files: Seq<(String, Filed)>, identity: Seq<char>, i: int) -> Option<int>
    decreases files.len() - i,
{
    if i < 0 || i >= files.len() {
        None
    } else if answers(files[i].1, identity) {
        Some(i)
    } else {
        standing(files, identity, i + 1)
    }
}

/// The removals of the decisions that are over among the first `n` files.
pub open spec fn swept(dir: Seq<char>, files: Seq<(String, Filed)>, n: int) -> Seq<ActView>
    decreases n,
{
    if n <= 0 {
        Seq::empty()
    } else {
        match files[n - 1].1 {
            Filed::Decision { expired, .. } => if expired {
                swept(dir, files, n - 1).push(
                    ActView::Remove(paths::joined(dir, files[n - 1].0@)),
                )
            } else {
                swept(dir, files, n - 1)
            },
            _ => swept(dir, files, n - 1),
        }
    }
}

/// What a verdict is answered with.
pub open spec fn verdict_msg(v: Verdict) -> Msg {
    match v {
        Verdict::Granted { from, until } => granted_msg(text::opt(from), text::opt(until)),
        Verdict::Denied => denied_msg("the operator denied this request"@),
        Verdict::Unverified(why) => denied_msg(why@),
    }
}

/// What is done and answered for a request: a standing decision first, then
/// a request that waits already, and only then is the request written. A
/// decision that verifies consumes the request that waits.
pub open spec fn handled(
    decided_dir: Seq<char>,
    pending: Seq<char>,
    files: Seq<(String, Filed)>,
    identity: Seq<char>,
    waiting: bool,
    request: Seq<char>,
) -> (Seq<ActView>, Msg) {
    match standing(files, identity, 0) {
        Some(i) => {
            let verdict = files[i].1->verdict;
            let sweep = swept(decided_dir, files, i);
            (
                if verdict is Unverified {
                    sweep
                } else {
                    sweep.push(ActView::Remove(pending))
                },
                verdict_msg(verdict),
            )
        },
        None => {
            let sweep = swept(decided_dir, files, files.len() as int);
            (
                if waiting {
                    sweep
                } else {
                    sweep.push(ActView::Write(pending, request + "\n"@))
                },
                pending_msg(identity),
            )
        },
    }
}

/// Answers a request. `files` are the files among the decisions, in the
/// order they were listed; `pending` is where the request waits or would
/// wait, `waiting` whether it does, and `request` its text.
pub fn answer(
    decided_dir: &str,
    pending: &str,
    files: &Vec<(String, Filed)>,
    identity: &str,
    waiting: bool,
    request: &str,
) -> (r: (Vec<Act>, Datum))
    ensures
        (act_views(r.0@), r.1@) == handled(
            decided_dir@,
            pending@,
            files@,
            identity@,
            waiting,
            request@,
        ),
{
    let mut acts: Vec<Act> = Vec::new();
    let mut i: usize = 0;
    assert(act_views(acts@) =~= Seq::empty());
    while i < files.len()
        invariant
            i <= files.len(),
            act_views(acts@) == swept(decided_dir@, files@, i as int),
            standing(files@, identity@, 0) == standing(files@, identity@, i as int),
        decreases files.len() - i,
    {
        let ghost had = act_views(acts@);
        if let Filed::Decision { expired, request_hash, verdict } = &files[i].1 {
            if *expired {
                let act = Act::Remove(paths::join(decided_dir, files[i].0.as_str()));
                let ghost one = act@;
                acts.push(act);
                assert(act_views(acts@) =~= had.push(one));
            } else if text::same(request_hash.as_str(), identity) {
                return match verdict {
                    Verdict::Granted { from, until } => {
                        acts.push(Act::Remove(pending.to_owned()));
                        assert(act_views(acts@) =~= had.push(ActView::Remove(pending@)));
                        (acts, granted_value(from, until))
                    },
                    Verdict::Denied => {
                        acts.push(Act::Remove(pending.to_owned()));
                        assert(act_views(acts@) =~= had.push(ActView::Remove(pending@)));
                        (acts, denied_value("the operator denied this request"))
                    },
                    Verdict::Unverified(why) => (acts, denied_value(why.as_str())),
                };
            }
        }
        i = i + 1;
    }
    if !waiting {
        let ghost had = act_views(acts@);
        acts.push(Act::Write(pending.to_owned(), text::join2(request, "\n")));
        assert(act_views(acts@) =~= had.push(ActView::Write(pending@, request@ + "\n"@)));
    }
    (acts, pending_value(identity))
}

// ---- laws ----

/// Whether an act writes.
pub open spec fn writes(a: ActView) -> bool {
    a is Write
}

proof fn sweeping_writes_nothing(dir: Seq<char>, files: Seq<(String, Filed)>, n: int)
    ensures
        forall|k: int| 0 <= k < swept(dir, files, n).len() ==> !writes(#[trigger] swept(dir, files, n)[k]),
    decreases n,
{
    if n > 0 {
        sweeping_writes_nothing(dir, files, n - 1);
        let rest = swept(dir, files, n - 1);
        let all = swept(dir, files, n);
        assert forall|k: int| 0 <= k < all.len() implies !writes(#[trigger] all[k]) by {
            if k < rest.len() {
                assert(all[k] == rest[k]);
            }
        }
    }
}

/// A request that was answered, or that waits already, is never written
/// again: asking in a loop leaves one file, and asking again after a restart
/// finds the standing decision.
pub proof fn an_answered_request_is_not_written_again(
    decided_dir: Seq<char>,
    pending: Seq<char>,
    files: Seq<(String, Filed)>,
    identity: Seq<char>,
    waiting: bool,
    request: Seq<char>,
)
    requires
        waiting || standing(files, identity, 0) is Some,
    ensures
        ({
            let acts = handled(decided_dir, pending, files, identity, waiting, request).0;
            forall|k: int| 0 <= k < acts.len() ==> !writes(#[trigger] acts[k])
        }),
{
    match standing(files, identity, 0) {
        Some(i) => {
            sweeping_writes_nothing(decided_dir, files, i);
        },
        None => {
            sweeping_writes_nothing(decided_dir, files, files.len() as int);
        },
    }
}

/// A decision that is over never answers.
pub proof fn an_expired_decision_never_answers(
    files: Seq<(String, Filed)>,
    identity: Seq<char>,
)
    ensures
        standing(files, identity, 0) matches Some(i) ==> 0 <= i < files.len() && answers(
            files[i].1,
            identity,
        ),
{
    standing_answers(files, identity, 0);
}

proof fn standing_answers(files: Seq<(String, Filed)>, identity: Seq<char>, from: int)
    requires
        0 <= from <= files.len(),
    ensures
        standing(files, identity, from) matches Some(i) ==> from <= i < files.len() && answers(
            files[i].1,
            identity,
        ),
    decreases files.len() - from,
{
    if from < files.len() && !answers(files[from].1, identity) {
        standing_answers(files, identity, from + 1);
    }
}

/// Only a decision that grants and verifies is answered as granted.
pub proof fn only_a_verified_decision_grants(v: Verdict)
    ensures
        msg::member(verdict_msg(v), "status"@) == Some(Msg::Text("granted"@)) <==> v is Granted,
{
    reveal_strlit("granted");
    reveal_strlit("denied");
    let m = verdict_msg(v);
    let es = m->Table_0;
    assert(es[0].0 == Msg::Text("status"@));
    assert(msg::seek(es, "status"@, 0) == Some(es[0].1));
    assert("granted"@.len() != "denied"@.len());
}

/// A grant is answered with the decision's own window: where it begins and
/// where it ends, each only where the decision says.
pub proof fn a_grant_carries_its_window(from: Option<String>, until: Option<String>)
    ensures
        ({
            let m = verdict_msg(Verdict::Granted { from, until });
            &&& msg::as_text(msg::member(m, "status"@)) == Some("granted"@)
            &&& match from {
                Some(t) => msg::member(m, "from"@) == Some(Msg::Text(t@)),
                None => msg::member(m, "from"@) is None,
            }
            &&& match until {
                Some(t) => msg::member(m, "until"@) == Some(Msg::Text(t@)),
                None => msg::member(m, "until"@) is None,
            }
        }),
{
    reveal_strlit("status");
    reveal_strlit("from");
    reveal_strlit("until");
    assert("status"@[0] != "from"@[0] && "status"@[0] != "until"@[0] && "from"@[0] != "until"@[0]);
    let es = verdict_msg(Verdict::Granted { from, until })->Table_0;
    assert(es[0].0 == Msg::Text("status"@));
    if from is Some {
        assert(es[1].0 == Msg::Text("from"@));
    }
    if until is Some {
        assert(es[es.len() - 1].0 == Msg::Text("until"@));
    }
    reveal_with_fuel(msg::seek, 4);
}

/// A denial says so and why: in the operator's name, or which step of the
/// verification failed.
pub proof fn a_denial_says_why(why: String)
    ensures
        msg::as_text(msg::member(verdict_msg(Verdict::Denied), "status"@)) == Some("denied"@),
        msg::as_text(msg::member(verdict_msg(Verdict::Denied), "reason"@)) == Some(
            "the operator denied this request"@,
        ),
        msg::as_text(msg::member(verdict_msg(Verdict::Unverified(why)), "status"@)) == Some(
            "denied"@,
        ),
        msg::as_text(msg::member(verdict_msg(Verdict::Unverified(why)), "reason"@)) == Some(why@),
{
    a_denial_is_told("the operator denied this request"@);
    a_denial_is_told(why@);
}

proof fn a_denial_is_told(why: Seq<char>)
    ensures
        msg::member(denied_msg(why), "status"@) == Some(Msg::Text("denied"@)),
        msg::member(denied_msg(why), "reason"@) == Some(Msg::Text(why)),
{
    reveal_strlit("status");
    reveal_strlit("reason");
    assert("status"@[0] != "reason"@[0]);
    let es = denied_msg(why)->Table_0;
    assert(es[0].0 == Msg::Text("status"@) && es[1].0 == Msg::Text("reason"@));
    reveal_with_fuel(msg::seek, 3);
}

/// A request that waits is told so, with its identity.
pub proof fn a_waiting_request_is_named(identity: Seq<char>)
    ensures
        msg::as_text(msg::member(pending_msg(identity), "status"@)) == Some("pending"@),
        msg::as_text(msg::member(pending_msg(identity), "request"@)) == Some(identity),
{
    reveal_strlit("status");
    reveal_strlit("request");
    assert("status"@[0] != "request"@[0]);
    let es = pending_msg(identity)->Table_0;
    assert(es[0].0 == Msg::Text("status"@) && es[1].0 == Msg::Text("request"@));
    reveal_with_fuel(msg::seek, 3);
}

proof fn standing_is_first(files: Seq<(String, Filed)>, identity: Seq<char>, from: int, i: int)
    requires
        0 <= from <= i <= files.len(),
        i < files.len() ==> answers(files[i].1, identity),
        forall|k: int| from <= k < i ==> !answers((#[trigger] files[k]).1, identity),
    ensures
        standing(files, identity, from) == (if i < files.len() {
            Some(i)
        } else {
            None
        }),
    decreases i - from,
{
    if from < i {
        standing_is_first(files, identity, from + 1, i);
    }
}

/// Whether a file is a decision that is not over, about this request.
pub open spec fn decides(f: Filed, identity: Seq<char>) -> bool {
    match f {
        Filed::Decision { expired, request_hash, verdict } => !expired && request_hash@ == identity,
        Filed::NotADecision => false,
    }
}

/// The first decision about a request that is not over is the answer. A
/// verdict takes the request off the desk; one that does not verify leaves it
/// there.
pub proof fn the_first_decision_is_the_answer(
    decided_dir: Seq<char>,
    pending: Seq<char>,
    files: Seq<(String, Filed)>,
    identity: Seq<char>,
    waiting: bool,
    request: Seq<char>,
    i: int,
)
    requires
        0 <= i < files.len(),
        decides(files[i].1, identity),
        forall|k: int| 0 <= k < i ==> !decides((#[trigger] files[k]).1, identity),
    ensures
        ({
            let (acts, told) = handled(decided_dir, pending, files, identity, waiting, request);
            let verdict = files[i].1->verdict;
            &&& told == verdict_msg(verdict)
            &&& acts == (if verdict is Unverified {
                swept(decided_dir, files, i)
            } else {
                swept(decided_dir, files, i).push(ActView::Remove(pending))
            })
        }),
{
    assert forall|k: int| 0 <= k < i implies !answers((#[trigger] files[k]).1, identity) by {
        assert(!decides(files[k].1, identity));
    }
    standing_is_first(files, identity, 0, i);
}

/// A request that nothing decides waits, and is written once.
pub proof fn an_undecided_request_waits(
    decided_dir: Seq<char>,
    pending: Seq<char>,
    files: Seq<(String, Filed)>,
    identity: Seq<char>,
    waiting: bool,
    request: Seq<char>,
)
    requires
        forall|k: int| 0 <= k < files.len() ==> !decides((#[trigger] files[k]).1, identity),
    ensures
        ({
            let (acts, told) = handled(decided_dir, pending, files, identity, waiting, request);
            let sweep = swept(decided_dir, files, files.len() as int);
            &&& told == pending_msg(identity)
            &&& waiting ==> acts == sweep
            &&& !waiting ==> acts == sweep.push(ActView::Write(pending, request + "\n"@))
        }),
{
    assert forall|k: int| 0 <= k < files.len() implies !answers(
        (#[trigger] files[k]).1,
        identity,
    ) by {
        assert(!decides(files[k].1, identity));
    }
    standing_is_first(files, identity, 0, files.len() as int);
}

/// Exactly the decisions that are over are swept away.
pub proof fn what_is_over_is_swept(
    dir: Seq<char>,
    files: Seq<(String, Filed)>,
    n: int,
    a: ActView,
)
    requires
        0 <= n <= files.len(),
    ensures
        swept(dir, files, n).contains(a) <==> exists|k: int|
            0 <= k < n && ((#[trigger] files[k]).1 matches Filed::Decision { expired, .. }
                && expired) && a == ActView::Remove(paths::joined(dir, files[k].0@)),
    decreases n,
{
    if n > 0 {
        what_is_over_is_swept(dir, files, n - 1, a);
        let rest = swept(dir, files, n - 1);
        let all = swept(dir, files, n);
        if rest.contains(a) {
            let k = choose|k: int| 0 <= k < rest.len() && rest[k] == a;
            assert(all[k] == a);
        }
        if all.len() > rest.len() {
            assert(all[rest.len() as int] == ActView::Remove(
                paths::joined(dir, files[n - 1].0@),
            ));
        }
        if all.contains(a) {
            let k = choose|k: int| 0 <= k < all.len() && all[k] == a;
            if k < rest.len() {
                assert(rest[k] == a);
            } else {
                assert(files[n - 1].1 is Decision);
            }
        }
    }
}

/// An ask is read as it was written: it needs a realm, and what else it says
/// is taken over, member by member.
pub proof fn an_ask_is_read_as_written(m: Msg)
    ensures
        asked_in(None) is Err,
        match msg::member(m, "realm"@) {
            Some(Msg::Text(realm)) => asked_in(Some(m)) matches Ok(a) && {
                &&& a.realm == realm
                &&& a.ask == msg::member(m, "ask"@)
                &&& match msg::member(m, "reason"@) {
                    Some(Msg::Text(s)) => a.reason == s,
                    _ => a.reason.len() == 0,
                }
                &&& match msg::member(m, "valid_from"@) {
                    Some(Msg::Text(s)) => a.valid_from == Some(s),
                    _ => a.valid_from is None,
                }
                &&& match msg::member(m, "valid_until"@) {
                    Some(Msg::Text(s)) => a.valid_until == Some(s),
                    _ => a.valid_until is None,
                }
            },
            _ => asked_in(Some(m)) is Err,
        },
{
}

/// The window asked for is the one that the ask names, and it is asked for
/// only where every part of the ask reads.
pub proof fn a_window_is_as_asked(r: Readings)
    ensures
        window_in(r) is Ok <==> r.realm is Ok && r.ask is Ok && !(r.valid_from matches Some(Err(_)))
            && !(r.valid_until matches Some(Err(_))),
        window_in(r) matches Ok(w) ==> {
            &&& w.from == (match r.valid_from {
                Some(Ok(t)) => Some(t),
                _ => None,
            })
            &&& w.until == (match r.valid_until {
                Some(Ok(t)) => Some(t),
                _ => None,
            })
        },
        r.realm matches Err(e) ==> window_in(r) == Err::<Window, Seq<char>>(e@),
        r.realm is Ok ==> (r.ask matches Err(e) ==> window_in(r) == Err::<Window, Seq<char>>(e@)),
{
}

/// An ask without arguments, or without a realm that is text, is refused for
/// just that.
pub proof fn an_ask_needs_a_realm(m: Msg, why: String)
    ensures
        asked_in(None) == Err::<AskedView, Seq<char>>(
            "request_grant takes {realm, ask, reason} and got nothing"@,
        ),
        asked_in(Some(m)) is Err <==> !(msg::member(m, "realm"@) matches Some(Msg::Text(_))),
        asked_in(Some(m)) is Err ==> asked_in(Some(m)) == Err::<AskedView, Seq<char>>(
            "request_grant: `realm` is required and is a dotted path"@,
        ),
        end_of(None) == Ok::<Option<i64>, Seq<char>>(None),
        end_of(Some(Err(why))) == Err::<Option<i64>, Seq<char>>(why@),
        forall|t: i64| #[trigger]
            end_of(Some(Ok(t))) == Ok::<Option<i64>, Seq<char>>(Some(t)),
{
}

} // verus!
