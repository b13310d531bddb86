//! Consent before a start: has this operator accepted the ceiling that the
//! root declares?

use crate::grants;
use crate::grants::{Effect, Grant, GrantView};
use crate::text;
use vstd::prelude::*;

verus! {

/// The realm that an acceptance of the whole ceiling is recorded under.
pub const ROOT_REALM: &'static str = "operator";

/// What the command line said about consent.
#[derive(Clone, Copy, Debug, PartialEq, Eq, Structural)]
pub struct Flags {
    /// Accept a first ceiling without asking. Not enough for a widening.
    pub yes: bool,
    /// Accept a widened ceiling without asking.
    pub accept_changes: bool,
}

impl Default for Flags {
    /// Neither flag.
    fn default() -> (r: Flags)
        ensures
            !r.yes,
            !r.accept_changes,
    {
        Flags { yes: false, accept_changes: false }
    }
}

/// Where a question goes and where the answer comes from.
pub trait Ask {
    /// Whether somebody is there to answer.
    closed spec fn there(&self) -> bool {
        arbitrary()
    }

    /// What the operator has been told so far.
    closed spec fn told(&self) -> Seq<Seq<char>> {
        arbitrary()
    }

    /// What the operator has been asked so far.
    closed spec fn asked(&self) -> Seq<Seq<char>> {
        arbitrary()
    }

    /// What the operator has answered so far, or why an answer could not be
    /// read.
    closed spec fn answered(&self) -> Seq<Result<bool, String>> {
        arbitrary()
    }

    /// Tells whether there is an interactive terminal.
    fn interactive(&self) -> (r: bool)
        ensures
            r == self.there(),
    ;

    /// Prints a line to the operator.
    fn say(&mut self, line: &str)
        ensures
            final(self).told() == old(self).told().push(line@),
            final(self).asked() == old(self).asked(),
            final(self).answered() == old(self).answered(),
            final(self).there() == old(self).there(),
    ;

    /// Asks, and reads the answer.
    fn confirm(&mut self, question: &str) -> (r: Result<bool, String>)
        ensures
            final(self).told() == old(self).told(),
            final(self).asked() == old(self).asked().push(question@),
            final(self).answered() == old(self).answered().push(r),
            final(self).there() == old(self).there(),
    ;
}

/// What is read of a project.
#[derive(Debug)]
pub struct Project {
    pub root_id: String,
    pub name: Option<String>,
    /// What the operator is shown.
    pub caps: Vec<Grant>,
    /// The ceiling that the project declares, as an acceptance records it.
    pub ceiling: Vec<Grant>,
}

/// How the declared ceiling compares with what was accepted.
#[derive(Debug)]
pub enum ConsentCheck {
    /// Everything was accepted, whatever the ceiling.
    Blanket { ceiling_changed: bool },
    /// The ceiling is the accepted one.
    Unchanged,
    /// No ceiling was accepted yet.
    First { ceiling_hash: String },
    /// The ceiling allows less than the accepted one.
    Narrowed { ceiling_hash: String },
    /// The ceiling allows something that the accepted one did not.
    Widened { ceiling_hash: String, objection: String, change: Vec<String> },
}

/// One acceptance.
#[derive(Debug)]
pub enum Accepted {
    Listed { realm: String, ceiling_hash: String, ceiling: Vec<Grant>, accepted_at: i64 },
    All { realm: String, accepted_against: String, accepted_at: i64 },
}

/// What an acceptance is.
#[verifier::ext_equal]
pub enum AcceptedView {
    Listed {
        realm: Seq<char>,
        ceiling_hash: Seq<char>,
        ceiling: Seq<GrantView>,
        accepted_at: i64,
    },
    All { realm: Seq<char>, accepted_against: Seq<char>, accepted_at: i64 },
}

impl AcceptedView {
    /// The realm of an acceptance.
    pub open spec fn realm(self) -> Seq<char> {
        match self {
            AcceptedView::Listed { realm, .. } => realm,
            AcceptedView::All { realm, .. } => realm,
        }
    }
}

impl Accepted {
    /// The acceptance, as mathematics.
    pub open spec fn view(&self) -> AcceptedView {
        match self {
            Accepted::Listed { realm, ceiling_hash, ceiling, accepted_at } => AcceptedView::Listed {
                realm: realm@,
                ceiling_hash: ceiling_hash@,
                ceiling: grants::views(ceiling@),
                accepted_at: *accepted_at,
            },
            Accepted::All { realm, accepted_against, accepted_at } => AcceptedView::All {
                realm: realm@,
                accepted_against: accepted_against@,
                accepted_at: *accepted_at,
            },
        }
    }

    /// The realm of an acceptance.
    pub fn realm(&self) -> (r: &str)
        ensures
            r@ == self@.realm(),
    {
        match self {
            Accepted::Listed { realm, .. } => realm.as_str(),
            Accepted::All { realm, .. } => realm.as_str(),
        }
    }

    fn copied(&self) -> (r: Accepted)
        ensures
            r@ == self@,
    {
        match self {
            Accepted::Listed { realm, ceiling_hash, ceiling, accepted_at } => Accepted::Listed {
                realm: realm.clone(),
                ceiling_hash: ceiling_hash.clone(),
                ceiling: grants::copied(ceiling),
                accepted_at: *accepted_at,
            },
            Accepted::All { realm, accepted_against, accepted_at } => Accepted::All {
                realm: realm.clone(),
                accepted_against: accepted_against.clone(),
                accepted_at: *accepted_at,
            },
        }
    }
}

/// A key whose decisions are trusted, and the realms that it decides for.
#[derive(Debug)]
pub struct Signer {
    pub key_id: String,
    pub alg: String,
    pub public_key: String,
    pub realms: Vec<String>,
}

/// What a signer is.
#[verifier::ext_equal]
pub struct SignerView {
    pub key_id: Seq<char>,
    pub alg: Seq<char>,
    pub public_key: Seq<char>,
    pub realms: Seq<Seq<char>>,
}

impl Signer {
    /// The signer, as mathematics.
    pub open spec fn view(&self) -> SignerView {
        SignerView {
            key_id: self.key_id@,
            alg: self.alg@,
            public_key: self.public_key@,
            realms: text::texts(self.realms@),
        }
    }

    fn copied(&self) -> (r: Signer)
        ensures
            r@ == self@,
    {
        Signer {
            key_id: self.key_id.clone(),
            alg: self.alg.clone(),
            public_key: self.public_key.clone(),
            realms: text::copied(&self.realms),
        }
    }
}

/// What the operator has accepted, for one root, and whom the root trusts.
#[derive(Debug)]
pub struct Consent {
    pub root_id: String,
    pub accepted: Vec<Accepted>,
    pub signers: Vec<Signer>,
    /// The peers that the record names, each as it is written.
    pub peers: Vec<String>,
}

/// The signers of a list, as mathematics.
pub open spec fn signer_views(v: Seq<Signer>) -> Seq<SignerView> {
    Seq::new(v.len(), |i: int| v[i]@)
}

fn copied_signers(all: &Vec<Signer>) -> (r: Vec<Signer>)
    ensures
        signer_views(r@) == signer_views(all@),
{
    let mut r: Vec<Signer> = Vec::new();
    let mut i: usize = 0;
    while i < all.len()
        invariant
            i <= all.len(),
            r.len() == i,
            forall|k: int| 0 <= k < i ==> (#[trigger] r@[k])@ == all@[k]@,
        decreases all.len() - i,
    {
        r.push(all[i].copied());
        i = i + 1;
    }
    assert(signer_views(r@) =~= signer_views(all@));
    r
}

/// The acceptances of a list, as mathematics.
pub open spec fn accepted_views(v: Seq<Accepted>) -> Seq<AcceptedView> {
    Seq::new(v.len(), |i: int| v[i]@)
}

/// The acceptances that are not for the root realm, in order.
pub open spec fn elsewhere(v: Seq<AcceptedView>) -> Seq<AcceptedView>
    decreases v.len(),
{
    if v.len() == 0 {
        Seq::empty()
    } else if v.last().realm() != ROOT_REALM@ {
        elsewhere(v.drop_last()).push(v.last())
    } else {
        elsewhere(v.drop_last())
    }
}

/// The acceptance of a ceiling at the root realm.
pub open spec fn listed(hash: Seq<char>, ceiling: Seq<GrantView>, now: i64) -> AcceptedView {
    AcceptedView::Listed { realm: ROOT_REALM@, ceiling_hash: hash, ceiling, accepted_at: now }
}

/// Whether a record is the existing one with its acceptance at the root
/// realm written or replaced: everything else in it stays.
pub open spec fn records(
    r: Consent,
    existing: Option<&Consent>,
    project: &Project,
    hash: Seq<char>,
    now: i64,
) -> bool {
    match existing {
        Some(c) => {
            &&& r.root_id@ == c.root_id@
            &&& accepted_views(r.accepted@) == elsewhere(accepted_views(c.accepted@)).push(
                listed(hash, grants::views(project.ceiling@), now),
            )
            &&& signer_views(r.signers@) == signer_views(c.signers@)
            &&& text::texts(r.peers@) == text::texts(c.peers@)
        },
        None => {
            &&& r.root_id@ == project.root_id@
            &&& accepted_views(r.accepted@) == seq![
                listed(hash, grants::views(project.ceiling@), now),
            ]
            &&& r.signers@.len() == 0
            &&& r.peers@.len() == 0
        },
    }
}

/// The record with this root's acceptance written or replaced. Replaced
/// rather than appended, so that one acceptance governs.
pub fn write_entry(
    project: &Project,
    existing: Option<&Consent>,
    ceiling_hash: &str,
    now: i64,
) -> (r: Consent)
    ensures
        records(r, existing, project, ceiling_hash@, now),
{
    let mut kept: Vec<Accepted> = Vec::new();
    let mut root_id: String = project.root_id.clone();
    let mut signers: Vec<Signer> = Vec::new();
    let mut peers: Vec<String> = Vec::new();
    assert(accepted_views(kept@) =~= Seq::empty());
    if let Some(c) = existing {
        root_id = c.root_id.clone();
        signers = copied_signers(&c.signers);
        peers = text::copied(&c.peers);
        let ghost all = accepted_views(c.accepted@);
        let mut i: usize = 0;
        assert(all.subrange(0, 0) =~= Seq::empty());
        while i < c.accepted.len()
            invariant
                i <= c.accepted.len(),
                all == accepted_views(c.accepted@),
                accepted_views(kept@) == elsewhere(all.subrange(0, i as int)),
            decreases c.accepted.len() - i,
        {
            let ghost now = all.subrange(0, i + 1);
            let ghost before = kept@;
            assert(now.drop_last() == all.subrange(0, i as int));
            assert(now.last() == c.accepted@[i as int]@);
            if !text::same(c.accepted[i].realm(), ROOT_REALM) {
                let one = c.accepted[i].copied();
                kept.push(one);
                assert(accepted_views(kept@) =~= accepted_views(before).push(one@));
            }
            i = i + 1;
        }
        assert(all.subrange(0, all.len() as int) == all);
    }
    let ghost before = accepted_views(kept@);
    let one = Accepted::Listed {
        realm: ROOT_REALM.to_owned(),
        ceiling_hash: ceiling_hash.to_owned(),
        ceiling: grants::copied(&project.ceiling),
        accepted_at: now,
    };
    let ghost view = one@;
    kept.push(one);
    assert(accepted_views(kept@) =~= before.push(view));
    Consent { root_id, accepted: kept, signers, peers }
}

/// A ceiling in lines, for somebody who decides whether to accept it: what
/// it denies first, then what it grants.
pub open spec fn described(caps: Seq<GrantView>) -> Seq<Seq<char>> {
    grants::with_effect(caps, Effect::Deny).map_values(|c: Seq<char>| "deny  "@ + c)
        + grants::with_effect(caps, Effect::Grant).map_values(|c: Seq<char>| "grant "@ + c)
}

fn prefix_all(lines: &mut Vec<String>, lead: &str, items: &Vec<String>)
    ensures
        text::texts(final(lines)@) == text::texts(old(lines)@) + text::texts(items@).map_values(
            |c: Seq<char>| lead@ + c,
        ),
{
    let ghost all = text::texts(items@);
    let ghost before = text::texts(lines@);
    let ghost led = all.map_values(|c: Seq<char>| lead@ + c);
    let mut i: usize = 0;
    assert(before + led.subrange(0, 0) =~= before);
    while i < items.len()
        invariant
            i <= items.len(),
            all == text::texts(items@),
            led == all.map_values(|c: Seq<char>| lead@ + c),
            text::texts(lines@) == before + led.subrange(0, i as int),
        decreases items.len() - i,
    {
        let ghost had = text::texts(lines@);
        let line = text::join2(lead, items[i].as_str());
        let ghost one = line@;
        assert(led[i as int] == one);
        lines.push(line);
        assert(text::texts(lines@) =~= had.push(one));
        assert(text::texts(lines@) =~= before + led.subrange(0, i + 1));
        i = i + 1;
    }
    assert(led.subrange(0, led.len() as int) =~= led);
}

/// A ceiling in lines.
pub fn describe(caps: &Vec<Grant>) -> (r: Vec<String>)
    ensures
        text::texts(r@) == described(grants::views(caps@)),
{
    let mut r: Vec<String> = Vec::new();
    let denied = grants::select(caps, Effect::Deny);
    let granted = grants::select(caps, Effect::Grant);
    prefix_all(&mut r, "deny  ", &denied);
    prefix_all(&mut r, "grant ", &granted);
    assert(text::texts(r@) =~= described(grants::views(caps@)));
    r
}

// ---- the decision ----

/// What the operator is told.
pub open spec fn lines(check: ConsentCheck, project: &Project, flags: Flags) -> Seq<Seq<char>> {
    let name = match project.name {
        Some(n) => n@,
        None => "this root"@,
    };
    match check {
        ConsentCheck::Blanket { ceiling_changed } => if ceiling_changed {
            seq![
                "note: blanket operator consent is in force, and this root's ceiling has changed since it was accepted. `dollup audit` prints the date."@,
            ]
        } else {
            Seq::empty()
        },
        ConsentCheck::First { .. } => if flags.yes {
            Seq::empty()
        } else {
            seq![name + " declares a ceiling this operator has not accepted:"@] + described(
                grants::views(project.caps@),
            ).map_values(|l: Seq<char>| "    "@ + l) + seq![
                ""@,
                "A ceiling bounds every grant any node in this root can ever hold. Accepting it does not grant anything."@,
            ]
        },
        ConsentCheck::Widened { change, .. } => if flags.accept_changes {
            Seq::empty()
        } else {
            seq!["the ceiling of "@ + name + " has widened since it was accepted:"@] + text::texts(
                change@,
            ).map_values(|l: Seq<char>| "    "@ + l) + seq![""@]
        },
        _ => Seq::empty(),
    }
}

/// A question that is put to the operator: the words, the flag that answers
/// it in advance, and why it has to be answered.
#[derive(Debug)]
pub struct Question {
    pub words: &'static str,
    pub flag: &'static str,
    pub detail: String,
}

/// What a question is.
#[verifier::ext_equal]
pub struct QuestionView {
    pub words: Seq<char>,
    pub flag: Seq<char>,
    pub detail: Seq<char>,
}

impl Question {
    /// The question, as mathematics.
    pub open spec fn view(&self) -> QuestionView {
        QuestionView { words: self.words@, flag: self.flag@, detail: self.detail@ }
    }
}

/// The question that has to be answered before the start, if any.
pub open spec fn question(check: ConsentCheck, flags: Flags) -> Option<QuestionView> {
    match check {
        ConsentCheck::First { .. } => if flags.yes {
            None
        } else {
            Some(QuestionView { words: "accept this ceiling?"@, flag: "-y"@, detail: ""@ })
        },
        ConsentCheck::Widened { objection, .. } => if flags.accept_changes {
            None
        } else {
            Some(
                QuestionView {
                    words: "accept the widened ceiling?"@,
                    flag: "--accept-changes"@,
                    detail: objection@,
                },
            )
        },
        _ => None,
    }
}

/// What a refusal by the operator is answered with.
pub open spec fn declined(check: ConsentCheck) -> Seq<char> {
    match check {
        ConsentCheck::Widened { objection, .. } =>
            "the widened ceiling was not accepted; nothing started ("@ + objection@ + ")"@,
        _ => "the ceiling was not accepted; nothing started"@,
    }
}

/// The hash of the ceiling that an acceptance records, where one is due.
pub open spec fn hash_due(check: ConsentCheck) -> Option<Seq<char>> {
    match check {
        ConsentCheck::First { ceiling_hash } => Some(ceiling_hash@),
        ConsentCheck::Narrowed { ceiling_hash } => Some(ceiling_hash@),
        ConsentCheck::Widened { ceiling_hash, .. } => Some(ceiling_hash@),
        _ => None,
    }
}

/// The refusal where a question is due and nobody is there to answer it.
pub open spec fn nobody_there(q: QuestionView) -> Seq<char> {
    q.words + " -- but there is no terminal to ask."@ + (if q.detail.len() == 0 {
        ""@
    } else {
        " "@ + q.detail + "."@
    }) + " Pass "@ + q.flag
        + " to answer in advance, or run `dollup consent` where somebody can read it."@
}

/// The refusal where the answer cannot be read.
pub open spec fn unheard(why: Seq<char>) -> Seq<char> {
    "cannot read an answer from the terminal: "@ + why
}

/// Asks, or fails by name: never hangs, and never takes silence for yes. What
/// the operator answers is what is returned.
pub fn confirm<A: Ask>(ask: &mut A, q: &Question) -> (r: Result<bool, String>)
    ensures
        final(ask).told() == old(ask).told(),
        final(ask).there() == old(ask).there(),
        if old(ask).there() {
            &&& final(ask).asked() == old(ask).asked().push(q@.words)
            &&& final(ask).answered().len() == old(ask).answered().len() + 1
            &&& final(ask).answered().drop_last() == old(ask).answered()
            &&& match final(ask).answered().last() {
                Ok(yes) => r == Ok::<bool, String>(yes),
                Err(e) => r matches Err(why) && why@ == unheard(e@),
            }
        } else {
            &&& final(ask).asked() == old(ask).asked()
            &&& final(ask).answered() == old(ask).answered()
            &&& r matches Err(why) && why@ == nobody_there(q@)
        },
{
    if !ask.interactive() {
        let because: String = if q.detail.as_str().is_empty() {
            "".to_owned()
        } else {
            text::join3(" ", q.detail.as_str(), ".")
        };
        let mut why = text::join5(
            q.words,
            " -- but there is no terminal to ask.",
            because.as_str(),
            " Pass ",
            q.flag,
        );
        why.append(" to answer in advance, or run `dollup consent` where somebody can read it.");
        return Err(why);
    }
    let ghost before = ask.answered();
    let answer = ask.confirm(q.words);
    assert(ask.answered().drop_last() =~= before);
    match answer {
        Ok(yes) => Ok(yes),
        Err(e) => Err(text::join2("cannot read an answer from the terminal: ", e.as_str())),
    }
}

/// Whether an answer is a yes. Silence is not.
pub open spec fn affirms(answer: Seq<char>) -> bool {
    let a = text::trimmed(answer);
    a == "y"@ || a == "Y"@ || a == "yes"@ || a == "Yes"@
}

/// Tells whether an answer is a yes.
pub fn is_yes(answer: &str) -> (r: bool)
    ensures
        r == affirms(answer@),
{
    let a = text::trim(answer);
    text::same(a.as_str(), "y") || text::same(a.as_str(), "Y") || text::same(a.as_str(), "yes")
        || text::same(a.as_str(), "Yes")
}

/// What a start comes to once the question, if there was one, has been
/// answered: the record to write, if one is due.
pub fn settle(
    check: &ConsentCheck,
    project: &Project,
    consent: Option<&Consent>,
    answer: Option<bool>,
    now: i64,
) -> (r: Result<Option<Consent>, String>)
    ensures
        if answer == Some(false) {
            r matches Err(why) && why@ == declined(*check)
        } else {
            match hash_due(*check) {
                Some(hash) => r matches Ok(Some(c)) && records(c, consent, project, hash, now),
                None => r matches Ok(None),
            }
        },
{
    if let Some(yes) = answer {
        if !yes {
            return match check {
                ConsentCheck::Widened { objection, .. } => Err(
                    text::join3(
                        "the widened ceiling was not accepted; nothing started (",
                        objection.as_str(),
                        ")",
                    ),
                ),
                _ => Err("the ceiling was not accepted; nothing started".to_owned()),
            };
        }
    }
    match check {
        ConsentCheck::First { ceiling_hash } => Ok(
            Some(write_entry(project, consent, ceiling_hash.as_str(), now)),
        ),
        ConsentCheck::Narrowed { ceiling_hash } => Ok(
            Some(write_entry(project, consent, ceiling_hash.as_str(), now)),
        ),
        ConsentCheck::Widened { ceiling_hash, .. } => Ok(
            Some(write_entry(project, consent, ceiling_hash.as_str(), now)),
        ),
        _ => Ok(None),
    }
}

fn lines_for(check: &ConsentCheck, project: &Project, flags: Flags) -> (r: Vec<String>)
    ensures
        text::texts(r@) == lines(*check, project, flags),
{
    let mut r: Vec<String> = Vec::new();
    assert(text::texts(r@) =~= Seq::empty());
    let name: String = match &project.name {
        Some(n) => n.clone(),
        None => "this root".to_owned(),
    };
    match check {
        ConsentCheck::Blanket { ceiling_changed } => {
            if *ceiling_changed {
                r.push(
                    "note: blanket operator consent is in force, and this root's ceiling has changed since it was accepted. `dollup audit` prints the date.".to_owned(),
                );
                assert(text::texts(r@) =~= lines(*check, project, flags));
            }
        },
        ConsentCheck::First { .. } => {
            if !flags.yes {
                let head = text::join2(
                    name.as_str(),
                    " declares a ceiling this operator has not accepted:",
                );
                r.push(head);
                assert(text::texts(r@) =~= seq![head@]);
                let ceiling = describe(&project.caps);
                prefix_all(&mut r, "    ", &ceiling);
                let ghost so_far = text::texts(r@);
                r.push("".to_owned());
                r.push(
                    "A ceiling bounds every grant any node in this root can ever hold. Accepting it does not grant anything.".to_owned(),
                );
                assert(text::texts(r@) =~= so_far + seq![
                    ""@,
                    "A ceiling bounds every grant any node in this root can ever hold. Accepting it does not grant anything."@,
                ]);
            }
        },
        ConsentCheck::Widened { change, .. } => {
            if !flags.accept_changes {
                let head = text::join3(
                    "the ceiling of ",
                    name.as_str(),
                    " has widened since it was accepted:",
                );
                r.push(head);
                assert(text::texts(r@) =~= seq![head@]);
                prefix_all(&mut r, "    ", change);
                let ghost so_far = text::texts(r@);
                r.push("".to_owned());
                assert(text::texts(r@) =~= so_far + seq![""@]);
            }
        },
        _ => {},
    }
    r
}

fn question_for(check: &ConsentCheck, flags: Flags) -> (r: Option<Question>)
    ensures
        match r {
            Some(q) => question(*check, flags) == Some(q@),
            None => question(*check, flags) is None,
        },
{
    match check {
        ConsentCheck::First { .. } => if flags.yes {
            None
        } else {
            Some(Question { words: "accept this ceiling?", flag: "-y", detail: "".to_owned() })
        },
        ConsentCheck::Widened { objection, .. } => if flags.accept_changes {
            None
        } else {
            Some(
                Question {
                    words: "accept the widened ceiling?",
                    flag: "--accept-changes",
                    detail: objection.clone(),
                },
            )
        },
        _ => None,
    }
}

/// What the operator has been told and asked, and what they answered.
#[verifier::ext_equal]
pub struct Heard {
    pub told: Seq<Seq<char>>,
    pub asked: Seq<Seq<char>>,
    pub answered: Seq<Result<bool, String>>,
}

/// What has passed between the operator and `a`.
pub open spec fn heard<A: Ask>(a: A) -> Heard {
    Heard { told: a.told(), asked: a.asked(), answered: a.answered() }
}

/// Whether `r` is what consent comes to, and `after` what the operator has
/// then been told and asked and has answered. Where a question is due, the
/// answer decides.
pub open spec fn gated(
    project: &Project,
    consent: Option<&Consent>,
    check: Result<ConsentCheck, String>,
    flags: Flags,
    there: bool,
    now: i64,
    before: Heard,
    after: Heard,
    r: Result<Option<Consent>, String>,
) -> bool {
    match check {
        Err(why) => {
            &&& r matches Err(e) && e@ == why@
            &&& after == before
        },
        Ok(c) => {
            &&& after.told == before.told + lines(c, project, flags)
            &&& match question(c, flags) {
                None => {
                    &&& after.asked == before.asked
                    &&& after.answered == before.answered
                    &&& match hash_due(c) {
                        Some(hash) => r matches Ok(Some(new)) && records(
                            new,
                            consent,
                            project,
                            hash,
                            now,
                        ),
                        None => r matches Ok(None),
                    }
                },
                Some(q) => if there {
                    &&& after.asked == before.asked.push(q.words)
                    &&& after.answered.len() == before.answered.len() + 1
                    &&& after.answered.drop_last() == before.answered
                    &&& match after.answered.last() {
                        Ok(true) => r matches Ok(Some(new)) && records(
                            new,
                            consent,
                            project,
                            hash_due(c)->0,
                            now,
                        ),
                        Ok(false) => r matches Err(why) && why@ == declined(c),
                        Err(e) => r matches Err(why) && why@ == unheard(e@),
                    }
                } else {
                    &&& after.asked == before.asked
                    &&& after.answered == before.answered
                    &&& r matches Err(why) && why@ == nobody_there(q)
                },
            }
        },
    }
}

/// Asks for consent where it is due. `Ok` means that the start may proceed, with the record to
/// write first where one is due. `check` is how the ceiling compares with
/// what was accepted, or why the two cannot be compared.
pub fn gate<A: Ask>(
    project: &Project,
    consent: Option<&Consent>,
    check: Result<ConsentCheck, String>,
    flags: Flags,
    ask: &mut A,
    now: i64,
) -> (r: Result<Option<Consent>, String>)
    ensures
        final(ask).there() == old(ask).there(),
        gated(
            project,
            consent,
            check,
            flags,
            old(ask).there(),
            now,
            heard(*old(ask)),
            heard(*final(ask)),
            r,
        ),
{
    let check = match check {
        Ok(c) => c,
        Err(why) => return Err(why),
    };
    let all = lines_for(&check, project, flags);
    let ghost want = text::texts(all@);
    let ghost told = ask.told();
    let ghost asked = ask.asked();
    let ghost answered = ask.answered();
    let ghost there = ask.there();
    let mut i: usize = 0;
    assert(told + want.subrange(0, 0) =~= told);
    while i < all.len()
        invariant
            i <= all.len(),
            want == text::texts(all@),
            ask.told() == told + want.subrange(0, i as int),
            ask.asked() == asked,
            ask.answered() == answered,
            ask.there() == there,
        decreases all.len() - i,
    {
        ask.say(all[i].as_str());
        assert(want[i as int] == all@[i as int]@);
        assert(ask.told() =~= told + want.subrange(0, i + 1));
        i = i + 1;
    }
    assert(want.subrange(0, want.len() as int) =~= want);
    let answer: Option<bool> = match question_for(&check, flags) {
        None => None,
        Some(q) => match confirm(ask, &q) {
            Ok(yes) => Some(yes),
            Err(why) => return Err(why),
        },
    };
    settle(&check, project, consent, answer, now)
}

// ---- laws ----

/// `-y` never accepts a widening: what happens to a widened ceiling is the
/// same with and without it.
pub proof fn yes_never_accepts_a_widening(
    check: ConsentCheck,
    project: &Project,
    a: Flags,
    b: Flags,
)
    requires
        check is Widened,
        a.accept_changes == b.accept_changes,
    ensures
        question(check, a) == question(check, b),
        lines(check, project, a) == lines(check, project, b),
{
}

/// A widening is accepted unasked only by the flag that is made for it.
pub proof fn a_widening_is_asked_about(check: ConsentCheck, flags: Flags)
    requires
        check is Widened,
        !flags.accept_changes,
    ensures
        question(check, flags) is Some,
{
}

/// A ceiling that is the accepted one, or allows less, is passed in silence:
/// nothing is told and nothing is asked.
pub proof fn no_change_is_silent(check: ConsentCheck, project: &Project, flags: Flags)
    requires
        check is Unchanged || check is Narrowed,
    ensures
        question(check, flags) is None,
        lines(check, project, flags) == Seq::<Seq<char>>::empty(),
{
}

/// Where a question is due, the start goes on only if somebody is there and
/// answers yes: silence, a no and an answer that cannot be read all end it.
pub proof fn only_a_yes_passes(
    project: &Project,
    consent: Option<&Consent>,
    check: ConsentCheck,
    flags: Flags,
    there: bool,
    now: i64,
    before: Heard,
    after: Heard,
    r: Result<Option<Consent>, String>,
)
    requires
        gated(project, consent, Ok(check), flags, there, now, before, after, r),
        question(check, flags) is Some,
    ensures
        r is Ok <==> there && after.answered == before.answered.push(Ok::<bool, String>(true)),
{
    if there {
        assert(after.answered =~= before.answered.push(after.answered.last()));
    } else {
        assert(before.answered.push(Ok::<bool, String>(true)).len() != before.answered.len());
    }
}

/// An acceptance takes nobody's trust away: the signers and the peers of the
/// record stay, and so does every acceptance elsewhere.
pub proof fn an_acceptance_keeps_the_rest(
    r: Consent,
    existing: &Consent,
    project: &Project,
    hash: Seq<char>,
    now: i64,
)
    requires
        records(r, Some(existing), project, hash, now),
    ensures
        r.root_id@ == existing.root_id@,
        signer_views(r.signers@) == signer_views(existing.signers@),
        text::texts(r.peers@) == text::texts(existing.peers@),
        elsewhere(accepted_views(r.accepted@)) == elsewhere(accepted_views(existing.accepted@)),
{
    let all = accepted_views(existing.accepted@);
    let one = listed(hash, grants::views(project.ceiling@), now);
    elsewhere_stays(all);
    assert(elsewhere(all).push(one).drop_last() =~= elsewhere(all));
}

proof fn elsewhere_stays(v: Seq<AcceptedView>)
    ensures
        elsewhere(elsewhere(v)) == elsewhere(v),
    decreases v.len(),
{
    if v.len() > 0 {
        elsewhere_stays(v.drop_last());
        let rest = elsewhere(v.drop_last());
        if v.last().realm() != ROOT_REALM@ {
            assert(rest.push(v.last()).drop_last() =~= rest);
        }
    }
}

/// After an acceptance is written, exactly one acceptance stands at the root
/// realm: the last, and it is the one just written.
pub proof fn one_acceptance_governs(
    r: Consent,
    existing: Option<&Consent>,
    project: &Project,
    hash: Seq<char>,
    now: i64,
)
    requires
        records(r, existing, project, hash, now),
    ensures
        r.accepted@.len() > 0,
        r.accepted@.last()@ == listed(hash, grants::views(project.ceiling@), now),
        forall|i: int|
            0 <= i < r.accepted@.len() - 1 ==> (#[trigger] r.accepted@[i])@.realm() != ROOT_REALM@,
{
    let v = accepted_views(r.accepted@);
    assert(v.len() == r.accepted@.len());
    assert(v.last() == r.accepted@.last()@);
    if let Some(c) = existing {
        elsewhere_is_elsewhere(accepted_views(c.accepted@));
        let rest = elsewhere(accepted_views(c.accepted@));
        assert forall|i: int| 0 <= i < r.accepted@.len() - 1 implies (
        #[trigger] r.accepted@[i])@.realm() != ROOT_REALM@ by {
            assert(v[i] == r.accepted@[i]@);
            assert(v[i] == rest[i]);
        }
    }
}

proof fn elsewhere_is_elsewhere(v: Seq<AcceptedView>)
    ensures
        forall|i: int|
            0 <= i < elsewhere(v).len() ==> (#[trigger] elsewhere(v)[i]).realm() != ROOT_REALM@,
    decreases v.len(),
{
    if v.len() > 0 {
        elsewhere_is_elsewhere(v.drop_last());
        let rest = elsewhere(v.drop_last());
        let all = elsewhere(v);
        assert forall|i: int| 0 <= i < all.len() implies (#[trigger] all[i]).realm()
            != ROOT_REALM@ by {
            if i < rest.len() {
                assert(all[i] == rest[i]);
            }
        }
    }
}

/// The operator is asked about a first ceiling, unless `-y` answers, and about
/// a widened one, unless `--accept-changes` does, and about nothing else.
pub proof fn what_is_asked_about(check: ConsentCheck, flags: Flags)
    ensures
        question(check, flags) is Some <==> (check is First && !flags.yes) || (check is Widened
            && !flags.accept_changes),
        check is First && !flags.yes ==> question(check, flags) == Some(
            QuestionView { words: "accept this ceiling?"@, flag: "-y"@, detail: ""@ },
        ),
        check matches ConsentCheck::Widened { objection, .. } ==> !flags.accept_changes ==> question(
            check,
            flags,
        ) == Some(
            QuestionView {
                words: "accept the widened ceiling?"@,
                flag: "--accept-changes"@,
                detail: objection@,
            },
        ),
{
}

/// An acceptance is recorded of a ceiling that is new, narrower or wider, by
/// its own hash, and of nothing else.
pub proof fn what_is_recorded(check: ConsentCheck)
    ensures
        match check {
            ConsentCheck::First { ceiling_hash } => hash_due(check) == Some(ceiling_hash@),
            ConsentCheck::Narrowed { ceiling_hash } => hash_due(check) == Some(ceiling_hash@),
            ConsentCheck::Widened { ceiling_hash, .. } => hash_due(check) == Some(ceiling_hash@),
            ConsentCheck::Unchanged => hash_due(check) is None,
            ConsentCheck::Blanket { .. } => hash_due(check) is None,
        },
{
}

/// Where nothing is asked the start goes on: with the record of the ceiling
/// where one is due, and without one where the ceiling was accepted before.
pub proof fn an_unasked_start_goes_on(
    project: &Project,
    consent: Option<&Consent>,
    check: ConsentCheck,
    flags: Flags,
    there: bool,
    now: i64,
    before: Heard,
    after: Heard,
    r: Result<Option<Consent>, String>,
)
    requires
        gated(project, consent, Ok(check), flags, there, now, before, after, r),
        match check {
            ConsentCheck::First { .. } => flags.yes,
            ConsentCheck::Widened { .. } => flags.accept_changes,
            _ => true,
        },
    ensures
        r is Ok,
        after.asked == before.asked,
        match check {
            ConsentCheck::First { ceiling_hash } => r->Ok_0 is Some && records(
                r->Ok_0->0,
                consent,
                project,
                ceiling_hash@,
                now,
            ),
            ConsentCheck::Narrowed { ceiling_hash } => r->Ok_0 is Some && records(
                r->Ok_0->0,
                consent,
                project,
                ceiling_hash@,
                now,
            ),
            ConsentCheck::Widened { ceiling_hash, .. } => r->Ok_0 is Some && records(
                r->Ok_0->0,
                consent,
                project,
                ceiling_hash@,
                now,
            ),
            _ => r->Ok_0 is None,
        },
{
}

/// A ceiling that cannot be compared with what was accepted ends the start,
/// with nothing told and nothing asked.
pub proof fn a_failed_comparison_ends_the_start(
    project: &Project,
    consent: Option<&Consent>,
    why: String,
    flags: Flags,
    there: bool,
    now: i64,
    before: Heard,
    after: Heard,
    r: Result<Option<Consent>, String>,
)
    requires
        gated(project, consent, Err(why), flags, there, now, before, after, r),
    ensures
        r matches Err(e) && e@ == why@,
        after == before,
{
}

/// What an acceptance records: this ceiling, by its hash, for the operator's
/// realm, at this time; and of the earlier acceptances exactly those for other
/// realms.
pub proof fn an_acceptance_says_what_was_accepted(
    r: Consent,
    existing: Option<&Consent>,
    project: &Project,
    hash: Seq<char>,
    now: i64,
)
    requires
        records(r, existing, project, hash, now),
    ensures
        r.accepted@.len() > 0,
        r.accepted@.last()@ == (AcceptedView::Listed {
            realm: "operator"@,
            ceiling_hash: hash,
            ceiling: project.ceiling@.map_values(|g: Grant| g@),
            accepted_at: now,
        }),
        existing matches Some(c) ==> accepted_views(r.accepted@).drop_last() == accepted_views(
            c.accepted@,
        ).filter(|a: AcceptedView| a.realm() != "operator"@),
        existing is None ==> r.accepted@.len() == 1 && r.root_id@ == project.root_id@
            && r.signers@.len() == 0 && r.peers@.len() == 0,
        existing matches Some(c) ==> r.root_id@ == c.root_id@,
{
    let all = accepted_views(r.accepted@);
    assert(all.len() == r.accepted@.len());
    assert(all[all.len() - 1] == r.accepted@[r.accepted@.len() - 1]@);
    if let Some(c) = existing {
        elsewhere_filters(accepted_views(c.accepted@));
        assert(all.drop_last() =~= elsewhere(accepted_views(c.accepted@)));
    }
}

proof fn elsewhere_filters(v: Seq<AcceptedView>)
    ensures
        elsewhere(v) == v.filter(|a: AcceptedView| a.realm() != "operator"@),
    decreases v.len(),
{
    reveal(Seq::filter);
    if v.len() > 0 {
        elsewhere_filters(v.drop_last());
    }
}

/// The description of a ceiling has one line for each of its grants: what it
/// denies first, then what it grants.
pub proof fn a_description_leaves_nothing_out(caps: Seq<GrantView>)
    ensures
        described(caps).len() == caps.len(),
        described(caps) == caps.filter(|g: GrantView| g.effect == Effect::Deny).map_values(
            |g: GrantView| "deny  "@ + g.capability,
        ) + caps.filter(|g: GrantView| g.effect == Effect::Grant).map_values(
            |g: GrantView| "grant "@ + g.capability,
        ),
{
    grants::an_effect_selects_its_grants(caps, Effect::Deny);
    grants::an_effect_selects_its_grants(caps, Effect::Grant);
    assert(described(caps) =~= caps.filter(
        |g: GrantView| g.effect == Effect::Deny,
    ).map_values(|g: GrantView| "deny  "@ + g.capability) + caps.filter(
        |g: GrantView| g.effect == Effect::Grant,
    ).map_values(|g: GrantView| "grant "@ + g.capability));
}

/// Before a question is asked, the operator is shown all of what it is about:
/// every line of a first ceiling, and every change of a widened one.
pub proof fn a_question_follows_what_it_is_about(
    check: ConsentCheck,
    project: &Project,
    flags: Flags,
    i: int,
)
    requires
        question(check, flags) is Some,
    ensures
        check is First && 0 <= i < described(grants::views(project.caps@)).len() ==> lines(
            check,
            project,
            flags,
        ).contains("    "@ + described(grants::views(project.caps@))[i]),
        check matches ConsentCheck::Widened { change, .. } ==> 0 <= i < change@.len() ==> lines(
            check,
            project,
            flags,
        ).contains("    "@ + change@[i]@),
{
    let all = lines(check, project, flags);
    if check is First && 0 <= i < described(grants::views(project.caps@)).len() {
        assert(all[i + 1] == "    "@ + described(grants::views(project.caps@))[i]);
    }
    if let ConsentCheck::Widened { change, .. } = check {
        if 0 <= i < change@.len() {
            assert(text::texts(change@)[i] == change@[i]@);
            assert(all[i + 1] == "    "@ + change@[i]@);
        }
    }
}

/// Blanket consent that meets a changed ceiling is told, and no other ceiling
/// that needs no question is.
pub proof fn a_changed_ceiling_under_blanket_consent_is_told(
    changed: bool,
    project: &Project,
    flags: Flags,
)
    ensures
        lines(ConsentCheck::Blanket { ceiling_changed: changed }, project, flags).len() == (if
        changed {
            1int
        } else {
            0int
        }),
{
}

/// Only a yes is a yes, in one of its four spellings, whatever white space
/// stands around it.
pub proof fn only_yes_is_yes(answer: Seq<char>)
    ensures
        affirms(answer) <==> text::trimmed(answer) == "y"@ || text::trimmed(answer) == "yes"@
            || text::trimmed(answer) == "Y"@ || text::trimmed(answer) == "Yes"@,
{
}

/// A start that asks goes on only where the answer was a yes. A no, an answer
/// that cannot be read and nobody to ask each end it, and each says which.
pub proof fn only_an_answer_lets_a_start_go_on(
    project: &Project,
    consent: Option<&Consent>,
    c: ConsentCheck,
    flags: Flags,
    there: bool,
    now: i64,
    before: Heard,
    after: Heard,
    r: Result<Option<Consent>, String>,
)
    requires
        gated(project, consent, Ok(c), flags, there, now, before, after, r),
        question(c, flags) is Some,
    ensures
        there ==> after.asked == before.asked.push(question(c, flags)->0.words),
        there ==> (r is Ok <==> after.answered.last() == Ok::<bool, String>(true)),
        there && after.answered.last() is Err ==> (r matches Err(why) && why@
            == "cannot read an answer from the terminal: "@ + after.answered.last()->Err_0@),
        there && after.answered.last() == Ok::<bool, String>(false) && !(c is Widened) ==> (
        r matches Err(why) && why@ == "the ceiling was not accepted; nothing started"@),
        there && after.answered.last() == Ok::<bool, String>(false) ==> (
        c matches ConsentCheck::Widened { objection, .. } ==> (r matches Err(why) && why@
            == "the widened ceiling was not accepted; nothing started ("@ + objection@ + ")"@)),
        !there ==> r is Err && after.asked == before.asked && after.answered == before.answered,
        !there ==> (r matches Err(why) && text::contains(why@, question(c, flags)->0.words)),
{
    if !there {
        let q = question(c, flags)->0;
        let why = nobody_there(q);
        assert(why.subrange(0, q.words.len() as int) =~= q.words);
        assert(text::stands_at(why, q.words, 0));
    }
}

/// What is asked about is named: by the project's name, or as this root where
/// it has none. Where nobody can be asked, the refusal says which flag answers
/// in advance, and the objection where there is one.
pub proof fn what_is_asked_about_is_named(
    check: ConsentCheck,
    project: &Project,
    flags: Flags,
    q: QuestionView,
)
    ensures
        check is First && !flags.yes ==> lines(check, project, flags).len() > 0 && lines(
            check,
            project,
            flags,
        )[0] == (match project.name {
            Some(n) => n@,
            None => "this root"@,
        }) + " declares a ceiling this operator has not accepted:"@,
        check is Widened && !flags.accept_changes ==> lines(check, project, flags).len() > 0
            && lines(check, project, flags)[0] == "the ceiling of "@ + (match project.name {
            Some(n) => n@,
            None => "this root"@,
        }) + " has widened since it was accepted:"@,
        q.detail.len() > 0 ==> nobody_there(q) == q.words + " -- but there is no terminal to ask."@
            + (" "@ + q.detail + "."@) + " Pass "@ + q.flag
            + " to answer in advance, or run `dollup consent` where somebody can read it."@,
        q.detail.len() == 0 ==> nobody_there(q) == q.words + " -- but there is no terminal to ask."@
            + ""@ + " Pass "@ + q.flag
            + " to answer in advance, or run `dollup consent` where somebody can read it."@,
{
}

} // verus!
