//! A root: where it is, what its parts are called and hold, and whether it
//! lies inside another.

use crate::config::RootConfig;
use crate::paths;
use crate::text;
use vstd::prelude::*;

verus! {

/// The version of this crate.
pub const VERSION: &'static str = "0.5.0";

/// The directory that makes a directory a root.
pub const ROOT_DIR: &'static str = ".drt_root";

/// The version without the tag's leading `v`.
pub open spec fn untagged(t: Seq<char>) -> Seq<char> {
    if t.len() > 0 && t[0] == 'v' {
        t.subrange(1, t.len() as int)
    } else {
        t
    }
}

/// What a root pins: the release tag where there is one, else the version
/// of the crate.
pub open spec fn pin(tag: Option<Seq<char>>, crate_version: Seq<char>) -> Seq<char> {
    match tag {
        Some(t) => if text::trimmed(t).len() > 0 {
            untagged(text::trimmed(t))
        } else {
            crate_version
        },
        None => crate_version,
    }
}

/// The view of an optional string slice.
pub open spec fn opt_str(s: Option<&str>) -> Option<Seq<char>> {
    match s {
        Some(s) => Some(s@),
        None => None,
    }
}

/// What a root pins, from the release tag and the version of the crate. A
/// blank tag is none.
pub fn pin_string(tag: Option<&str>, crate_version: &str) -> (r: String)
    ensures
        r@ == pin(opt_str(tag), crate_version@),
{
    match tag {
        Some(t) => {
            let bare = text::trim(t);
            let cs = text::chars(bare.as_str());
            if cs.len() == 0 {
                crate_version.to_owned()
            } else if cs[0] == 'v' {
                text::cut(&cs, 1, cs.len())
            } else {
                bare
            }
        },
        None => crate_version.to_owned(),
    }
}

/// What a pin is compared with, for a build that was released under `tag`
/// or was not released.
pub fn binary_version(tag: Option<&str>) -> (r: String)
    ensures
        r@ == pin(opt_str(tag), VERSION@),
{
    pin_string(tag, VERSION)
}

/// A located root: the directory that holds `.drt_root/`.
#[derive(Debug)]
pub struct Root {
    pub dir: String,
}

/// A path inside a root's own directory.
pub open spec fn inside(dir: Seq<char>, name: Seq<char>) -> Seq<char> {
    paths::joined(paths::joined(dir, ROOT_DIR@), name)
}

impl Root {
    /// The directory that makes it a root.
    pub fn meta(&self) -> (r: String)
        ensures
            r@ == paths::joined(self.dir@, ROOT_DIR@),
    {
        paths::join(self.dir.as_str(), ROOT_DIR)
    }

    fn part(&self, name: &str) -> (r: String)
        ensures
            r@ == inside(self.dir@, name@),
    {
        paths::join(self.meta().as_str(), name)
    }

    /// The project's description.
    pub fn project_json(&self) -> (r: String)
        ensures
            r@ == inside(self.dir@, "project.json"@),
    {
        self.part("project.json")
    }

    /// What the operator has accepted.
    pub fn consent_json(&self) -> (r: String)
        ensures
            r@ == inside(self.dir@, "consent.json"@),
    {
        self.part("consent.json")
    }

    /// What was delivered.
    pub fn init(&self) -> (r: String)
        ensures
            r@ == inside(self.dir@, "init"@),
    {
        self.part("init")
    }

    /// What runs.
    pub fn live(&self) -> (r: String)
        ensures
            r@ == inside(self.dir@, "live"@),
    {
        self.part("live")
    }

    /// Where the logs go.
    pub fn log(&self) -> (r: String)
        ensures
            r@ == inside(self.dir@, "log"@),
    {
        self.part("log")
    }

    /// The profiles.
    pub fn profile_dir(&self) -> (r: String)
        ensures
            r@ == inside(self.dir@, "profile"@),
    {
        self.part("profile")
    }

    /// What belongs to the runtime and never travels.
    pub fn state(&self) -> (r: String)
        ensures
            r@ == inside(self.dir@, "state"@),
    {
        self.part("state")
    }

    /// The requests that wait for a decision.
    pub fn gsr_pending(&self) -> (r: String)
        ensures
            r@ == paths::joined(inside(self.dir@, "state"@), "gsr/pending"@),
    {
        paths::join(self.state().as_str(), "gsr/pending")
    }

    /// The decisions.
    pub fn gsr_decided(&self) -> (r: String)
        ensures
            r@ == paths::joined(inside(self.dir@, "state"@), "gsr/decided"@),
    {
        paths::join(self.state().as_str(), "gsr/decided")
    }

    /// The pinned binary, where the root carries one.
    pub fn binary(&self) -> (r: String)
        ensures
            r@ == inside(self.dir@, "drt"@),
    {
        self.part("drt")
    }

    /// The directories that are made before anything is written into the
    /// state.
    pub fn state_dirs(&self) -> (r: Vec<String>)
        ensures
            text::texts(r@) == seq![
                paths::joined(inside(self.dir@, "state"@), "gsr/pending"@),
                paths::joined(inside(self.dir@, "state"@), "gsr/decided"@),
            ],
    {
        let mut r: Vec<String> = Vec::new();
        r.push(self.gsr_pending());
        r.push(self.gsr_decided());
        assert(text::texts(r@) =~= seq![
            paths::joined(inside(self.dir@, "state"@), "gsr/pending"@),
            paths::joined(inside(self.dir@, "state"@), "gsr/decided"@),
        ]);
        r
    }
}

/// Where a root is looked for: at the place that is named, else in the
/// working directory, and nowhere else.
pub open spec fn looked_in(cwd: Seq<char>, flag: Option<Seq<char>>) -> Seq<char> {
    match flag {
        Some(named) => named,
        None => cwd,
    }
}

/// The directory in which a root is looked for.
pub fn candidate(cwd: &str, flag: Option<&str>) -> (r: Root)
    ensures
        r.dir@ == looked_in(cwd@, opt_str(flag)),
{
    match flag {
        Some(named) => Root { dir: named.to_owned() },
        None => Root { dir: cwd.to_owned() },
    }
}

/// The root this invocation is in. `dirs` are the directories there are, of
/// those that were asked about.
pub fn discover(cwd: &str, flag: Option<&str>, dirs: &Vec<String>) -> (r: Option<Root>)
    ensures
        r is Some <==> text::texts(dirs@).contains(
            paths::joined(looked_in(cwd@, opt_str(flag)), ROOT_DIR@),
        ),
        r matches Some(root) ==> root.dir@ == looked_in(cwd@, opt_str(flag)),
{
    let root = candidate(cwd, flag);
    if text::among(dirs, root.meta().as_str()) {
        Some(root)
    } else {
        None
    }
}

/// What a root says about lying inside another.
#[derive(Clone, Copy, Debug, PartialEq, Eq, Structural)]
pub enum AllowNested {
    Allow,
    Warn,
    Error,
}

/// What the check for nesting found.
#[derive(Debug)]
pub enum Nesting {
    /// Not inside another root.
    Free,
    /// Inside one, and this root says that is fine.
    Allowed { outer: String },
    /// Inside one, and this root says to say so.
    Warn { outer: String },
    /// Inside one, and this root says not to start.
    Refused { outer: String },
}

/// What nesting is.
pub enum NestingView {
    Free,
    Allowed { outer: Seq<char> },
    Warn { outer: Seq<char> },
    Refused { outer: Seq<char> },
}

impl Nesting {
    /// The finding, as mathematics.
    pub open spec fn view(&self) -> NestingView {
        match self {
            Nesting::Free => NestingView::Free,
            Nesting::Allowed { outer } => NestingView::Allowed { outer: outer@ },
            Nesting::Warn { outer } => NestingView::Warn { outer: outer@ },
            Nesting::Refused { outer } => NestingView::Refused { outer: outer@ },
        }
    }
}

/// The nearest directory above `p` that holds a root.
pub open spec fn outer_root(p: Seq<char>, dirs: Seq<Seq<char>>) -> Option<Seq<char>>
    decreases p.len(),
{
    match paths::parent(p) {
        None => None,
        Some(up) => if dirs.contains(paths::joined(up, ROOT_DIR@)) {
            Some(up)
        } else {
            proof {
                paths::parent_is_shorter(p);
            }
            outer_root(up, dirs)
        },
    }
}

/// What a policy makes of the root outside.
pub open spec fn judged(policy: AllowNested, outer: Option<Seq<char>>) -> NestingView {
    match outer {
        None => NestingView::Free,
        Some(outer) => match policy {
            AllowNested::Allow => NestingView::Allowed { outer },
            AllowNested::Warn => NestingView::Warn { outer },
            AllowNested::Error => NestingView::Refused { outer },
        },
    }
}

impl Root {
    /// Whether this root lies beneath another, and what this root says about
    /// that. `dirs` are the directories there are, of those that were asked
    /// about; the walk upwards stops at the nearest root.
    pub fn nesting(&self, policy: AllowNested, dirs: &Vec<String>) -> (r: Nesting)
        ensures
            r@ == judged(policy, outer_root(self.dir@, text::texts(dirs@))),
    {
        let ghost all = text::texts(dirs@);
        let mut here: String = self.dir.clone();
        loop
            invariant
                all == text::texts(dirs@),
                outer_root(self.dir@, all) == outer_root(here@, all),
            decreases here@.len(),
        {
            let up: String = match paths::parent_of(here.as_str()) {
                None => return Nesting::Free,
                Some(up) => up,
            };
            proof {
                paths::parent_is_shorter(here@);
            }
            if text::among(dirs, paths::join(up.as_str(), ROOT_DIR).as_str()) {
                return match policy {
                    AllowNested::Allow => Nesting::Allowed { outer: up },
                    AllowNested::Warn => Nesting::Warn { outer: up },
                    AllowNested::Error => Nesting::Refused { outer: up },
                };
            }
            here = up;
        }
    }

    /// The directories above this root that the walk upwards asks about, the
    /// nearest first.
    pub fn above(&self) -> (r: Vec<String>)
        ensures
            text::texts(r@) == asked_above(self.dir@),
    {
        let mut r: Vec<String> = Vec::new();
        let mut here: String = self.dir.clone();
        assert(text::texts(r@) + asked_above(self.dir@) =~= asked_above(self.dir@));
        loop
            invariant_except_break
                text::texts(r@) + asked_above(here@) == asked_above(self.dir@),
            ensures
                text::texts(r@) == asked_above(self.dir@),
            decreases here@.len(),
        {
            let ghost before = r@;
            match paths::parent_of(here.as_str()) {
                None => {
                    assert(text::texts(r@) =~= text::texts(r@) + asked_above(here@));
                    break;
                },
                Some(up) => {
                    proof {
                        paths::parent_is_shorter(here@);
                    }
                    let ask = paths::join(up.as_str(), ROOT_DIR);
                    let ghost one = ask@;
                    r.push(ask);
                    assert(text::texts(r@) =~= text::texts(before).push(one));
                    assert(text::texts(r@) + asked_above(up@) =~= text::texts(before)
                        + asked_above(here@));
                    here = up;
                },
            }
        }
        r
    }
}

/// The directories that a walk upwards from `p` asks about.
pub open spec fn asked_above(p: Seq<char>) -> Seq<Seq<char>>
    decreases p.len(),
{
    match paths::parent(p) {
        None => Seq::empty(),
        Some(up) => {
            proof {
                paths::parent_is_shorter(p);
            }
            seq![paths::joined(up, ROOT_DIR@)] + asked_above(up)
        },
    }
}

// ---- listings ----

/// Whether names stand in order, each once.
pub open spec fn in_order(names: Seq<Seq<char>>) -> bool {
    forall|i: int, j: int|
        0 <= i < j < names.len() ==> text::before(#[trigger] names[i], #[trigger] names[j])
}

/// Merges listings into one: every name once, in order.
pub fn merged(names: &Vec<String>) -> (r: Vec<String>)
    ensures
        in_order(text::texts(r@)),
        forall|s: Seq<char>| text::texts(r@).contains(s) <==> text::texts(names@).contains(s),
{
    let ghost all = text::texts(names@);
    let mut r: Vec<String> = Vec::new();
    let mut i: usize = 0;
    while i < names.len()
        invariant
            i <= names.len(),
            all == text::texts(names@),
            in_order(text::texts(r@)),
            forall|s: Seq<char>|
                text::texts(r@).contains(s) <==> all.subrange(0, i as int).contains(s),
        decreases names.len() - i,
    {
        let ghost before = text::texts(r@);
        let ghost name = all[i as int];
        assert(name == names@[i as int]@);
        insert_name(&mut r, names[i].as_str());
        proof {
            let now = all.subrange(0, i + 1);
            assert forall|s: Seq<char>| text::texts(r@).contains(s) <==> now.contains(s) by {
                if now.contains(s) {
                    let k = choose|k: int| 0 <= k < now.len() && now[k] == s;
                    if k < i {
                        assert(all.subrange(0, i as int)[k] == s);
                    }
                }
                if all.subrange(0, i as int).contains(s) {
                    let k = choose|k: int| 0 <= k < i && all.subrange(0, i as int)[k] == s;
                    assert(now[k] == s);
                }
                assert(now[i as int] == name);
            }
        }
        i = i + 1;
    }
    assert(all.subrange(0, all.len() as int) == all);
    r
}

fn insert_name(r: &mut Vec<String>, name: &str)
    requires
        in_order(text::texts(old(r)@)),
    ensures
        in_order(text::texts(final(r)@)),
        forall|s: Seq<char>|
            text::texts(final(r)@).contains(s) <==> text::texts(old(r)@).contains(s) || s == name@,
{
    let ghost all = text::texts(r@);
    let mut at: usize = 0;
    while at < r.len() && text::precedes(r[at].as_str(), name)
        invariant
            at <= r.len(),
            all == text::texts(r@),
            forall|k: int| 0 <= k < at ==> text::before(#[trigger] all[k], name@),
        decreases r.len() - at,
    {
        assert(all[at as int] == r@[at as int]@);
        at = at + 1;
    }
    if at < r.len() && text::same(r[at].as_str(), name) {
        assert(all[at as int] == name@);
        return;
    }
    r.insert(at, name.to_owned());
    proof {
        let now = text::texts(r@);
        assert(now =~= all.insert(at as int, name@));
        assert forall|k: int| at <= k < all.len() implies text::before(name@, #[trigger] all[k]) by {
            text::before_total(name@, all[at as int]);
            assert(all[at as int] == old(r)@[at as int]@);
            if k > at {
                text::before_transitive(name@, all[at as int], all[k]);
            }
        }
        assert forall|i: int, j: int| 0 <= i < j < now.len() implies text::before(
            #[trigger] now[i],
            #[trigger] now[j],
        ) by {
            if i < at {
                assert(now[i] == all[i]);
            } else if i > at {
                assert(now[i] == all[i - 1]);
            }
            if j < at {
                assert(now[j] == all[j]);
            } else if j > at {
                assert(now[j] == all[j - 1]);
            }
        }
        assert forall|s: Seq<char>| now.contains(s) <==> all.contains(s) || s == name@ by {
            if all.contains(s) {
                let k = choose|k: int| 0 <= k < all.len() && all[k] == s;
                if k < at {
                    assert(now[k] == s);
                } else {
                    assert(now[k + 1] == s);
                }
            }
            assert(now[at as int] == name@);
            if now.contains(s) {
                let k = choose|k: int| 0 <= k < now.len() && now[k] == s;
                if k < at {
                    assert(all[k] == s);
                } else if k > at {
                    assert(all[k - 1] == s);
                }
            }
        }
    }
}

// ---- reading a root ----

/// What the files of a root hold: what parsed, and what is said of the rest.
#[derive(Debug)]
pub struct Inputs<P, C, R> {
    pub project: Option<P>,
    pub consent: Option<C>,
    /// The profiles, each under the name of its file.
    pub profiles: Vec<(String, R)>,
    pub soft: Vec<String>,
}

/// What a file holds, where it is there and parses.
pub open spec fn parsed<T>(read: Option<Result<T, String>>) -> Option<T> {
    match read {
        Some(Ok(v)) => Some(v),
        _ => None,
    }
}

/// What is said of a file: nothing where it is not there, and the reason
/// where it does not parse.
pub open spec fn complaint<T>(path: Seq<char>, read: Option<Result<T, String>>) -> Seq<Seq<char>> {
    match read {
        Some(Err(e)) => seq![path + ": "@ + e@],
        _ => Seq::empty(),
    }
}

/// The profiles that parse, in order.
pub open spec fn kept<R>(profiles: Seq<(String, Option<Result<R, String>>)>) -> Seq<(String, R)>
    decreases profiles.len(),
{
    if profiles.len() == 0 {
        Seq::empty()
    } else {
        match parsed(profiles.last().1) {
            Some(v) => kept(profiles.drop_last()).push((profiles.last().0, v)),
            None => kept(profiles.drop_last()),
        }
    }
}

/// What is said of the profiles in a directory, in order.
pub open spec fn complaints<R>(
    dir: Seq<char>,
    profiles: Seq<(String, Option<Result<R, String>>)>,
) -> Seq<Seq<char>>
    decreases profiles.len(),
{
    if profiles.len() == 0 {
        Seq::empty()
    } else {
        complaints(dir, profiles.drop_last()) + complaint(
            paths::joined(dir, profiles.last().0@),
            profiles.last().1,
        )
    }
}

/// Takes in how a file reads, and says of it what there is to say.
fn read_json<T>(path: &str, read: Option<Result<T, String>>, soft: &mut Vec<String>) -> (r: Option<
    T,
>)
    ensures
        r == parsed(read),
        text::texts(final(soft)@) == text::texts(old(soft)@) + complaint(path@, read),
{
    let ghost had = text::texts(soft@);
    match read {
        Some(Ok(v)) => {
            assert(had + complaint(path@, read) =~= had);
            Some(v)
        },
        Some(Err(e)) => {
            let line = text::join3(path, ": ", e.as_str());
            let ghost said = line@;
            soft.push(line);
            assert(text::texts(soft@) =~= had + seq![said]);
            None
        },
        None => {
            assert(had + complaint(path@, read) =~= had);
            None
        },
    }
}

/// The directories that the profiles name for their programs, in order.
pub open spec fn named_dirs(root: Seq<char>, profiles: Seq<(String, RootConfig)>) -> Seq<Seq<char>>
    decreases profiles.len(),
{
    if profiles.len() == 0 {
        Seq::empty()
    } else {
        match profiles.last().1.dlua_dir {
            Some(d) => named_dirs(root, profiles.drop_last()).push(paths::joined(root, d@)),
            None => named_dirs(root, profiles.drop_last()),
        }
    }
}

impl Root {
    /// Takes in how the files of the root read. A file that is not there is
    /// no error, and one that does not parse is reported and stops nothing.
    pub fn read<P, C, R>(
        &self,
        project: Option<Result<P, String>>,
        consent: Option<Result<C, String>>,
        profiles: Vec<(String, Option<Result<R, String>>)>,
    ) -> (r: Inputs<P, C, R>)
        ensures
            r.project == parsed(project),
            r.consent == parsed(consent),
            r.profiles@ == kept(profiles@),
            text::texts(r.soft@) == complaint(inside(self.dir@, "project.json"@), project)
                + complaint(inside(self.dir@, "consent.json"@), consent) + complaints(
                inside(self.dir@, "profile"@),
                profiles@,
            ),
    {
        let ghost all = profiles@;
        let ghost dir = inside(self.dir@, "profile"@);
        let mut soft: Vec<String> = Vec::new();
        assert(text::texts(soft@) =~= Seq::empty());
        let ghost one = complaint(inside(self.dir@, "project.json"@), project);
        let ghost two = complaint(inside(self.dir@, "consent.json"@), consent);
        let project = read_json(self.project_json().as_str(), project, &mut soft);
        assert(text::texts(soft@) =~= one);
        let consent = read_json(self.consent_json().as_str(), consent, &mut soft);
        let mut rest = profiles;
        let mut good: Vec<(String, R)> = Vec::new();
        let ghost mut i: int = 0;
        assert(all.subrange(0, 0) =~= Seq::empty());
        assert(rest@ =~= all.subrange(0, all.len() as int));
        assert(one + two + complaints(dir, all.subrange(0, 0)) =~= one + two);
        while rest.len() > 0
            invariant
                0 <= i,
                i + rest.len() == all.len(),
                dir == inside(self.dir@, "profile"@),
                rest@ == all.subrange(i, all.len() as int),
                good@ == kept(all.subrange(0, i)),
                text::texts(soft@) == one + two + complaints(dir, all.subrange(0, i)),
            decreases rest.len(),
        {
            let (name, read) = rest.remove(0);
            let ghost now = all.subrange(0, i + 1);
            assert(now.last() == (name, read));
            assert(now.drop_last() =~= all.subrange(0, i));
            let path = paths::join(self.profile_dir().as_str(), name.as_str());
            if let Some(v) = read_json(path.as_str(), read, &mut soft) {
                good.push((name, v));
            }
            assert(text::texts(soft@) =~= one + two + complaints(dir, now));
            assert(rest@ =~= all.subrange(i + 1, all.len() as int));
            proof {
                i = i + 1;
            }
        }
        assert(all.subrange(0, i) =~= all);
        Inputs { project, consent, profiles: good, soft }
    }

    /// The directories whose listings say which programs the profiles could
    /// run.
    pub fn dlua_dirs(&self, profiles: &Vec<(String, RootConfig)>) -> (r: Vec<String>)
        ensures
            text::texts(r@) == named_dirs(self.dir@, profiles@),
    {
        let mut r: Vec<String> = Vec::new();
        let mut i: usize = 0;
        assert(text::texts(r@) =~= named_dirs(self.dir@, profiles@.subrange(0, 0)));
        while i < profiles.len()
            invariant
                i <= profiles.len(),
                text::texts(r@) == named_dirs(self.dir@, profiles@.subrange(0, i as int)),
            decreases profiles.len() - i,
        {
            let ghost had = text::texts(r@);
            let ghost now = profiles@.subrange(0, i + 1);
            assert(now.drop_last() =~= profiles@.subrange(0, i as int));
            assert(now.last() == profiles@[i as int]);
            if let Some(d) = &profiles[i].1.dlua_dir {
                r.push(paths::join(self.dir.as_str(), d.as_str()));
                assert(text::texts(r@) =~= had.push(paths::joined(self.dir@, d@)));
            }
            i = i + 1;
        }
        assert(profiles@.subrange(0, profiles@.len() as int) =~= profiles@);
        r
    }

    /// How the record of what was accepted is written: the directory that is
    /// made first, the file, and what goes into it.
    pub fn write_consent(&self, record: &str) -> (r: (String, String, String))
        ensures
            r.0@ == paths::joined(self.dir@, ROOT_DIR@),
            r.1@ == inside(self.dir@, "consent.json"@),
            r.2@ == record@ + "\n"@,
    {
        (self.meta(), self.consent_json(), text::join2(record, "\n"))
    }
}

// ---- laws ----

/// A pin is never empty, as long as the crate has a version and the tag
/// holds more than its `v`.
pub proof fn a_pin_says_something(tag: Option<Seq<char>>, crate_version: Seq<char>)
    requires
        crate_version.len() > 0,
        tag matches Some(t) ==> text::trimmed(t) != "v"@,
    ensures
        pin(tag, crate_version).len() > 0,
{
    reveal_strlit("v");
    if let Some(t) = tag {
        let b = text::trimmed(t);
        if b.len() == 1 && b[0] == 'v' {
            assert(b =~= "v"@);
        }
    }
}

/// The root that nesting names lies above: it is a shorter path.
pub proof fn the_outer_root_lies_above(p: Seq<char>, dirs: Seq<Seq<char>>)
    ensures
        outer_root(p, dirs) matches Some(up) ==> up.len() < p.len() && dirs.contains(
            paths::joined(up, ROOT_DIR@),
        ),
    decreases p.len(),
{
    paths::parent_is_shorter(p);
    if let Some(up) = paths::parent(p) {
        if !dirs.contains(paths::joined(up, ROOT_DIR@)) {
            the_outer_root_lies_above(up, dirs);
        }
    }
}

/// A file that does not parse is reported, and takes no other down: every
/// profile is either kept or complained of, but for those that are not there.
pub proof fn a_broken_profile_stops_no_other<R>(
    dir: Seq<char>,
    profiles: Seq<(String, Option<Result<R, String>>)>,
)
    requires
        forall|i: int| 0 <= i < profiles.len() ==> (#[trigger] profiles[i]).1 is Some,
    ensures
        kept(profiles).len() + complaints(dir, profiles).len() == profiles.len(),
    decreases profiles.len(),
{
    if profiles.len() > 0 {
        let head = profiles.drop_last();
        assert forall|i: int| 0 <= i < head.len() implies (#[trigger] head[i]).1 is Some by {
            assert(head[i] == profiles[i]);
        }
        assert(profiles[profiles.len() - 1].1 is Some);
        a_broken_profile_stops_no_other(dir, head);
    }
}

/// What belongs to a root lies in its own directory.
pub proof fn a_root_keeps_its_own_directory(dir: Seq<char>, name: Seq<char>)
    requires
        dir.len() > 0,
        dir.last() != '/',
        name.len() == 0 || name[0] != '/',
    ensures
        inside(dir, name) == dir + "/.drt_root/"@ + name,
{
    reveal_strlit("/");
    reveal_strlit(".drt_root");
    reveal_strlit("/.drt_root/");
    assert(inside(dir, name) =~= dir + "/.drt_root/"@ + name);
}

/// A release pins its tag, without the `v` in front, and anything else the
/// version of the crate.
pub proof fn a_release_pins_its_tag(t: Seq<char>, crate_version: Seq<char>)
    ensures
        pin(None, crate_version) == crate_version,
        text::trimmed(t).len() == 0 ==> pin(Some(t), crate_version) == crate_version,
        text::trimmed(t).len() > 0 && text::trimmed(t)[0] != 'v' ==> pin(Some(t), crate_version)
            == text::trimmed(t),
        text::trimmed(t).len() > 0 && text::trimmed(t)[0] == 'v' ==> seq!['v'] + pin(
            Some(t),
            crate_version,
        ) == text::trimmed(t),
{
    let s = text::trimmed(t);
    if s.len() > 0 && s[0] == 'v' {
        assert(seq!['v'] + s.subrange(1, s.len() as int) =~= s);
    }
}

/// A root is looked for where it is named, and in the working directory where
/// none is.
pub proof fn a_named_place_comes_first(cwd: Seq<char>, named: Seq<char>)
    ensures
        looked_in(cwd, Some(named)) == named,
        looked_in(cwd, None) == cwd,
{
}

/// The nearest root above counts, and only the directories that are asked
/// about decide which that is.
pub proof fn the_nearest_root_above_counts(p: Seq<char>, dirs: Seq<Seq<char>>)
    ensures
        match paths::parent(p) {
            None => outer_root(p, dirs) is None && asked_above(p).len() == 0,
            Some(up) => {
                &&& asked_above(p).len() > 0
                &&& asked_above(p)[0] == paths::joined(up, ".drt_root"@)
                &&& dirs.contains(paths::joined(up, ".drt_root"@)) ==> outer_root(p, dirs) == Some(
                    up,
                )
                &&& !dirs.contains(paths::joined(up, ".drt_root"@)) ==> outer_root(p, dirs)
                    == outer_root(up, dirs)
            },
        },
        outer_root(p, dirs) matches Some(up) ==> asked_above(p).contains(
            paths::joined(up, ".drt_root"@),
        ),
    decreases p.len(),
{
    paths::parent_is_shorter(p);
    if let Some(up) = paths::parent(p) {
        the_nearest_root_above_counts(up, dirs);
        assert(asked_above(p)[0] == paths::joined(up, ".drt_root"@));
        if let Some(far) = outer_root(p, dirs) {
            if far != up {
                let rest = asked_above(up);
                let k = choose|k: int|
                    0 <= k < rest.len() && rest[k] == paths::joined(far, ".drt_root"@);
                assert(asked_above(p)[k + 1] == rest[k]);
            }
        }
    }
}

/// Each profile that parses is kept under its own name, and each that does not
/// is complained of at its own path.
pub proof fn a_profile_is_kept_or_complained_of<R>(
    dir: Seq<char>,
    profiles: Seq<(String, Option<Result<R, String>>)>,
    i: int,
)
    requires
        0 <= i < profiles.len(),
    ensures
        profiles[i].1 matches Some(Ok(v)) ==> kept(profiles).contains((profiles[i].0, v)),
        profiles[i].1 matches Some(Err(e)) ==> complaints(dir, profiles).contains(
            paths::joined(dir, profiles[i].0@) + ": "@ + e@,
        ),
        kept(profiles).len() + complaints(dir, profiles).len() <= profiles.len(),
    decreases profiles.len(),
{
    let rest = profiles.drop_last();
    let n = profiles.len() - 1;
    if rest.len() > 0 {
        a_profile_is_kept_or_complained_of(
            dir,
            rest,
            if i < n {
                i
            } else {
                0
            },
        );
    }
    let k0 = kept(rest);
    let c0 = complaints(dir, rest);
    let k1 = kept(profiles);
    let c1 = complaints(dir, profiles);
    if i < n {
        assert(rest[i] == profiles[i]);
        if let Some(Ok(v)) = profiles[i].1 {
            let a = choose|a: int| 0 <= a < k0.len() && k0[a] == (profiles[i].0, v);
            assert(k1[a] == k0[a]);
        }
        if let Some(Err(e)) = profiles[i].1 {
            let line = paths::joined(dir, profiles[i].0@) + ": "@ + e@;
            let a = choose|a: int| 0 <= a < c0.len() && c0[a] == line;
            assert(c1[a] == c0[a]);
        }
    } else {
        if let Some(Ok(v)) = profiles[i].1 {
            assert(k1[k0.len() as int] == (profiles[i].0, v));
        }
        if let Some(Err(e)) = profiles[i].1 {
            assert(c1[c0.len() as int] == paths::joined(dir, profiles[i].0@) + ": "@ + e@);
        }
    }
}

/// Every directory that a profile names for its programs is looked into, below
/// the root.
pub proof fn every_named_directory_is_looked_into(
    root: Seq<char>,
    profiles: Seq<(String, RootConfig)>,
    i: int,
)
    requires
        0 <= i < profiles.len(),
        profiles[i].1.dlua_dir is Some,
    ensures
        named_dirs(root, profiles).contains(
            paths::joined(root, profiles[i].1.dlua_dir->0@),
        ),
    decreases profiles.len(),
{
    let rest = profiles.drop_last();
    let d0 = named_dirs(root, rest);
    let d1 = named_dirs(root, profiles);
    let want = paths::joined(root, profiles[i].1.dlua_dir->0@);
    if i < rest.len() {
        assert(rest[i] == profiles[i]);
        every_named_directory_is_looked_into(root, rest, i);
        let a = choose|a: int| 0 <= a < d0.len() && d0[a] == want;
        assert(d1[a] == d0[a]);
    } else {
        assert(d1[d0.len() as int] == want);
    }
}

} // verus!
