//! `deploy`, `rm` and `commit`: what moves between the three directories of
//! a root, decided before anything is touched.

use crate::drt_root;
use crate::drt_root::Root;
use crate::paths;
use crate::text;
use crate::tree;
use crate::tree::{Item, ItemView, Node, NodeView};
use vstd::prelude::*;

verus! {

/// The most files that one deploy or commit copies.
pub const MAX_FILES: usize = 10_000;

/// The most bytes that one deploy or commit copies.
pub const MAX_BYTES: u64 = 268_435_456;

/// Where a deploy reads from.
#[derive(Debug)]
pub enum Source {
    /// The profile names a directory of its own.
    DluaDir(String),
    /// It does not: what was delivered.
    Init(String),
}

impl Source {
    /// The directory.
    pub open spec fn spec_path(self) -> Seq<char> {
        match self {
            Source::DluaDir(p) => p@,
            Source::Init(p) => p@,
        }
    }

    /// The directory.
    pub fn path(&self) -> (r: &str)
        ensures
            r@ == self.spec_path(),
    {
        match self {
            Source::DluaDir(p) => p.as_str(),
            Source::Init(p) => p.as_str(),
        }
    }

    /// How it is named in messages.
    pub open spec fn spec_describe(self) -> Seq<char> {
        match self {
            Source::DluaDir(_) => "dlua_dir"@,
            Source::Init(_) => "init/"@,
        }
    }

    /// How it is named in messages.
    pub fn describe(&self) -> (r: &'static str)
        ensures
            r@ == self.spec_describe(),
    {
        match self {
            Source::DluaDir(_) => "dlua_dir",
            Source::Init(_) => "init/",
        }
    }
}

/// Which directory a profile deploys from: its own where it names one, else
/// what was delivered.
pub fn source_for(root: &Root, dlua_dir: Option<&str>) -> (r: Source)
    ensures
        match dlua_dir {
            Some(dir) => r is DluaDir && r.spec_path() == paths::joined(root.dir@, dir@),
            None => r is Init && r.spec_path() == drt_root::inside(root.dir@, "init"@),
        },
{
    match dlua_dir {
        Some(dir) => Source::DluaDir(paths::join(root.dir.as_str(), dir)),
        None => Source::Init(root.init()),
    }
}

/// The name that a root deploys under: the project's, else the directory's.
pub open spec fn name_for(dir: Seq<char>, project: Option<Seq<char>>) -> Seq<char> {
    match project {
        Some(name) => name,
        None => match paths::file_name(dir) {
            Some(name) => name,
            None => "deployment"@,
        },
    }
}

/// Which directory of `live/` a root deploys into.
pub fn deployment_name(root: &Root, project_name: Option<&str>) -> (r: String)
    ensures
        r@ == name_for(root.dir@, drt_root::opt_str(project_name)),
{
    match project_name {
        Some(name) => name.to_owned(),
        None => match paths::file_name_of(root.dir.as_str()) {
            Some(name) => name,
            None => "deployment".to_owned(),
        },
    }
}

/// The path of a deployment.
pub open spec fn live(dir: Seq<char>, name: Seq<char>) -> Seq<char> {
    paths::joined(drt_root::inside(dir, "live"@), name)
}

/// The path of a deployment.
pub fn live_path(root: &Root, name: &str) -> (r: String)
    ensures
        r@ == live(root.dir@, name@),
{
    paths::join(root.live().as_str(), name)
}

/// Tells whether something is deployed, where `node` is what stands at the
/// path of the deployment.
pub fn is_deployed(node: Option<&Node>) -> (r: bool)
    ensures
        r == (node matches Some(t) && t@.is_dir()),
{
    match node {
        Some(t) => t.is_dir(),
        None => false,
    }
}

/// What a deploy or a commit moved.
#[derive(Clone, Copy, Debug, PartialEq, Eq, Structural)]
pub struct Report {
    pub files: usize,
    pub bytes: u64,
}

impl Default for Report {
    /// Nothing moved.
    fn default() -> (r: Report)
        ensures
            r.files == 0,
            r.bytes == 0,
    {
        Report { files: 0, bytes: 0 }
    }
}

/// One thing to do on disk.
#[derive(Debug)]
pub enum Act {
    /// Remove a directory and everything in it; one that is not there is
    /// fine.
    Clear(String),
    /// Make a directory, and those above it.
    MakeDir(String),
    /// Write a file.
    Write(String, Vec<u8>),
}

/// What a thing to do is.
#[verifier::ext_equal]
pub enum ActView {
    Clear(Seq<char>),
    MakeDir(Seq<char>),
    Write(Seq<char>, Seq<u8>),
}

impl Act {
    /// The act, as mathematics.
    pub open spec fn view(&self) -> ActView {
        match self {
            Act::Clear(p) => ActView::Clear(p@),
            Act::MakeDir(p) => ActView::MakeDir(p@),
            Act::Write(p, b) => ActView::Write(p@, b@),
        }
    }
}

/// The acts of a list, as mathematics.
pub open spec fn act_views(acts: Seq<Act>) -> Seq<ActView> {
    Seq::new(acts.len(), |i: int| acts[i]@)
}

/// What is done, in order, and what it comes to then: what was moved, or why
/// it ends there.
#[derive(Debug)]
pub struct Plan {
    pub acts: Vec<Act>,
    pub outcome: Result<Report, String>,
}

/// A path of the walk under a directory.
pub open spec fn under(dir: Seq<char>, path: Seq<char>) -> Seq<char> {
    if path.len() == 0 {
        dir
    } else {
        paths::joined(dir, path)
    }
}

fn place_under(dir: &str, path: &str) -> (r: String)
    ensures
        r@ == under(dir@, path@),
{
    if path.is_empty() {
        dir.to_owned()
    } else {
        paths::join(dir, path)
    }
}

/// How many files a walk comes to.
pub open spec fn file_count(items: Seq<ItemView>) -> nat
    decreases items.len(),
{
    if items.len() == 0 {
        0
    } else {
        file_count(items.drop_last()) + (if items.last() is File {
            1nat
        } else {
            0nat
        })
    }
}

/// How many bytes a walk comes to.
pub open spec fn byte_count(items: Seq<ItemView>) -> nat
    decreases items.len(),
{
    if items.len() == 0 {
        0
    } else {
        byte_count(items.drop_last()) + (match items.last() {
            ItemView::File(p, b) => b.len(),
            _ => 0,
        })
    }
}

/// Why a copy of what a walk comes to is refused, by the first of its items
/// that gives a reason.
pub open spec fn copy_refusal(from: Seq<char>, items: Seq<ItemView>) -> Option<Seq<char>>
    decreases items.len(),
{
    if items.len() == 0 {
        None
    } else {
        match copy_refusal(from, items.drop_last()) {
            Some(why) => Some(why),
            None => match items.last() {
                ItemView::Dir(p) => None,
                ItemView::Unlisted(p, why) => Some("cannot read "@ + under(from, p) + ": "@ + why),
                ItemView::Unreadable(p, why) => Some(
                    "cannot read "@ + under(from, p) + ": "@ + why,
                ),
                ItemView::File(p, b) => if file_count(items) > MAX_FILES {
                    Some(
                        "more than 10000 files under "@ + from
                            + "; a root is source code, and a tree this size is one to look at before deploying"@,
                    )
                } else if byte_count(items) > MAX_BYTES {
                    Some("more than 256 MiB under "@ + from + "; same reason"@)
                } else {
                    None
                },
            },
        }
    }
}

/// What a walk comes to up to the item that a copy is refused for, that item
/// included.
pub open spec fn until_refused(from: Seq<char>, items: Seq<ItemView>) -> Seq<ItemView>
    decreases items.len(),
{
    if items.len() > 0 && copy_refusal(from, items.drop_last()) is Some {
        until_refused(from, items.drop_last())
    } else {
        items
    }
}

/// What is done for one item of a copy.
pub open spec fn copy_act(to: Seq<char>, item: ItemView) -> ActView {
    match item {
        ItemView::File(p, b) => ActView::Write(under(to, p), b),
        ItemView::Dir(p) => ActView::MakeDir(under(to, p)),
        ItemView::Unlisted(p, why) => ActView::MakeDir(under(to, p)),
        ItemView::Unreadable(p, why) => ActView::MakeDir(under(to, p)),
    }
}

/// What is done to copy what a walk comes to: each directory is made and
/// each file written, in the order of the walk.
pub open spec fn copy_acts(to: Seq<char>, items: Seq<ItemView>) -> Seq<ActView> {
    items.map_values(|i: ItemView| copy_act(to, i))
}

/// What is done for a copy that is refused. One that is past its bounds is
/// refused before anything is touched. One that meets something unreadable
/// ends there, with what it has copied so far: a directory is made before it
/// is listed.
pub open spec fn refused_acts(from: Seq<char>, to: Seq<char>, items: Seq<ItemView>) -> Seq<ActView> {
    let met = until_refused(from, items);
    match met.last() {
        ItemView::File(p, b) => Seq::empty(),
        ItemView::Unreadable(p, why) => seq![ActView::Clear(to)] + copy_acts(to, met.drop_last()),
        _ => seq![ActView::Clear(to)] + copy_acts(to, met),
    }
}

proof fn refusal_of_prefix(from: Seq<char>, items: Seq<ItemView>, n: int)
    requires
        0 <= n <= items.len(),
        copy_refusal(from, items.subrange(0, n)) is Some,
    ensures
        copy_refusal(from, items) == copy_refusal(from, items.subrange(0, n)),
        until_refused(from, items) == until_refused(from, items.subrange(0, n)),
    decreases items.len() - n,
{
    if n < items.len() {
        assert(items.subrange(0, n + 1).drop_last() == items.subrange(0, n));
        refusal_of_prefix(from, items, n + 1);
    } else {
        assert(items.subrange(0, n) == items);
    }
}

/// Copies everything that a walk comes to: the acts, and the report. A refusal
/// says whether the bounds are its reason.
fn copy_tree(from: &str, to: &str, items: &Vec<Item>, acts: &mut Vec<Act>) -> (r: Result<
    Report,
    (String, bool),
>)
    ensures
        match copy_refusal(from@, tree::item_views(items@)) {
            Some(what) => r matches Err((why, bounds)) && {
                let met = until_refused(from@, tree::item_views(items@));
                &&& why@ == what
                &&& bounds == met.last() is File
                &&& act_views(final(acts)@) == act_views(old(acts)@) + copy_acts(
                    to@,
                    if met.last() is Unlisted {
                        met
                    } else {
                        met.drop_last()
                    },
                )
            },
            None => {
                &&& r matches Ok(report) && report.files == file_count(tree::item_views(items@))
                    && report.bytes == byte_count(tree::item_views(items@))
                &&& act_views(final(acts)@) == act_views(old(acts)@) + copy_acts(
                    to@,
                    tree::item_views(items@),
                )
            },
        },
{
    let ghost all = tree::item_views(items@);
    let ghost before = act_views(acts@);
    let mut report = Report { files: 0, bytes: 0 };
    let mut i: usize = 0;
    assert(before + copy_acts(to@, all.subrange(0, 0)) =~= before);
    while i < items.len()
        invariant
            i <= items.len(),
            all == tree::item_views(items@),
            copy_refusal(from@, all.subrange(0, i as int)) is None,
            report.files == file_count(all.subrange(0, i as int)),
            report.bytes == byte_count(all.subrange(0, i as int)),
            report.files <= MAX_FILES,
            report.bytes <= MAX_BYTES,
            before == act_views(old(acts)@),
            act_views(acts@) == before + copy_acts(to@, all.subrange(0, i as int)),
        decreases items.len() - i,
    {
        let ghost now = all.subrange(0, i + 1);
        let ghost had = act_views(acts@);
        assert(now.drop_last() == all.subrange(0, i as int));
        assert(now.last() == items@[i as int]@);
        assert(all.len() == items@.len());
        assert(until_refused(from@, now) == now);
        match &items[i] {
            Item::Dir(p) => {
                let act = Act::MakeDir(place_under(to, p.as_str()));
                let ghost one = act@;
                acts.push(act);
                assert(act_views(acts@) =~= had.push(one));
            },
            Item::Unlisted(p, why) => {
                let act = Act::MakeDir(place_under(to, p.as_str()));
                let ghost one = act@;
                acts.push(act);
                proof {
                    refusal_of_prefix(from@, all, i + 1);
                    assert(act_views(acts@) =~= had.push(one));
                    assert(copy_acts(to@, now) =~= copy_acts(to@, now.drop_last()).push(one));
                    assert(act_views(acts@) =~= before + copy_acts(to@, now));
                }
                return Err(
                    (
                        text::join4(
                            "cannot read ",
                            place_under(from, p.as_str()).as_str(),
                            ": ",
                            why.as_str(),
                        ),
                        false,
                    ),
                );
            },
            Item::Unreadable(p, why) => {
                proof {
                    refusal_of_prefix(from@, all, i + 1);
                }
                return Err(
                    (
                        text::join4(
                            "cannot read ",
                            place_under(from, p.as_str()).as_str(),
                            ": ",
                            why.as_str(),
                        ),
                        false,
                    ),
                );
            },
            Item::File(p, b) => {
                report.files = report.files + 1;
                let many: bool = report.files > MAX_FILES;
                let big: bool = b.len() as u64 > MAX_BYTES - report.bytes;
                if many || big {
                    proof {
                        refusal_of_prefix(from@, all, i + 1);
                    }
                }
                if many {
                    return Err(
                        (
                            text::join3(
                                "more than 10000 files under ",
                                from,
                                "; a root is source code, and a tree this size is one to look at before deploying",
                            ),
                            true,
                        ),
                    );
                }
                if big {
                    return Err(
                        (text::join3("more than 256 MiB under ", from, "; same reason"), true),
                    );
                }
                report.bytes = report.bytes + b.len() as u64;
                let act = Act::Write(
                    place_under(to, p.as_str()),
                    vstd::slice::slice_to_vec(b.as_slice()),
                );
                let ghost one = act@;
                acts.push(act);
                assert(act_views(acts@) =~= had.push(one));
            },
        }
        assert(copy_acts(to@, now) =~= copy_acts(to@, all.subrange(0, i as int)).push(
            copy_act(to@, now.last()),
        ));
        assert(act_views(acts@) =~= before + copy_acts(to@, now));
        i = i + 1;
    }
    assert(all.subrange(0, all.len() as int) == all);
    Ok(report)
}

/// Whether a plan clears `to` and then copies what a walk comes to, as far as
/// that goes.
pub open spec fn copies(
    r: Plan,
    from: Seq<char>,
    to: Seq<char>,
    items: Seq<ItemView>,
) -> bool {
    match copy_refusal(from, items) {
        Some(what) => {
            &&& r.outcome matches Err(why) && why@ == what
            &&& act_views(r.acts@) == refused_acts(from, to, items)
        },
        None => {
            &&& r.outcome matches Ok(report) && report.files == file_count(items) && report.bytes
                == byte_count(items)
            &&& act_views(r.acts@) == seq![ActView::Clear(to)] + copy_acts(to, items)
        },
    }
}

/// Whether a plan does nothing and ends for a reason.
pub open spec fn refuses(r: Plan, what: Seq<char>) -> bool {
    r.acts@.len() == 0 && (r.outcome matches Err(why) && why@ == what)
}

fn refusal(why: String) -> (r: Plan)
    ensures
        refuses(r, why@),
{
    Plan { acts: Vec::new(), outcome: Err(why) }
}

fn plan_copy(from: &str, to: String, node: &Node) -> (r: Plan)
    ensures
        copies(r, from@, to@, tree::walked(Seq::empty(), node@)),
{
    let items = tree::walk(node);
    let mut acts: Vec<Act> = Vec::new();
    acts.push(Act::Clear(to.clone()));
    assert(act_views(acts@) =~= seq![ActView::Clear(to@)]);
    match copy_tree(from, to.as_str(), &items, &mut acts) {
        Ok(report) => Plan { acts, outcome: Ok(report) },
        Err((why, bounds)) => {
            if bounds {
                let none = refusal(why);
                assert(act_views(none.acts@) =~= Seq::empty());
                return none;
            }
            proof {
                a_refusal_has_a_reason(from@, tree::walked(Seq::empty(), node@));
            }
            Plan { acts, outcome: Err(why) }
        },
    }
}

proof fn a_refusal_has_a_reason(from: Seq<char>, items: Seq<ItemView>)
    requires
        copy_refusal(from, items) is Some,
    ensures
        until_refused(from, items).len() > 0,
        !(until_refused(from, items).last() is Dir),
        until_refused(from, items) == items.subrange(0, until_refused(from, items).len() as int),
        until_refused(from, items).len() <= items.len(),
        copy_refusal(from, until_refused(from, items).drop_last()) is None,
    decreases items.len(),
{
    if copy_refusal(from, items.drop_last()) is Some {
        a_refusal_has_a_reason(from, items.drop_last());
        let n = until_refused(from, items).len() as int;
        assert(items.drop_last().subrange(0, n) =~= items.subrange(0, n));
    } else {
        assert(items.subrange(0, items.len() as int) =~= items);
    }
}

/// The refusal to deploy from what is no directory.
pub open spec fn nothing_to_deploy(source: Source) -> Seq<char> {
    "there is nothing to deploy: "@ + source.spec_path() + " ("@ + source.spec_describe()
        + ") is not a directory"@
}

/// Copies `source`, where `node` stands, into `live/<name>`, replacing
/// whatever is there.
pub fn deploy(root: &Root, name: &str, source: &Source, node: Option<&Node>) -> (r: Plan)
    ensures
        match node {
            Some(t) => if t@.is_dir() {
                copies(
                    r,
                    source.spec_path(),
                    live(root.dir@, name@),
                    tree::walked(Seq::empty(), t@),
                )
            } else {
                refuses(r, nothing_to_deploy(*source))
            },
            None => refuses(r, nothing_to_deploy(*source)),
        },
{
    if let Some(t) = node {
        if t.is_dir() {
            return plan_copy(source.path(), live_path(root, name), t);
        }
    }
    let mut why = text::join4(
        "there is nothing to deploy: ",
        source.path(),
        " (",
        source.describe(),
    );
    why.append(") is not a directory");
    refusal(why)
}

/// Takes a deployment away. One that is not there is no failure.
pub fn remove(root: &Root, name: &str) -> (r: Act)
    ensures
        r@ == ActView::Clear(live(root.dir@, name@)),
{
    Act::Clear(live_path(root, name))
}

/// The refusal to commit what is not deployed.
pub open spec fn nothing_to_commit(name: Seq<char>) -> Seq<char> {
    "nothing is deployed as '"@ + name
        + "', so there is nothing to commit; `drt deploy` first"@
}

/// Captures `live/<name>`, where `node` stands, into `init/`. The copy is of
/// what runs and of nothing else.
pub fn commit(root: &Root, name: &str, node: Option<&Node>) -> (r: Plan)
    ensures
        match node {
            Some(t) => if t@.is_dir() {
                copies(
                    r,
                    live(root.dir@, name@),
                    drt_root::inside(root.dir@, "init"@),
                    tree::walked(Seq::empty(), t@),
                )
            } else {
                refuses(r, nothing_to_commit(name@))
            },
            None => refuses(r, nothing_to_commit(name@)),
        },
{
    if let Some(t) = node {
        if t.is_dir() {
            let from = live_path(root, name);
            return plan_copy(from.as_str(), root.init(), t);
        }
    }
    refusal(
        text::join3(
            "nothing is deployed as '",
            name,
            "', so there is nothing to commit; `drt deploy` first",
        ),
    )
}

// ---- the record of a commit ----

/// The files with one more, in the order of their paths.
pub open spec fn filed(fs: Seq<(Seq<char>, Seq<u8>)>, f: (Seq<char>, Seq<u8>)) -> Seq<
    (Seq<char>, Seq<u8>),
>
    decreases fs.len(),
{
    if fs.len() > 0 && text::before(f.0, fs.last().0) {
        filed(fs.drop_last(), f).push(fs.last())
    } else {
        fs.push(f)
    }
}

/// Every file that a walk comes to, by its path, in the order of the paths;
/// or why one cannot be read. A directory that cannot be listed has none.
pub open spec fn recorded(dir: Seq<char>, items: Seq<ItemView>) -> Result<
    Seq<(Seq<char>, Seq<u8>)>,
    Seq<char>,
>
    decreases items.len(),
{
    if items.len() == 0 {
        Ok(Seq::empty())
    } else {
        match recorded(dir, items.drop_last()) {
            Err(why) => Err(why),
            Ok(fs) => match items.last() {
                ItemView::File(p, b) => Ok(filed(fs, (p, b))),
                ItemView::Unreadable(p, why) => Err("cannot read "@ + under(dir, p) + ": "@ + why),
                _ => Ok(fs),
            },
        }
    }
}

proof fn record_of_prefix(dir: Seq<char>, items: Seq<ItemView>, n: int)
    requires
        0 <= n <= items.len(),
        recorded(dir, items.subrange(0, n)) is Err,
    ensures
        recorded(dir, items) == recorded(dir, items.subrange(0, n)),
    decreases items.len() - n,
{
    if n < items.len() {
        assert(items.subrange(0, n + 1).drop_last() == items.subrange(0, n));
        record_of_prefix(dir, items, n + 1);
    } else {
        assert(items.subrange(0, n) == items);
    }
}

/// Files by their paths, as mathematics.
pub open spec fn file_views(fs: Seq<(String, Vec<u8>)>) -> Seq<(Seq<char>, Seq<u8>)> {
    Seq::new(fs.len(), |i: int| (fs[i].0@, fs[i].1@))
}

fn file(fs: &mut Vec<(String, Vec<u8>)>, f: (String, Vec<u8>))
    ensures
        file_views(final(fs)@) == filed(file_views(old(fs)@), (f.0@, f.1@)),
{
    let ghost all = file_views(fs@);
    let ghost one = (f.0@, f.1@);
    let mut at: usize = fs.len();
    assert(all.subrange(0, all.len() as int) =~= all);
    assert(filed(all, one) + all.subrange(all.len() as int, all.len() as int) =~= filed(all, one));
    while at > 0 && text::precedes(f.0.as_str(), fs[at - 1].0.as_str())
        invariant
            at <= fs@.len(),
            all == file_views(fs@),
            one == (f.0@, f.1@),
            filed(all, one) == filed(all.subrange(0, at as int), one) + all.subrange(
                at as int,
                all.len() as int,
            ),
        decreases at,
    {
        proof {
            let head = all.subrange(0, at as int);
            assert(head.last() == (fs@[at - 1].0@, fs@[at - 1].1@));
            assert(head.drop_last() == all.subrange(0, at - 1));
            assert(filed(head.drop_last(), one).push(head.last()) + all.subrange(
                at as int,
                all.len() as int,
            ) =~= filed(all.subrange(0, at - 1), one) + all.subrange(at - 1, all.len() as int));
        }
        at = at - 1;
    }
    proof {
        let head = all.subrange(0, at as int);
        if at > 0 {
            assert(head.last() == (fs@[at - 1].0@, fs@[at - 1].1@));
        }
        assert(filed(head, one) == head.push(one));
    }
    fs.insert(at, f);
    assert(file_views(fs@) =~= filed(all, one));
}

/// Every file under a directory, by its path from there, in the order of the
/// paths: what the record of a commit is made from.
#[verifier::rlimit(40)]
pub fn contents(dir: &str, node: &Node) -> (r: Result<Vec<(String, Vec<u8>)>, String>)
    ensures
        match recorded(dir@, tree::walked(Seq::empty(), node@)) {
            Ok(fs) => r matches Ok(v) && file_views(v@) == fs,
            Err(what) => r matches Err(why) && why@ == what,
        },
{
    let items = tree::walk(node);
    let ghost all = tree::item_views(items@);
    let mut fs: Vec<(String, Vec<u8>)> = Vec::new();
    let mut i: usize = 0;
    assert(file_views(fs@) =~= Seq::empty());
    assert(all.subrange(0, 0) =~= Seq::empty());
    while i < items.len()
        invariant
            i <= items.len(),
            all == tree::item_views(items@),
            all == tree::walked(Seq::empty(), node@),
            recorded(dir@, all.subrange(0, i as int)) == Ok::<
                Seq<(Seq<char>, Seq<u8>)>,
                Seq<char>,
            >(file_views(fs@)),
        decreases items.len() - i,
    {
        let ghost now = all.subrange(0, i + 1);
        assert(now.drop_last() == all.subrange(0, i as int));
        assert(now.last() == items@[i as int]@);
        match &items[i] {
            Item::File(p, b) => {
                file(&mut fs, (p.clone(), vstd::slice::slice_to_vec(b.as_slice())));
            },
            Item::Unreadable(p, why) => {
                proof {
                    record_of_prefix(dir@, all, i + 1);
                }
                return Err(
                    text::join4(
                        "cannot read ",
                        place_under(dir, p.as_str()).as_str(),
                        ": ",
                        why.as_str(),
                    ),
                );
            },
            _ => {},
        }
        i = i + 1;
    }
    assert(all.subrange(0, all.len() as int) == all);
    Ok(fs)
}

// ---- laws ----

/// A copy that is not refused stays within its bounds.
pub proof fn a_copy_is_bounded(from: Seq<char>, items: Seq<ItemView>)
    requires
        copy_refusal(from, items) is None,
    ensures
        file_count(items) <= MAX_FILES,
        byte_count(items) <= MAX_BYTES,
    decreases items.len(),
{
    if items.len() > 0 {
        a_copy_is_bounded(from, items.drop_last());
    }
}

/// A tree that is past its bounds is refused before anything is touched.
pub proof fn a_tree_past_its_bounds_touches_nothing(
    from: Seq<char>,
    to: Seq<char>,
    items: Seq<ItemView>,
)
    requires
        copy_refusal(from, items) is Some,
        forall|i: int|
            0 <= i < items.len() ==> !((#[trigger] items[i]) is Unlisted) && !(items[i]
                is Unreadable),
    ensures
        refused_acts(from, to, items) == Seq::<ActView>::empty(),
{
    a_refusal_has_a_reason(from, items);
    let met = until_refused(from, items);
    assert(met.last() == items[met.len() - 1]);
}

/// The files that acts write, in order.
pub open spec fn written(acts: Seq<ActView>) -> Seq<(Seq<char>, Seq<u8>)>
    decreases acts.len(),
{
    if acts.len() == 0 {
        Seq::empty()
    } else {
        match acts.last() {
            ActView::Write(p, b) => written(acts.drop_last()).push((p, b)),
            _ => written(acts.drop_last()),
        }
    }
}

/// The files that a walk comes to, in order, each under `to`.
pub open spec fn files_under(to: Seq<char>, items: Seq<ItemView>) -> Seq<(Seq<char>, Seq<u8>)>
    decreases items.len(),
{
    if items.len() == 0 {
        Seq::empty()
    } else {
        match items.last() {
            ItemView::File(p, b) => files_under(to, items.drop_last()).push((under(to, p), b)),
            _ => files_under(to, items.drop_last()),
        }
    }
}

proof fn written_by_copy(to: Seq<char>, items: Seq<ItemView>)
    ensures
        written(copy_acts(to, items)) == files_under(to, items),
    decreases items.len(),
{
    if items.len() > 0 {
        written_by_copy(to, items.drop_last());
        assert(copy_acts(to, items).drop_last() =~= copy_acts(to, items.drop_last()));
        assert(copy_acts(to, items).last() == copy_act(to, items.last()));
    }
}

proof fn written_of_sum(a: Seq<ActView>, b: Seq<ActView>)
    ensures
        written(a + b) == written(a) + written(b),
    decreases b.len(),
{
    if b.len() > 0 {
        written_of_sum(a, b.drop_last());
        assert((a + b).drop_last() =~= a + b.drop_last());
        assert((a + b).last() == b.last());
        assert(written(a + b) =~= written(a) + written(b));
    } else {
        assert(a + b =~= a);
        assert(written(a) + written(b) =~= written(a));
    }
}

/// A deploy replaces: what is there is cleared first, and then exactly the
/// files of the source are written, with their bytes.
pub proof fn a_copy_replaces(to: Seq<char>, items: Seq<ItemView>)
    ensures
        (seq![ActView::Clear(to)] + copy_acts(to, items))[0] == ActView::Clear(to),
        written(seq![ActView::Clear(to)] + copy_acts(to, items)) == files_under(to, items),
{
    let first = seq![ActView::Clear(to)];
    written_of_sum(first, copy_acts(to, items));
    written_by_copy(to, items);
    reveal_with_fuel(written, 2);
    assert(first.drop_last() =~= Seq::empty());
    assert(written(first) =~= Seq::empty());
    assert(Seq::<(Seq<char>, Seq<u8>)>::empty() + files_under(to, items) =~= files_under(
        to,
        items,
    ));
}

/// How many of the items of a walk are files.
pub open spec fn files_among(items: Seq<ItemView>) -> nat {
    items.filter(|x: ItemView| x is File).len()
}

/// How many bytes the files of a walk hold together.
pub open spec fn bytes_among(items: Seq<ItemView>) -> nat {
    items.fold_left(
        0nat,
        |n: nat, x: ItemView|
            if x is File {
                n + x->File_1.len()
            } else {
                n
            },
    )
}

proof fn counts_are_counts(items: Seq<ItemView>)
    ensures
        file_count(items) == files_among(items),
        byte_count(items) == bytes_among(items),
    decreases items.len(),
{
    let p = |x: ItemView| x is File;
    reveal(Seq::filter);
    if items.len() > 0 {
        counts_are_counts(items.drop_last());
        reveal_with_fuel(Seq::fold_left, 2);
    }
}

/// A copy is refused exactly where something cannot be read or there is too
/// much of it.
pub proof fn a_copy_is_refused_for_a_reason(from: Seq<char>, items: Seq<ItemView>)
    ensures
        copy_refusal(from, items) is None <==> {
            &&& forall|i: int| 0 <= i < items.len() ==> (#[trigger] items[i]) is Dir || items[i] is File
            &&& files_among(items) <= 10_000
            &&& bytes_among(items) <= 268_435_456
        },
    decreases items.len(),
{
    counts_are_counts(items);
    if items.len() > 0 {
        let rest = items.drop_last();
        a_copy_is_refused_for_a_reason(from, rest);
        counts_are_counts(rest);
        assert(forall|i: int| 0 <= i < rest.len() ==> (#[trigger] rest[i]) == items[i]);
        assert(forall|i: int| 0 <= i < rest.len() ==> rest[i] == (#[trigger] items[i]));
        assert(items[items.len() - 1] == items.last());
    }
}

/// What is copied is everything: the old copy is cleared first, and then
/// every directory that the walk comes to is made and every file written,
/// where it lay below the source, with its bytes, and counted.
pub proof fn a_copy_is_of_everything(
    r: Plan,
    from: Seq<char>,
    to: Seq<char>,
    items: Seq<ItemView>,
    k: int,
)
    requires
        copies(r, from, to, items),
        r.outcome is Ok,
    ensures
        r.acts@.len() == items.len() + 1,
        r.acts@[0]@ == ActView::Clear(to),
        0 <= k < items.len() ==> match items[k] {
            ItemView::File(p, b) => r.acts@[k + 1]@ == ActView::Write(under(to, p), b),
            ItemView::Dir(p) => r.acts@[k + 1]@ == ActView::MakeDir(under(to, p)),
            _ => false,
        },
        r.outcome->Ok_0.files == files_among(items),
        r.outcome->Ok_0.bytes == bytes_among(items),
{
    counts_are_counts(items);
    a_copy_is_refused_for_a_reason(from, items);
    let all = act_views(r.acts@);
    assert(all.len() == r.acts@.len());
    assert(all[0] == r.acts@[0]@);
    if 0 <= k < items.len() {
        assert(all[k + 1] == copy_act(to, items[k]));
        assert(all[k + 1] == r.acts@[k + 1]@);
    }
}

/// A deploy or a commit that comes to an end has written every file of the
/// tree, however deep it lies, at its path below the target.
pub proof fn every_file_of_the_tree_is_written(
    r: Plan,
    from: Seq<char>,
    to: Seq<char>,
    t: NodeView,
    names: Seq<Seq<char>>,
    b: Seq<u8>,
)
    requires
        copies(r, from, to, tree::walked(Seq::empty(), t)),
        r.outcome is Ok,
        names.len() > 0,
        tree::leads_to(t, names, b),
    ensures
        act_views(r.acts@).contains(
            ActView::Write(under(to, tree::trail(Seq::empty(), names)), b),
        ),
{
    let items = tree::walked(Seq::empty(), t);
    tree::a_walk_comes_to_every_file(Seq::empty(), t, names, b);
    let x = ItemView::File(tree::trail(Seq::empty(), names), b);
    let k = choose|k: int| 0 <= k < items.len() && items[k] == x;
    a_copy_is_of_everything(r, from, to, items, k);
    assert(act_views(r.acts@)[k + 1] == r.acts@[k + 1]@);
}

/// Nothing else is written: whatever a deploy or a commit does, finished or
/// not, each file it writes lies in the tree at the path from the source.
pub proof fn no_other_file_is_written(
    r: Plan,
    from: Seq<char>,
    to: Seq<char>,
    t: NodeView,
    k: int,
)
    requires
        copies(r, from, to, tree::walked(Seq::empty(), t)),
        0 <= k < r.acts@.len(),
        r.acts@[k]@ is Write,
    ensures
        exists|names: Seq<Seq<char>>|
            names.len() > 0 && tree::leads_to(t, names, r.acts@[k]@->Write_1) && r.acts@[k]@->Write_0
                == under(to, #[trigger] tree::trail(Seq::empty(), names)),
{
    let items = tree::walked(Seq::empty(), t);
    let all = act_views(r.acts@);
    assert(all[k] == r.acts@[k]@);
    let first = seq![ActView::Clear(to)];
    let done = if copy_refusal(from, items) is Some {
        a_refusal_has_a_reason(from, items);
        let met = until_refused(from, items);
        if met.last() is Unreadable {
            met.drop_last()
        } else {
            met
        }
    } else {
        items
    };
    assert(all == first + copy_acts(to, done));
    assert(k > 0);
    assert(all[k] == copy_acts(to, done)[k - 1]);
    let x = done[k - 1];
    assert(x == items[k - 1]);
    assert(all[k] == copy_act(to, x));
    let p = x->File_0;
    assert(items.contains(ItemView::File(p, all[k]->Write_1)));
    tree::a_walk_comes_to_no_other_file(Seq::empty(), t, p, all[k]->Write_1);
}

/// Something that cannot be read ends a copy there: what lies before it in the
/// walk is copied over the cleared target, and the refusal names it.
pub proof fn an_unreadable_item_ends_a_copy(
    from: Seq<char>,
    to: Seq<char>,
    items: Seq<ItemView>,
    k: int,
)
    requires
        0 <= k < items.len(),
        copy_refusal(from, items.subrange(0, k)) is None,
        items[k] is Unreadable || items[k] is Unlisted,
    ensures
        match items[k] {
            ItemView::Unreadable(p, why) => {
                &&& copy_refusal(from, items) == Some(
                    "cannot read "@ + under(from, p) + ": "@ + why,
                )
                &&& refused_acts(from, to, items) == seq![ActView::Clear(to)] + copy_acts(
                    to,
                    items.subrange(0, k),
                )
            },
            ItemView::Unlisted(p, why) => {
                &&& copy_refusal(from, items) == Some(
                    "cannot read "@ + under(from, p) + ": "@ + why,
                )
                &&& refused_acts(from, to, items) == (seq![ActView::Clear(to)] + copy_acts(
                    to,
                    items.subrange(0, k),
                )).push(ActView::MakeDir(under(to, p)))
            },
            _ => true,
        },
{
    let met = items.subrange(0, k + 1);
    assert(met.drop_last() =~= items.subrange(0, k));
    assert(met.last() == items[k]);
    refusal_of_prefix(from, items, k + 1);
    assert(until_refused(from, met) == met);
    if items[k] is Unlisted {
        assert(seq![ActView::Clear(to)] + copy_acts(to, met) =~= (seq![ActView::Clear(to)]
            + copy_acts(to, items.subrange(0, k))).push(copy_act(to, items[k])));
    }
}

/// A path of the walk lies below the directory; the directory itself is where
/// the walk begins.
pub proof fn a_path_lies_under_its_directory(dir: Seq<char>, path: Seq<char>)
    requires
        dir.len() > 0,
        dir.last() != '/',
    ensures
        path.len() == 0 ==> under(dir, path) == dir,
        path.len() > 0 && path[0] != '/' ==> under(dir, path) == dir + "/"@ + path,
{
}

proof fn filed_keeps(fs: Seq<(Seq<char>, Seq<u8>)>, f: (Seq<char>, Seq<u8>))
    ensures
        filed(fs, f).to_multiset() == fs.to_multiset().insert(f),
        forall|i: int|
            0 <= i < filed(fs, f).len() ==> (#[trigger] filed(fs, f)[i] == f || fs.contains(
                filed(fs, f)[i],
            )),
    decreases fs.len(),
{
    broadcast use vstd::seq_lib::group_to_multiset_ensures;

    let all = filed(fs, f);
    if fs.len() > 0 && text::before(f.0, fs.last().0) {
        let rest = fs.drop_last();
        filed_keeps(rest, f);
        assert(rest.push(fs.last()) =~= fs);
        assert(all.to_multiset() =~= fs.to_multiset().insert(f));
        assert forall|i: int| 0 <= i < all.len() implies (#[trigger] all[i] == f || fs.contains(
            all[i],
        )) by {
            let p = filed(rest, f);
            if i < p.len() {
                assert(all[i] == p[i]);
                if p[i] != f {
                    let k = choose|k: int| 0 <= k < rest.len() && rest[k] == p[i];
                    assert(fs[k] == p[i]);
                }
            } else {
                assert(fs[fs.len() - 1] == fs.last());
            }
        }
    } else {
        assert(all.to_multiset() =~= fs.to_multiset().insert(f));
        assert forall|i: int| 0 <= i < all.len() implies (#[trigger] all[i] == f || fs.contains(
            all[i],
        )) by {
            if i < fs.len() {
                assert(fs[i] == all[i]);
            }
        }
    }
}

/// Whether no path follows one that it stands before.
pub open spec fn paths_in_order(fs: Seq<(Seq<char>, Seq<u8>)>) -> bool {
    forall|i: int, j: int|
        0 <= i < j < fs.len() ==> !text::before((#[trigger] fs[j]).0, (#[trigger] fs[i]).0)
}

proof fn filed_in_order(fs: Seq<(Seq<char>, Seq<u8>)>, f: (Seq<char>, Seq<u8>))
    requires
        paths_in_order(fs),
    ensures
        paths_in_order(filed(fs, f)),
    decreases fs.len(),
{
    let all = filed(fs, f);
    if fs.len() > 0 && text::before(f.0, fs.last().0) {
        let rest = fs.drop_last();
        assert forall|i: int, j: int| 0 <= i < j < rest.len() implies !text::before(
            (#[trigger] rest[j]).0,
            (#[trigger] rest[i]).0,
        ) by {
            assert(rest[j] == fs[j] && rest[i] == fs[i]);
        }
        filed_in_order(rest, f);
        filed_keeps(rest, f);
        let p = filed(rest, f);
        assert forall|i: int, j: int| 0 <= i < j < all.len() implies !text::before(
            (#[trigger] all[j]).0,
            (#[trigger] all[i]).0,
        ) by {
            if j < p.len() {
                assert(all[j] == p[j] && all[i] == p[i]);
            } else {
                assert(all[i] == p[i]);
                assert(all[j] == fs.last());
                if p[i] == f {
                    if text::before(fs.last().0, f.0) {
                        text::before_transitive(f.0, fs.last().0, f.0);
                        text::before_irreflexive(f.0);
                    }
                } else {
                    let k = choose|k: int| 0 <= k < rest.len() && rest[k] == p[i];
                    assert(fs[k] == p[i]);
                    assert(fs[fs.len() - 1] == fs.last());
                }
            }
        }
    } else {
        assert forall|i: int, j: int| 0 <= i < j < all.len() implies !text::before(
            (#[trigger] all[j]).0,
            (#[trigger] all[i]).0,
        ) by {
            if j < fs.len() {
                assert(all[j] == fs[j] && all[i] == fs[i]);
            } else {
                assert(all[i] == fs[i]);
                if text::before(f.0, fs[i].0) {
                    let l = fs.len() - 1;
                    if i < l {
                        assert(!text::before(fs[l].0, fs[i].0));
                        text::before_total(fs[i].0, fs[l].0);
                        if fs[i].0 != fs[l].0 {
                            text::before_transitive(f.0, fs[i].0, fs[l].0);
                        }
                    }
                }
            }
        }
    }
}

/// The record of a commit holds every file that the walk comes to, each once
/// and no others, in the order of their paths; there is none where a file
/// cannot be read.
pub proof fn a_record_holds_every_file(dir: Seq<char>, items: Seq<ItemView>)
    ensures
        recorded(dir, items) is Ok <==> forall|i: int|
            0 <= i < items.len() ==> !((#[trigger] items[i]) is Unreadable),
        recorded(dir, items) matches Ok(fs) ==> {
            &&& paths_in_order(fs)
            &&& fs.to_multiset() == items.filter(|x: ItemView| x is File).map_values(
                |x: ItemView| (x->File_0, x->File_1),
            ).to_multiset()
        },
    decreases items.len(),
{
    broadcast use vstd::seq_lib::group_to_multiset_ensures;

    let p = |x: ItemView| x is File;
    let g = |x: ItemView| (x->File_0, x->File_1);
    reveal(Seq::filter);
    if items.len() > 0 {
        let rest = items.drop_last();
        a_record_holds_every_file(dir, rest);
        assert(forall|i: int| 0 <= i < rest.len() ==> (#[trigger] rest[i]) == items[i]);
        assert(forall|i: int| 0 <= i < rest.len() ==> rest[i] == (#[trigger] items[i]));
        assert(items[items.len() - 1] == items.last());
        if let Ok(fs) = recorded(dir, rest) {
            if let ItemView::File(at, b) = items.last() {
                filed_keeps(fs, (at, b));
                filed_in_order(fs, (at, b));
                assert(items.filter(p).map_values(g) =~= rest.filter(p).map_values(g).push(
                    (at, b),
                ));
            } else {
                assert(items.filter(p) =~= rest.filter(p));
            }
        }
    } else {
        assert(items.filter(p).map_values(g) =~= Seq::empty());
    }
}

/// A deployment lies in the root's own directory for what runs, under its
/// name.
pub proof fn a_deployment_lies_in_live(dir: Seq<char>, name: Seq<char>)
    requires
        dir.len() > 0,
        dir.last() != '/',
        name.len() > 0,
        name[0] != '/',
    ensures
        live(dir, name) == dir + "/.drt_root/live/"@ + name,
{
    reveal_strlit("/");
    reveal_strlit("live");
    reveal_strlit(".drt_root");
    reveal_strlit("/.drt_root/live/");
    assert(live(dir, name) =~= dir + "/.drt_root/live/"@ + name);
}

/// A project's own name is the name that it deploys under.
pub proof fn a_project_deploys_under_its_name(dir: Seq<char>, project: Seq<char>)
    ensures
        name_for(dir, Some(project)) == project,
        name_for(dir, None) == match paths::file_name(dir) {
            Some(name) => name,
            None => "deployment"@,
        },
{
}

/// A plan that copies clears the place first and reports how many files and
/// bytes it writes; one that is refused says why.
pub proof fn a_plan_reports_what_it_copies(
    r: Plan,
    from: Seq<char>,
    to: Seq<char>,
    items: Seq<ItemView>,
)
    requires
        copies(r, from, to, items),
    ensures
        r.outcome is Ok <==> copy_refusal(from, items) is None,
        r.outcome matches Ok(report) ==> report.files == file_count(items) && report.bytes
            == byte_count(items) && act_views(r.acts@).len() == items.len() + 1 && act_views(
            r.acts@,
        )[0] == ActView::Clear(to),
        r.outcome matches Err(why) ==> copy_refusal(from, items) == Some(why@),
{
    if copy_refusal(from, items) is None {
        one_act_each(to, items);
    }
}

proof fn one_act_each(to: Seq<char>, items: Seq<ItemView>)
    ensures
        copy_acts(to, items).len() == items.len(),
    decreases items.len(),
{
    if items.len() > 0 {
        one_act_each(to, items.drop_last());
    }
}

/// A plan that refuses touches nothing.
pub proof fn a_refusal_touches_nothing(r: Plan, what: Seq<char>)
    requires
        refuses(r, what),
    ensures
        act_views(r.acts@).len() == 0,
        r.outcome is Err && r.outcome->Err_0@ == what,
{
}

/// One more item ends a copy where it cannot be read, or where it is a file
/// past the ten thousandth or past 256 MiB in all; the reason names it, or
/// where the copy is from.
pub proof fn one_more_item_can_end_a_copy(from: Seq<char>, items: Seq<ItemView>, item: ItemView)
    requires
        copy_refusal(from, items) is None,
    ensures
        ({
            let all = items.push(item);
            let r = copy_refusal(from, all);
            match item {
                ItemView::Dir(_) => r is None,
                ItemView::Unlisted(p, why) => r == Some(
                    "cannot read "@ + under(from, p) + ": "@ + why,
                ),
                ItemView::Unreadable(p, why) => r == Some(
                    "cannot read "@ + under(from, p) + ": "@ + why,
                ),
                ItemView::File(_, _) => {
                    &&& file_count(all) > 10_000 ==> r == Some(
                        "more than 10000 files under "@ + from
                            + "; a root is source code, and a tree this size is one to look at before deploying"@,
                    )
                    &&& file_count(all) <= 10_000 && byte_count(all) > 268_435_456 ==> r == Some(
                        "more than 256 MiB under "@ + from + "; same reason"@,
                    )
                    &&& file_count(all) <= 10_000 && byte_count(all) <= 268_435_456 ==> r is None
                },
            }
        }),
{
    let all = items.push(item);
    assert(all.drop_last() =~= items);
}

/// Where a deployment comes from is told by its kind, and where there is
/// nothing the place or the name is told.
pub proof fn a_source_is_told(path: String, name: Seq<char>)
    ensures
        Source::DluaDir(path).spec_describe() == "dlua_dir"@,
        Source::Init(path).spec_describe() == "init/"@,
        Source::DluaDir(path).spec_path() == path@,
        Source::Init(path).spec_path() == path@,
        nothing_to_deploy(Source::DluaDir(path)) == "there is nothing to deploy: "@ + path@
            + " (dlua_dir) is not a directory"@,
        nothing_to_deploy(Source::Init(path)) == "there is nothing to deploy: "@ + path@
            + " (init/) is not a directory"@,
        nothing_to_commit(name) == "nothing is deployed as '"@ + name
            + "', so there is nothing to commit; `drt deploy` first"@,
{
    reveal_strlit(" (");
    reveal_strlit("dlua_dir");
    reveal_strlit("init/");
    reveal_strlit(") is not a directory");
    reveal_strlit(" (dlua_dir) is not a directory");
    reveal_strlit(" (init/) is not a directory");
    assert(" ("@ + "dlua_dir"@ + ") is not a directory"@ =~= " (dlua_dir) is not a directory"@);
    assert(" ("@ + "init/"@ + ") is not a directory"@ =~= " (init/) is not a directory"@);
    let lead = "there is nothing to deploy: "@ + path@;
    assert(lead + " ("@ + "dlua_dir"@ + ") is not a directory"@ =~= lead + (" ("@ + "dlua_dir"@
        + ") is not a directory"@));
    assert(lead + " ("@ + "init/"@ + ") is not a directory"@ =~= lead + (" ("@ + "init/"@
        + ") is not a directory"@));
}

} // verus!
