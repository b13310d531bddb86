//! What the binary says of itself, and which connectors it wires.

use crate::config::{RootConfig, Wiring};
use crate::drt_root;
use crate::text;
use vstd::prelude::*;

verus! {

/// What this binary is made of.
#[derive(Debug)]
pub struct Build {
    /// The features that it was compiled with.
    pub features: Vec<String>,
    /// The release that it was cut as, where it was.
    pub tag: Option<String>,
    /// The revision of the core inside.
    pub revision: String,
    /// The interface of the core: that of the linked one, and the one that
    /// the bindings were made for.
    pub abi: Option<(u32, u32)>,
}

/// Which build of the core is inside.
pub const DILUVIUM_BUILD: u32 = 14;

/// Every feature there is, in order.
pub open spec fn known() -> Seq<Seq<char>> {
    seq![
        "cli"@,
        "connector-crypto"@,
        "connector-data"@,
        "connector-exec"@,
        "connector-fs"@,
        "connector-rest"@,
        "connector-sql"@,
        "connector-ssh"@,
        "connector-ssmtp"@,
        "connector-time"@,
        "listen"@,
        "netcheck"@,
        "relay"@,
        "runtime"@,
        "stun"@,
        "tunnel"@,
        "turn"@,
        "turn-client"@,
        "wireguard"@,
    ]
}

/// The features of the smallest served build.
pub open spec fn slim() -> Seq<Seq<char>> {
    seq!["cli"@, "connector-crypto"@, "connector-fs"@, "connector-time"@, "listen"@]
}

/// The features of the build for a sandboxed host.
pub open spec fn wasi() -> Seq<Seq<char>> {
    seq!["connector-crypto"@, "connector-fs"@, "connector-sql"@, "connector-time"@, "listen"@]
}

/// The features of the build for a page.
pub open spec fn web() -> Seq<Seq<char>> {
    seq!["cli"@, "connector-crypto"@, "connector-fs"@, "connector-time"@]
}

/// The words of a list that are also in `among`, in order.
pub open spec fn present(list: Seq<Seq<char>>, among: Seq<Seq<char>>) -> Seq<Seq<char>>
    decreases list.len(),
{
    if list.len() == 0 {
        Seq::empty()
    } else if among.contains(list.last()) {
        present(list.drop_last(), among).push(list.last())
    } else {
        present(list.drop_last(), among)
    }
}

/// The views of a sequence of string slices.
pub open spec fn words(v: Seq<&'static str>) -> Seq<Seq<char>> {
    v.map_values(|s: &'static str| s@)
}

fn pick(list: &Vec<&'static str>, among: &Vec<String>) -> (r: Vec<&'static str>)
    ensures
        words(r@) == present(words(list@), text::texts(among@)),
{
    let ghost all = words(list@);
    let ghost there = text::texts(among@);
    let mut r: Vec<&'static str> = Vec::new();
    let mut i: usize = 0;
    assert(words(r@) =~= present(all.subrange(0, 0), there));
    while i < list.len()
        invariant
            i <= list.len(),
            all == words(list@),
            there == text::texts(among@),
            words(r@) == present(all.subrange(0, i as int), there),
        decreases list.len() - i,
    {
        let ghost now = all.subrange(0, i + 1);
        let ghost had = words(r@);
        assert(now.drop_last() =~= all.subrange(0, i as int));
        assert(now.last() == list@[i as int]@);
        if text::among(among, list[i]) {
            r.push(list[i]);
            assert(words(r@) =~= had.push(list@[i as int]@));
        }
        i = i + 1;
    }
    assert(all.subrange(0, all.len() as int) =~= all);
    r
}

/// The features that the binary was compiled with, of those there are, in
/// order.
pub fn enabled_features(compiled: &Vec<String>) -> (r: Vec<&'static str>)
    ensures
        words(r@) == present(known(), text::texts(compiled@)),
{
    let all: Vec<&'static str> = vec![
        "cli",
        "connector-crypto",
        "connector-data",
        "connector-exec",
        "connector-fs",
        "connector-rest",
        "connector-sql",
        "connector-ssh",
        "connector-ssmtp",
        "connector-time",
        "listen",
        "netcheck",
        "relay",
        "runtime",
        "stun",
        "tunnel",
        "turn",
        "turn-client",
        "wireguard",
    ];
    assert(words(all@) =~= known());
    pick(&all, compiled)
}

/// The profile that a set of features is, exactly.
pub open spec fn profile(features: Seq<Seq<char>>) -> Seq<char> {
    if features == known() {
        "full"@
    } else if features == slim() {
        "slim"@
    } else if features == wasi() {
        "wasi"@
    } else if features == web() {
        "web"@
    } else {
        "custom"@
    }
}

fn same_words(a: &Vec<&'static str>, b: &Vec<&'static str>) -> (r: bool)
    ensures
        r == (words(a@) == words(b@)),
{
    if a.len() != b.len() {
        assert(words(a@).len() != words(b@).len());
        return false;
    }
    let mut i: usize = 0;
    while i < a.len()
        invariant
            i <= a.len(),
            a.len() == b.len(),
            forall|k: int| 0 <= k < i ==> (#[trigger] words(a@)[k]) == words(b@)[k],
        decreases a.len() - i,
    {
        if !text::same(a[i], b[i]) {
            assert(words(a@)[i as int] != words(b@)[i as int]);
            return false;
        }
        i = i + 1;
    }
    assert(words(a@) =~= words(b@));
    true
}

/// Which named profile a set of features is, exactly, or `custom`.
pub fn profile_name(features: &Vec<&'static str>) -> (r: &'static str)
    ensures
        r@ == profile(words(features@)),
{
    let full: Vec<&'static str> = vec![
        "cli",
        "connector-crypto",
        "connector-data",
        "connector-exec",
        "connector-fs",
        "connector-rest",
        "connector-sql",
        "connector-ssh",
        "connector-ssmtp",
        "connector-time",
        "listen",
        "netcheck",
        "relay",
        "runtime",
        "stun",
        "tunnel",
        "turn",
        "turn-client",
        "wireguard",
    ];
    assert(words(full@) =~= known());
    if same_words(features, &full) {
        return "full";
    }
    let small: Vec<&'static str> = vec![
        "cli",
        "connector-crypto",
        "connector-fs",
        "connector-time",
        "listen",
    ];
    assert(words(small@) =~= slim());
    if same_words(features, &small) {
        return "slim";
    }
    let sandboxed: Vec<&'static str> = vec![
        "connector-crypto",
        "connector-fs",
        "connector-sql",
        "connector-time",
        "listen",
    ];
    assert(words(sandboxed@) =~= wasi());
    if same_words(features, &sandboxed) {
        return "wasi";
    }
    let page: Vec<&'static str> = vec!["cli", "connector-crypto", "connector-fs", "connector-time"];
    assert(words(page@) =~= web());
    if same_words(features, &page) {
        return "web";
    }
    "custom"
}

/// What the core of a profile carries. Of a custom build that is not known,
/// and an empty list would say that it carries nothing.
pub open spec fn inside_core(profile: Seq<char>) -> Seq<Seq<char>> {
    if profile == "full"@ || profile == "slim"@ || profile == "wasi"@ || profile == "web"@ {
        seq!["regex"@]
    } else {
        seq!["unknown"@]
    }
}

/// The core features that a profile carries.
pub fn core_features(profile: &str) -> (r: Vec<&'static str>)
    ensures
        words(r@) == inside_core(profile@),
{
    let mut r: Vec<&'static str> = Vec::new();
    if text::same(profile, "full") || text::same(profile, "slim") || text::same(profile, "wasi")
        || text::same(profile, "web") {
        r.push("regex");
        assert(words(r@) =~= seq!["regex"@]);
    } else {
        r.push("unknown");
        assert(words(r@) =~= seq!["unknown"@]);
    }
    r
}

// ---- what the binary says of itself ----

/// The names of `list` whose features are compiled in, in order. A feature
/// stands beside the name that it stands for.
pub open spec fn carried(list: Seq<(Seq<char>, Seq<char>)>, features: Seq<Seq<char>>) -> Seq<
    Seq<char>,
>
    decreases list.len(),
{
    if list.len() == 0 {
        Seq::empty()
    } else if features.contains(list.last().0) {
        carried(list.drop_last(), features).push(list.last().1)
    } else {
        carried(list.drop_last(), features)
    }
}

/// The connectors, each behind its feature.
pub open spec fn connector_list() -> Seq<(Seq<char>, Seq<char>)> {
    seq![
        ("connector-time"@, "time"@),
        ("connector-fs"@, "fs"@),
        ("connector-crypto"@, "crypto"@),
        ("connector-sql"@, "sql"@),
        ("connector-ssh"@, "ssh"@),
        ("connector-rest"@, "rest"@),
        ("connector-ssmtp"@, "ssmtp"@),
        ("connector-exec"@, "exec"@),
        ("connector-data"@, "data"@),
        ("listen"@, "listen"@),
    ]
}

/// The pairs of a sequence, as mathematics.
pub open spec fn pairs(v: Seq<(&'static str, &'static str)>) -> Seq<(Seq<char>, Seq<char>)> {
    v.map_values(|p: (&'static str, &'static str)| (p.0@, p.1@))
}

fn carry(list: &Vec<(&'static str, &'static str)>, features: &Vec<String>) -> (r: Vec<
    &'static str,
>)
    ensures
        words(r@) == carried(pairs(list@), text::texts(features@)),
{
    let ghost all = pairs(list@);
    let ghost there = text::texts(features@);
    let mut r: Vec<&'static str> = Vec::new();
    let mut i: usize = 0;
    assert(words(r@) =~= carried(all.subrange(0, 0), there));
    while i < list.len()
        invariant
            i <= list.len(),
            all == pairs(list@),
            there == text::texts(features@),
            words(r@) == carried(all.subrange(0, i as int), there),
        decreases list.len() - i,
    {
        let ghost now = all.subrange(0, i + 1);
        let ghost had = words(r@);
        assert(now.drop_last() =~= all.subrange(0, i as int));
        assert(now.last() == (list@[i as int].0@, list@[i as int].1@));
        if text::among(features, list[i].0) {
            r.push(list[i].1);
            assert(words(r@) =~= had.push(list@[i as int].1@));
        }
        i = i + 1;
    }
    assert(all.subrange(0, all.len() as int) =~= all);
    r
}

/// The connectors that a build carries.
pub fn connectors(features: &Vec<String>) -> (r: Vec<&'static str>)
    ensures
        words(r@) == carried(connector_list(), text::texts(features@)),
{
    let all: Vec<(&'static str, &'static str)> = vec![
        ("connector-time", "time"),
        ("connector-fs", "fs"),
        ("connector-crypto", "crypto"),
        ("connector-sql", "sql"),
        ("connector-ssh", "ssh"),
        ("connector-rest", "rest"),
        ("connector-ssmtp", "ssmtp"),
        ("connector-exec", "exec"),
        ("connector-data", "data"),
        ("listen", "listen"),
    ];
    assert(pairs(all@) =~= connector_list());
    carry(&all, features)
}

/// The verbs that a build has, in order.
pub open spec fn verb_list(features: Seq<Seq<char>>) -> Seq<Seq<char>> {
    seq!["buildinfo"@, "commit"@, "deploy"@, "key"@] + carried(
        seq![("netcheck"@, "netcheck"@)],
        features,
    ) + seq!["ps"@, "repl"@, "rm"@, "run"@, "start"@] + carried(
        seq![("tunnel"@, "tunnel"@), ("wireguard"@, "wg"@)],
        features,
    )
}

/// The verbs that a build has.
pub fn verbs(features: &Vec<String>) -> (r: Vec<&'static str>)
    ensures
        words(r@) == verb_list(text::texts(features@)),
{
    let ghost there = text::texts(features@);
    let mut r: Vec<&'static str> = vec!["buildinfo", "commit", "deploy", "key"];
    assert(words(r@) =~= seq!["buildinfo"@, "commit"@, "deploy"@, "key"@]);
    let one: Vec<(&'static str, &'static str)> = vec![("netcheck", "netcheck")];
    assert(pairs(one@) =~= seq![("netcheck"@, "netcheck"@)]);
    let mut measuring = carry(&one, features);
    let ghost a = words(r@);
    let ghost b = words(measuring@);
    r.append(&mut measuring);
    assert(words(r@) =~= a + b);
    let mut middle: Vec<&'static str> = vec!["ps", "repl", "rm", "run", "start"];
    let ghost c = words(middle@);
    assert(c =~= seq!["ps"@, "repl"@, "rm"@, "run"@, "start"@]);
    r.append(&mut middle);
    assert(words(r@) =~= a + b + c);
    let two: Vec<(&'static str, &'static str)> = vec![("tunnel", "tunnel"), ("wireguard", "wg")];
    assert(pairs(two@) =~= seq![("tunnel"@, "tunnel"@), ("wireguard"@, "wg"@)]);
    let mut rest = carry(&two, features);
    let ghost d = words(rest@);
    r.append(&mut rest);
    assert(words(r@) =~= a + b + c + d);
    r
}

/// A word between double quotes.
pub open spec fn quoted(w: Seq<char>) -> Seq<char> {
    "\""@ + w + "\""@
}

/// The words as the items of a list in JSON.
pub open spec fn listed(list: Seq<Seq<char>>) -> Seq<char> {
    text::joined(list.map_values(|w: Seq<char>| quoted(w)), ","@)
}

/// A version of the interface, or `none` where it is not known.
pub open spec fn version_or(v: Option<u32>, none: Seq<char>) -> Seq<char> {
    match v {
        Some(n) => text::dec(n as nat),
        None => none,
    }
}

/// The release that a build was cut as; an empty tag is none.
pub open spec fn tag_of(build: Build) -> Option<Seq<char>> {
    match build.tag {
        Some(t) => if t@.len() == 0 {
            None
        } else {
            Some(t@)
        },
        None => None,
    }
}

/// The linked interface.
pub open spec fn linked(build: Build) -> Option<u32> {
    match build.abi {
        Some((l, _)) => Some(l),
        None => None,
    }
}

/// The expected interface.
pub open spec fn expected(build: Build) -> Option<u32> {
    match build.abi {
        Some((_, e)) => Some(e),
        None => None,
    }
}

/// The profile of a build.
pub open spec fn profile_of(build: Build) -> Seq<char> {
    profile(present(known(), text::texts(build.features@)))
}

/// What a build says of itself, for a machine.
pub open spec fn info_json(build: Build) -> Seq<char> {
    let features = text::texts(build.features@);
    "{\"version\":\""@ + drt_root::VERSION@ + "\",\"tag\":"@ + (match tag_of(build) {
        Some(t) => quoted(t),
        None => "null"@,
    }) + ",\"profile\":\""@ + profile_of(build) + "\",\"dv_abi\":"@ + version_or(
        linked(build),
        "null"@,
    ) + ",\"dv_abi_expected\":"@ + version_or(expected(build), "null"@) + ",\"diluvium\":\""@
        + build.revision@ + "\",\"diluvium_build\":"@ + text::dec(DILUVIUM_BUILD as nat)
        + ",\"features\":["@ + listed(inside_core(profile_of(build))) + "],\"connectors\":["@ + listed(
        carried(connector_list(), features),
    ) + "],\"verbs\":["@ + listed(verb_list(features)) + "]}\n"@
}

/// What a build says of itself, in lines.
pub open spec fn info_text(build: Build) -> Seq<char> {
    let features = text::texts(build.features@);
    "version: "@ + drt_root::VERSION@ + "\n"@ + (match tag_of(build) {
        Some(t) => "tag: "@ + t + "\n"@,
        None => ""@,
    }) + "profile: "@ + profile_of(build) + "\ndv_abi: "@ + version_or(linked(build), "unknown"@)
        + "\ndv_abi_expected: "@ + version_or(expected(build), "unknown"@) + "\ndiluvium: "@
        + build.revision@ + "\ndiluvium_build: "@ + text::dec(DILUVIUM_BUILD as nat)
        + "\nfeatures: "@ + text::joined(inside_core(profile_of(build)), ","@) + "\nconnectors: "@
        + text::joined(carried(connector_list(), features), ","@) + "\nverbs: "@ + text::joined(
        verb_list(features),
        ","@,
    ) + "\n"@
}

fn owned(list: &Vec<&'static str>, quote: bool) -> (r: Vec<String>)
    ensures
        text::texts(r@) == (if quote {
            words(list@).map_values(|w: Seq<char>| quoted(w))
        } else {
            words(list@)
        }),
{
    let ghost want = if quote {
        words(list@).map_values(|w: Seq<char>| quoted(w))
    } else {
        words(list@)
    };
    let mut r: Vec<String> = Vec::new();
    let mut i: usize = 0;
    while i < list.len()
        invariant
            i <= list.len(),
            want == (if quote {
                words(list@).map_values(|w: Seq<char>| quoted(w))
            } else {
                words(list@)
            }),
            text::texts(r@) == want.subrange(0, i as int),
        decreases list.len() - i,
    {
        let ghost had = text::texts(r@);
        let one: String = if quote {
            text::join3("\"", list[i], "\"")
        } else {
            list[i].to_owned()
        };
        let ghost s = one@;
        assert(want[i as int] == s);
        r.push(one);
        assert(text::texts(r@) =~= had.push(s));
        assert(want.subrange(0, i + 1) =~= want.subrange(0, i as int).push(s));
        i = i + 1;
    }
    assert(want.subrange(0, want.len() as int) =~= want);
    r
}

fn version_text(v: Option<u32>, none: &str) -> (r: String)
    ensures
        r@ == version_or(v, none@),
{
    match v {
        Some(n) => text::decimal(n as u64),
        None => none.to_owned(),
    }
}

/// What this binary is and what it carries.
pub fn buildinfo(build: &Build, json: bool) -> (r: String)
    ensures
        r@ == (if json {
            info_json(*build)
        } else {
            info_text(*build)
        }),
{
    let profile = profile_name(&enabled_features(&build.features));
    let inside = core_features(profile);
    let connectors = connectors(&build.features);
    let verbs = verbs(&build.features);
    let (linked, expected): (Option<u32>, Option<u32>) = match build.abi {
        Some((l, e)) => (Some(l), Some(e)),
        None => (None, None),
    };
    let tag: Option<&String> = match &build.tag {
        Some(t) => if t.as_str().is_empty() {
            None
        } else {
            Some(t)
        },
        None => None,
    };
    let number = text::decimal(DILUVIUM_BUILD as u64);
    let mut out: String;
    if json {
        out = text::join3("{\"version\":\"", drt_root::VERSION, "\",\"tag\":");
        match tag {
            Some(t) => out.append(text::join3("\"", t.as_str(), "\"").as_str()),
            None => out.append("null"),
        }
        out.append(",\"profile\":\"");
        out.append(profile);
        out.append("\",\"dv_abi\":");
        out.append(version_text(linked, "null").as_str());
        out.append(",\"dv_abi_expected\":");
        out.append(version_text(expected, "null").as_str());
        out.append(",\"diluvium\":\"");
        out.append(build.revision.as_str());
        out.append("\",\"diluvium_build\":");
        out.append(number.as_str());
        out.append(",\"features\":[");
        out.append(text::join(&owned(&inside, true), ",").as_str());
        out.append("],\"connectors\":[");
        out.append(text::join(&owned(&connectors, true), ",").as_str());
        out.append("],\"verbs\":[");
        out.append(text::join(&owned(&verbs, true), ",").as_str());
        out.append("]}\n");
    } else {
        out = text::join3("version: ", drt_root::VERSION, "\n");
        match tag {
            Some(t) => out.append(text::join3("tag: ", t.as_str(), "\n").as_str()),
            None => out.append(""),
        }
        out.append("profile: ");
        out.append(profile);
        out.append("\ndv_abi: ");
        out.append(version_text(linked, "unknown").as_str());
        out.append("\ndv_abi_expected: ");
        out.append(version_text(expected, "unknown").as_str());
        out.append("\ndiluvium: ");
        out.append(build.revision.as_str());
        out.append("\ndiluvium_build: ");
        out.append(number.as_str());
        out.append("\nfeatures: ");
        out.append(text::join(&owned(&inside, false), ",").as_str());
        out.append("\nconnectors: ");
        out.append(text::join(&owned(&connectors, false), ",").as_str());
        out.append("\nverbs: ");
        out.append(text::join(&owned(&verbs, false), ",").as_str());
        out.append("\n");
    }
    out
}

// ---- connectors ----

/// The families of connectors, each behind its feature.
pub open spec fn families() -> Seq<(Seq<char>, Seq<char>)> {
    connector_list().drop_last()
}

/// Whether a build carries a connector.
pub open spec fn carries(features: Seq<Seq<char>>, name: Seq<char>) -> bool {
    exists|i: int|
        0 <= i < families().len() && (#[trigger] families()[i]).1 == name && features.contains(
            families()[i].0,
        )
}

/// The place of the first connector, from `i` on, that a build does not
/// carry.
pub open spec fn uncarried(
    connectors: Seq<(String, Wiring)>,
    features: Seq<Seq<char>>,
    i: int,
) -> Option<int>
    decreases connectors.len() - i,
{
    if i < 0 || i >= connectors.len() {
        None
    } else if !carries(features, connectors[i].0@) {
        Some(i)
    } else {
        uncarried(connectors, features, i + 1)
    }
}

/// What is said when the connector that leaves the sandbox is wired.
pub const EXEC_NOTE: &'static str =
    "drt: exec wired: granting host:exec/run leaves the sandbox (GUARANTEES.md); only the scope's deadline, output cap and allow list bound it\n";

/// The connectors of a configuration that are wired, one after the other: as
/// many of them, from the first on, as the build carries. A refusal names
/// the first that it does not.
#[derive(Debug)]
pub struct Wired {
    pub count: usize,
    pub refusal: Option<String>,
}

/// Tells whether a build carries a connector.
pub fn is_carried(features: &Vec<String>, name: &str) -> (r: bool)
    ensures
        r == carries(text::texts(features@), name@),
{
    let all: Vec<(&'static str, &'static str)> = vec![
        ("connector-time", "time"),
        ("connector-fs", "fs"),
        ("connector-crypto", "crypto"),
        ("connector-sql", "sql"),
        ("connector-ssh", "ssh"),
        ("connector-rest", "rest"),
        ("connector-ssmtp", "ssmtp"),
        ("connector-exec", "exec"),
        ("connector-data", "data"),
    ];
    assert(pairs(all@) =~= families());
    let mut i: usize = 0;
    while i < all.len()
        invariant
            i <= all.len(),
            pairs(all@) == families(),
            forall|k: int|
                0 <= k < i ==> !((#[trigger] families()[k]).1 == name@ && text::texts(
                    features@,
                ).contains(families()[k].0)),
        decreases all.len() - i,
    {
        assert(families()[i as int] == (all@[i as int].0@, all@[i as int].1@)) by {
            assert(pairs(all@)[i as int] == (all@[i as int].0@, all@[i as int].1@));
        }
        if text::same(all[i].1, name) && text::among(features, all[i].0) {
            return true;
        }
        i = i + 1;
    }
    false
}

/// Decides which connectors of a configuration are wired. Only what the
/// configuration names is.
pub fn wire_connectors(config: &RootConfig, features: &Vec<String>) -> (r: Wired)
    ensures
        match uncarried(config.connectors@, text::texts(features@), 0) {
            Some(i) => {
                &&& r.count == i
                &&& r.refusal matches Some(why) && why@ == "config wires connector '"@
                    + config.connectors@[i].0@ + "', which this build does not carry"@
            },
            None => r.count == config.connectors@.len() && r.refusal is None,
        },
{
    let mut i: usize = 0;
    while i < config.connectors.len()
        invariant
            i <= config.connectors.len(),
            uncarried(config.connectors@, text::texts(features@), 0) == uncarried(
                config.connectors@,
                text::texts(features@),
                i as int,
            ),
        decreases config.connectors.len() - i,
    {
        if !is_carried(features, config.connectors[i].0.as_str()) {
            return Wired {
                count: i,
                refusal: Some(
                    text::join3(
                        "config wires connector '",
                        config.connectors[i].0.as_str(),
                        "', which this build does not carry",
                    ),
                ),
            };
        }
        i = i + 1;
    }
    Wired { count: i, refusal: None }
}

/// What is said before a connector is wired, if anything.
pub fn announcement(name: &str) -> (r: Option<&'static str>)
    ensures
        r == (if name@ == "exec"@ {
            Some(EXEC_NOTE)
        } else {
            None
        }),
{
    if text::same(name, "exec") {
        Some(EXEC_NOTE)
    } else {
        None
    }
}

/// The names of the connectors.
pub open spec fn connector_names(c: Seq<(String, Wiring)>) -> Seq<Seq<char>> {
    c.map_values(|p: (String, Wiring)| p.0@)
}

/// The place at which `name` goes among names in order: that of the first
/// that is not before it.
pub open spec fn slot(names: Seq<Seq<char>>, name: Seq<char>, i: int) -> int
    decreases names.len() - i,
{
    if i < 0 || i >= names.len() || !text::before(names[i], name) {
        i
    } else {
        slot(names, name, i + 1)
    }
}

/// Whether `after` is `before` with the connector `time` wired and given no
/// scope: in its place where it was wired already, else at its place among
/// the names.
pub open spec fn time_wired(after: Seq<(String, Wiring)>, before: Seq<(String, Wiring)>) -> bool {
    let i = slot(connector_names(before), "time"@, 0);
    &&& 0 <= i <= before.len()
    &&& i < after.len()
    &&& after[i].0@ == "time"@
    &&& after[i].1.scope is None
    &&& if i < before.len() && before[i].0@ == "time"@ {
        after == before.update(i, after[i])
    } else {
        after == before.insert(i, after[i])
    }
}

/// Whether a configuration is another with the defaults of a local run.
pub open spec fn defaulted(after: RootConfig, before: RootConfig, features: Seq<Seq<char>>) -> bool {
    &&& after.program == before.program
    &&& after.caps == before.caps
    &&& after.dlua_dir == before.dlua_dir
    &&& after.args == before.args
    &&& after.relay == before.relay
    &&& if features.contains("connector-time"@) {
        time_wired(after.connectors@, before.connectors@)
    } else {
        after.connectors == before.connectors
    }
}

/// Gives a local run the connectors that need no scope of their own.
pub fn local_defaults(config: &mut RootConfig, features: &Vec<String>)
    ensures
        defaulted(*final(config), *old(config), text::texts(features@)),
{
    if !text::among(features, "connector-time") {
        return;
    }
    let ghost given = config.connectors@;
    let ghost names = connector_names(given);
    let mut i: usize = 0;
    while i < config.connectors.len() && text::precedes(config.connectors[i].0.as_str(), "time")
        invariant
            i <= config.connectors.len(),
            config.connectors@ == given,
            *config == *old(config),
            names == connector_names(given),
            slot(names, "time"@, 0) == slot(names, "time"@, i as int),
        decreases config.connectors.len() - i,
    {
        assert(names[i as int] == given[i as int].0@);
        i = i + 1;
    }
    assert(i < given.len() ==> names[i as int] == given[i as int].0@);
    let wired = ("time".to_owned(), Wiring { scope: None });
    if i < config.connectors.len() && text::same(config.connectors[i].0.as_str(), "time") {
        config.connectors[i] = wired;
        assert(config.connectors@ =~= given.update(i as int, wired));
    } else {
        config.connectors.insert(i, wired);
        assert(config.connectors@ =~= given.insert(i as int, wired));
    }
}

// ---- laws ----

/// The features of a build are those there are that it was compiled with, in
/// their order.
pub proof fn features_keep_their_order(list: Seq<Seq<char>>, among: Seq<Seq<char>>)
    ensures
        present(list, among) == list.filter(|w: Seq<char>| among.contains(w)),
    decreases list.len(),
{
    reveal(Seq::filter);
    if list.len() > 0 {
        features_keep_their_order(list.drop_last(), among);
    }
}

/// What is carried is what each compiled feature stands for, in order.
pub proof fn what_is_carried_follows_the_features(
    list: Seq<(Seq<char>, Seq<char>)>,
    features: Seq<Seq<char>>,
)
    ensures
        carried(list, features) == list.filter(
            |p: (Seq<char>, Seq<char>)| features.contains(p.0),
        ).map_values(|p: (Seq<char>, Seq<char>)| p.1),
    decreases list.len(),
{
    reveal(Seq::filter);
    let f = |p: (Seq<char>, Seq<char>)| features.contains(p.0);
    let g = |p: (Seq<char>, Seq<char>)| p.1;
    if list.len() > 0 {
        let rest = list.drop_last();
        what_is_carried_follows_the_features(rest, features);
        if features.contains(list.last().0) {
            assert(list.filter(f).map_values(g) =~= rest.filter(f).map_values(g).push(
                list.last().1,
            ));
        }
    } else {
        assert(list.filter(f).map_values(g) =~= Seq::empty());
    }
}

/// Each connector stands behind the feature of its own name.
pub proof fn a_connector_has_its_own_feature(features: Seq<Seq<char>>, name: Seq<char>)
    ensures
        connector_list().len() == 10,
        connector_list().contains(("connector-time"@, "time"@)),
        connector_list().contains(("connector-fs"@, "fs"@)),
        connector_list().contains(("connector-crypto"@, "crypto"@)),
        connector_list().contains(("connector-sql"@, "sql"@)),
        connector_list().contains(("connector-ssh"@, "ssh"@)),
        connector_list().contains(("connector-rest"@, "rest"@)),
        connector_list().contains(("connector-ssmtp"@, "ssmtp"@)),
        connector_list().contains(("connector-exec"@, "exec"@)),
        connector_list().contains(("connector-data"@, "data"@)),
        connector_list().contains(("listen"@, "listen"@)),
        carries(features, name) <==> {
            ||| name == "time"@ && features.contains("connector-time"@)
            ||| name == "fs"@ && features.contains("connector-fs"@)
            ||| name == "crypto"@ && features.contains("connector-crypto"@)
            ||| name == "sql"@ && features.contains("connector-sql"@)
            ||| name == "ssh"@ && features.contains("connector-ssh"@)
            ||| name == "rest"@ && features.contains("connector-rest"@)
            ||| name == "ssmtp"@ && features.contains("connector-ssmtp"@)
            ||| name == "exec"@ && features.contains("connector-exec"@)
            ||| name == "data"@ && features.contains("connector-data"@)
        },
{
    let all = connector_list();
    assert(all[0] == ("connector-time"@, "time"@));
    assert(all[1] == ("connector-fs"@, "fs"@));
    assert(all[2] == ("connector-crypto"@, "crypto"@));
    assert(all[3] == ("connector-sql"@, "sql"@));
    assert(all[4] == ("connector-ssh"@, "ssh"@));
    assert(all[5] == ("connector-rest"@, "rest"@));
    assert(all[6] == ("connector-ssmtp"@, "ssmtp"@));
    assert(all[7] == ("connector-exec"@, "exec"@));
    assert(all[8] == ("connector-data"@, "data"@));
    assert(all[9] == ("listen"@, "listen"@));
    assert(families()[0] == ("connector-time"@, "time"@));
    assert(families()[1] == ("connector-fs"@, "fs"@));
    assert(families()[2] == ("connector-crypto"@, "crypto"@));
    assert(families()[3] == ("connector-sql"@, "sql"@));
    assert(families()[4] == ("connector-ssh"@, "ssh"@));
    assert(families()[5] == ("connector-rest"@, "rest"@));
    assert(families()[6] == ("connector-ssmtp"@, "ssmtp"@));
    assert(families()[7] == ("connector-exec"@, "exec"@));
    assert(families()[8] == ("connector-data"@, "data"@));
}

/// A profile is named for its features, exactly: one feature more or less, or
/// in another order, and the build is a custom one.
pub proof fn a_profile_is_exact(features: Seq<Seq<char>>)
    ensures
        profile(
            seq!["cli"@, "connector-crypto"@, "connector-fs"@, "connector-time"@, "listen"@],
        ) == "slim"@,
        profile(
            seq![
                "connector-crypto"@,
                "connector-fs"@,
                "connector-sql"@,
                "connector-time"@,
                "listen"@,
            ],
        ) == "wasi"@,
        profile(seq!["cli"@, "connector-crypto"@, "connector-fs"@, "connector-time"@]) == "web"@,
        profile(features) == "custom"@ || features == seq![
            "cli"@,
            "connector-crypto"@,
            "connector-data"@,
            "connector-exec"@,
            "connector-fs"@,
            "connector-rest"@,
            "connector-sql"@,
            "connector-ssh"@,
            "connector-ssmtp"@,
            "connector-time"@,
            "listen"@,
            "netcheck"@,
            "relay"@,
            "runtime"@,
            "stun"@,
            "tunnel"@,
            "turn"@,
            "turn-client"@,
            "wireguard"@,
        ] || features == seq![
            "cli"@,
            "connector-crypto"@,
            "connector-fs"@,
            "connector-time"@,
            "listen"@,
        ] || features == seq![
            "connector-crypto"@,
            "connector-fs"@,
            "connector-sql"@,
            "connector-time"@,
            "listen"@,
        ] || features == seq![
            "cli"@,
            "connector-crypto"@,
            "connector-fs"@,
            "connector-time"@,
        ],
        features == seq![
            "cli"@,
            "connector-crypto"@,
            "connector-data"@,
            "connector-exec"@,
            "connector-fs"@,
            "connector-rest"@,
            "connector-sql"@,
            "connector-ssh"@,
            "connector-ssmtp"@,
            "connector-time"@,
            "listen"@,
            "netcheck"@,
            "relay"@,
            "runtime"@,
            "stun"@,
            "tunnel"@,
            "turn"@,
            "turn-client"@,
            "wireguard"@,
        ] ==> profile(features) == "full"@,
        features.len() != 19 && features.len() != 5 && features.len() != 4 ==> profile(features)
            == "custom"@,
{
    reveal_strlit("cli");
    reveal_strlit("connector-crypto");
    assert(slim()[0] == "cli"@);
    assert(wasi()[0] == "connector-crypto"@);
    assert("cli"@.len() != "connector-crypto"@.len());
    assert(known().len() == 19 && slim().len() == 5 && wasi().len() == 5 && web().len() == 4);
}

/// A core of a named profile matches patterns; of any other it is not known
/// what it carries.
pub proof fn only_a_named_core_is_known(profile: Seq<char>)
    ensures
        inside_core("full"@) == seq!["regex"@],
        inside_core("slim"@) == seq!["regex"@],
        inside_core("wasi"@) == seq!["regex"@],
        inside_core("web"@) == seq!["regex"@],
        profile != "full"@ && profile != "slim"@ && profile != "wasi"@ && profile != "web"@
            ==> inside_core(profile) == seq!["unknown"@],
{
}

/// A build has nine verbs, and one more for each of three features, in the
/// order of the alphabet.
pub proof fn verbs_follow_the_features(features: Seq<Seq<char>>)
    ensures
        verb_list(features) == seq!["buildinfo"@, "commit"@, "deploy"@, "key"@] + (
        if features.contains("netcheck"@) {
            seq!["netcheck"@]
        } else {
            Seq::empty()
        }) + seq!["ps"@, "repl"@, "rm"@, "run"@, "start"@] + (if features.contains("tunnel"@) {
            seq!["tunnel"@]
        } else {
            Seq::empty()
        }) + (if features.contains("wireguard"@) {
            seq!["wg"@]
        } else {
            Seq::empty()
        }),
{
    reveal_with_fuel(carried, 3);
    let one = seq![("netcheck"@, "netcheck"@)];
    assert(one.drop_last() =~= Seq::empty());
    let two = seq![("tunnel"@, "tunnel"@), ("wireguard"@, "wg"@)];
    assert(two.drop_last() =~= seq![("tunnel"@, "tunnel"@)]);
    assert(two.drop_last().drop_last() =~= Seq::empty());
}

/// The wiring stops at the first connector that the build lacks, and goes
/// through where it lacks none.
pub proof fn the_first_lack_stops_the_wiring(
    connectors: Seq<(String, Wiring)>,
    features: Seq<Seq<char>>,
    from: int,
)
    requires
        0 <= from <= connectors.len(),
    ensures
        match uncarried(connectors, features, from) {
            Some(i) => from <= i < connectors.len() && !carries(features, connectors[i].0@)
                && forall|k: int|
                from <= k < i ==> carries(features, (#[trigger] connectors[k]).0@),
            None => forall|k: int|
                from <= k < connectors.len() ==> carries(features, (#[trigger] connectors[k]).0@),
        },
    decreases connectors.len() - from,
{
    if from < connectors.len() && carries(features, connectors[from].0@) {
        the_first_lack_stops_the_wiring(connectors, features, from + 1);
    }
}

proof fn slot_parts(names: Seq<Seq<char>>, name: Seq<char>, from: int)
    requires
        0 <= from <= names.len(),
    ensures
        from <= slot(names, name, from) <= names.len(),
        forall|k: int|
            from <= k < slot(names, name, from) ==> text::before(#[trigger] names[k], name),
        slot(names, name, from) < names.len() ==> !text::before(
            names[slot(names, name, from)],
            name,
        ),
    decreases names.len() - from,
{
    if from < names.len() && text::before(names[from], name) {
        slot_parts(names, name, from + 1);
    }
}

/// Whether names stand in order, none of them twice.
pub open spec fn in_order(names: Seq<Seq<char>>) -> bool {
    forall|i: int, j: int|
        0 <= i < j < names.len() ==> text::before(#[trigger] names[i], #[trigger] names[j])
}

/// A local run gets the clock and nothing else: every other connector keeps
/// its wiring and its order, and names in order stay in order.
pub proof fn a_local_run_gets_the_clock(
    after: Seq<(String, Wiring)>,
    before: Seq<(String, Wiring)>,
)
    requires
        time_wired(after, before),
    ensures
        exists|i: int|
            {
                &&& 0 <= i < after.len()
                &&& (#[trigger] after[i]).0@ == "time"@
                &&& after[i].1.scope is None
                &&& after.remove(i) == before || (i < before.len() && before[i].0@ == "time"@
                    && after.remove(i) == before.remove(i))
            },
        in_order(connector_names(before)) ==> in_order(connector_names(after)),
{
    let names = connector_names(before);
    let later = connector_names(after);
    let i = slot(names, "time"@, 0);
    slot_parts(names, "time"@, 0);
    if i < before.len() && before[i].0@ == "time"@ {
        assert(after.remove(i) =~= before.remove(i));
        assert(later =~= names);
    } else {
        assert(after.remove(i) =~= before);
        assert(later =~= names.insert(i, "time"@));
        if in_order(names) {
            assert forall|a: int, b: int| 0 <= a < b < later.len() implies text::before(
                #[trigger] later[a],
                #[trigger] later[b],
            ) by {
                if a == i {
                    text::before_total(names[i], "time"@);
                    assert(names[i] == before[i].0@);
                    assert(later[b] == names[b - 1]);
                    if b - 1 > i {
                        assert(text::before(names[i], names[b - 1]));
                        text::before_transitive("time"@, names[i], names[b - 1]);
                    }
                } else if b == i {
                    assert(later[a] == names[a]);
                } else {
                    let x = if a < i {
                        a
                    } else {
                        a - 1
                    };
                    let y = if b < i {
                        b
                    } else {
                        b - 1
                    };
                    assert(later[a] == names[x] && later[b] == names[y]);
                }
            }
        }
    }
}

/// The defaults of a local run change its connectors alone, and those only in
/// a build that carries the clock.
pub proof fn defaults_touch_the_connectors_alone(
    after: RootConfig,
    before: RootConfig,
    features: Seq<Seq<char>>,
)
    requires
        defaulted(after, before, features),
    ensures
        after.program == before.program,
        after.caps == before.caps,
        after.dlua_dir == before.dlua_dir,
        after.args == before.args,
        after.relay == before.relay,
        !features.contains("connector-time"@) ==> after.connectors == before.connectors,
        features.contains("connector-time"@) ==> exists|i: int|
            0 <= i < after.connectors@.len() && (#[trigger] after.connectors@[i]).0@ == "time"@,
{
    if features.contains("connector-time"@) {
        a_local_run_gets_the_clock(after.connectors@, before.connectors@);
    }
}

/// Whether a text begins with another.
spec fn begins(all: Seq<char>, s: Seq<char>) -> bool {
    s.len() <= all.len() && all.subrange(0, s.len() as int) == s
}

proof fn begins_before(all: Seq<char>, s: Seq<char>, a: Seq<char>)
    requires
        begins(all, s + a),
    ensures
        begins(all, s),
{
    assert(all.subrange(0, s.len() as int) =~= (s + a).subrange(0, s.len() as int));
    assert((s + a).subrange(0, s.len() as int) =~= s);
}

proof fn stands_behind(all: Seq<char>, s: Seq<char>, a: Seq<char>, b: Seq<char>)
    requires
        begins(all, s + a + b),
    ensures
        text::contains(all, a + b),
        text::contains(all, b),
        begins(all, s),
        begins(all, s + a),
{
    let n = s.len() as int;
    let t = s + a + b;
    begins_before(all, s + a, b);
    begins_before(all, s, a);
    assert forall|k: int| 0 <= k < t.len() implies all[k] == t[k] by {
        assert(all.subrange(0, t.len() as int)[k] == t[k]);
    }
    assert(all.subrange(n, n + (a + b).len()) =~= a + b);
    assert(text::stands_at(all, a + b, n));
    assert(all.subrange(n + a.len(), n + a.len() + b.len()) =~= b);
    assert(text::stands_at(all, b, n + a.len()));
}

/// What a build says of itself in lines has a line for each thing it is.
pub proof fn the_lines_say_what_the_build_is(build: Build)
    ensures
        ({
            let all = info_text(build);
            let features = text::texts(build.features@);
            &&& text::contains(all, "version: "@ + drt_root::VERSION@)
            &&& build.tag matches Some(t) ==> t@.len() > 0 ==> text::contains(
                all,
                "tag: "@ + t@ + "\n"@,
            )
            &&& text::contains(all, "profile: "@ + profile(present(known(), features)))
            &&& text::contains(all, "\ndiluvium: "@ + build.revision@)
            &&& text::contains(all, "\ndiluvium_build: "@ + text::dec(14))
            &&& build.abi matches Some((l, e)) ==> text::contains(
                all,
                "\ndv_abi: "@ + text::dec(l as nat),
            ) && text::contains(all, "\ndv_abi_expected: "@ + text::dec(e as nat))
            &&& build.abi is None ==> text::contains(all, "\ndv_abi: "@ + "unknown"@)
                && text::contains(all, "\ndv_abi_expected: "@ + "unknown"@)
            &&& text::contains(
                all,
                "\nconnectors: "@ + text::joined(carried(connector_list(), features), ","@),
            )
            &&& text::contains(all, "\nverbs: "@ + text::joined(verb_list(features), ","@))
            &&& text::contains(
                all,
                "\nfeatures: "@ + text::joined(
                    inside_core(profile(present(known(), features))),
                    ","@,
                ),
            )
        }),
{
    let all = info_text(build);
    let features = text::texts(build.features@);
    let s0 = "version: "@;
    let s1 = s0 + drt_root::VERSION@;
    let s2 = s1 + "\n"@;
    let s3 = s2 + (match tag_of(build) {
        Some(t) => "tag: "@ + t + "\n"@,
        None => ""@,
    });
    let s4 = s3 + "profile: "@;
    let s5 = s4 + profile_of(build);
    let s6 = s5 + "\ndv_abi: "@;
    let s7 = s6 + version_or(linked(build), "unknown"@);
    let s8 = s7 + "\ndv_abi_expected: "@;
    let s9 = s8 + version_or(expected(build), "unknown"@);
    let s10 = s9 + "\ndiluvium: "@;
    let s11 = s10 + build.revision@;
    let s12 = s11 + "\ndiluvium_build: "@;
    let s13 = s12 + text::dec(DILUVIUM_BUILD as nat);
    let s14 = s13 + "\nfeatures: "@;
    let s15 = s14 + text::joined(inside_core(profile_of(build)), ","@);
    let s16 = s15 + "\nconnectors: "@;
    let s17 = s16 + text::joined(carried(connector_list(), features), ","@);
    let s18 = s17 + "\nverbs: "@;
    let s19 = s18 + text::joined(verb_list(features), ","@);
    let s20 = s19 + "\n"@;
    assert(all == s20);
    assert(all.subrange(0, all.len() as int) =~= all);
    stands_behind(all, s18, text::joined(verb_list(features), ","@), "\n"@);
    stands_behind(all, s17, "\nverbs: "@, text::joined(verb_list(features), ","@));
    stands_behind(all, s16, text::joined(carried(connector_list(), features), ","@), "\nverbs: "@);
    stands_behind(all, s15, "\nconnectors: "@, text::joined(carried(connector_list(), features), ","@));
    stands_behind(all, s14, text::joined(inside_core(profile_of(build)), ","@), "\nconnectors: "@);
    stands_behind(all, s13, "\nfeatures: "@, text::joined(inside_core(profile_of(build)), ","@));
    stands_behind(all, s12, text::dec(DILUVIUM_BUILD as nat), "\nfeatures: "@);
    stands_behind(all, s11, "\ndiluvium_build: "@, text::dec(DILUVIUM_BUILD as nat));
    stands_behind(all, s10, build.revision@, "\ndiluvium_build: "@);
    stands_behind(all, s9, "\ndiluvium: "@, build.revision@);
    stands_behind(all, s8, version_or(expected(build), "unknown"@), "\ndiluvium: "@);
    stands_behind(all, s7, "\ndv_abi_expected: "@, version_or(expected(build), "unknown"@));
    stands_behind(all, s6, version_or(linked(build), "unknown"@), "\ndv_abi_expected: "@);
    stands_behind(all, s5, "\ndv_abi: "@, version_or(linked(build), "unknown"@));
    stands_behind(all, s4, profile_of(build), "\ndv_abi: "@);
    stands_behind(all, s3, "profile: "@, profile_of(build));
    stands_behind(all, s2, (match tag_of(build) {
        Some(t) => "tag: "@ + t + "\n"@,
        None => ""@,
    }), "profile: "@);
    stands_behind(all, s1, "\n"@, (match tag_of(build) {
        Some(t) => "tag: "@ + t + "\n"@,
        None => ""@,
    }));
    stands_behind(all, s0, drt_root::VERSION@, "\n"@);
    assert(Seq::<char>::empty() + s0 + drt_root::VERSION@ =~= s1);
    stands_behind(all, Seq::empty(), s0, drt_root::VERSION@);
}

/// What a build says of itself for a machine has a member for each thing it
/// is.
pub proof fn the_object_says_what_the_build_is(build: Build)
    ensures
        ({
            let all = info_json(build);
            let features = text::texts(build.features@);
            &&& text::contains(all, "{\"version\":\""@ + drt_root::VERSION@)
            &&& build.tag matches Some(t) ==> t@.len() > 0 ==> text::contains(
                all,
                "\",\"tag\":"@ + ("\""@ + t@ + "\""@),
            )
            &&& build.tag is None ==> text::contains(all, "\",\"tag\":"@ + "null"@)
            &&& text::contains(all, ",\"profile\":\""@ + profile(present(known(), features)))
            &&& text::contains(all, ",\"diluvium\":\""@ + build.revision@)
            &&& text::contains(all, "\",\"diluvium_build\":"@ + text::dec(14))
            &&& build.abi matches Some((l, e)) ==> text::contains(
                all,
                "\",\"dv_abi\":"@ + text::dec(l as nat),
            ) && text::contains(all, ",\"dv_abi_expected\":"@ + text::dec(e as nat))
            &&& build.abi is None ==> text::contains(all, "\",\"dv_abi\":"@ + "null"@)
                && text::contains(all, ",\"dv_abi_expected\":"@ + "null"@)
            &&& text::contains(
                all,
                "],\"connectors\":["@ + listed(carried(connector_list(), features)),
            )
            &&& text::contains(all, "],\"verbs\":["@ + listed(verb_list(features)))
            &&& text::contains(
                all,
                ",\"features\":["@ + listed(inside_core(profile(present(known(), features)))),
            )
        }),
{
    let all = info_json(build);
    let features = text::texts(build.features@);
    let s0 = "{\"version\":\""@;
    let s1 = s0 + drt_root::VERSION@;
    let s2 = s1 + "\",\"tag\":"@;
    let s3 = s2 + (match tag_of(build) {
        Some(t) => quoted(t),
        None => "null"@,
    });
    let s4 = s3 + ",\"profile\":\""@;
    let s5 = s4 + profile_of(build);
    let s6 = s5 + "\",\"dv_abi\":"@;
    let s7 = s6 + version_or(linked(build), "null"@);
    let s8 = s7 + ",\"dv_abi_expected\":"@;
    let s9 = s8 + version_or(expected(build), "null"@);
    let s10 = s9 + ",\"diluvium\":\""@;
    let s11 = s10 + build.revision@;
    let s12 = s11 + "\",\"diluvium_build\":"@;
    let s13 = s12 + text::dec(DILUVIUM_BUILD as nat);
    let s14 = s13 + ",\"features\":["@;
    let s15 = s14 + listed(inside_core(profile_of(build)));
    let s16 = s15 + "],\"connectors\":["@;
    let s17 = s16 + listed(carried(connector_list(), features));
    let s18 = s17 + "],\"verbs\":["@;
    let s19 = s18 + listed(verb_list(features));
    let s20 = s19 + "]}\n"@;
    assert(all == s20);
    assert(all.subrange(0, all.len() as int) =~= all);
    stands_behind(all, s18, listed(verb_list(features)), "]}\n"@);
    stands_behind(all, s17, "],\"verbs\":["@, listed(verb_list(features)));
    stands_behind(all, s16, listed(carried(connector_list(), features)), "],\"verbs\":["@);
    stands_behind(all, s15, "],\"connectors\":["@, listed(carried(connector_list(), features)));
    stands_behind(all, s14, listed(inside_core(profile_of(build))), "],\"connectors\":["@);
    stands_behind(all, s13, ",\"features\":["@, listed(inside_core(profile_of(build))));
    stands_behind(all, s12, text::dec(DILUVIUM_BUILD as nat), ",\"features\":["@);
    stands_behind(all, s11, "\",\"diluvium_build\":"@, text::dec(DILUVIUM_BUILD as nat));
    stands_behind(all, s10, build.revision@, "\",\"diluvium_build\":"@);
    stands_behind(all, s9, ",\"diluvium\":\""@, build.revision@);
    stands_behind(all, s8, version_or(expected(build), "null"@), ",\"diluvium\":\""@);
    stands_behind(all, s7, ",\"dv_abi_expected\":"@, version_or(expected(build), "null"@));
    stands_behind(all, s6, version_or(linked(build), "null"@), ",\"dv_abi_expected\":"@);
    stands_behind(all, s5, "\",\"dv_abi\":"@, version_or(linked(build), "null"@));
    stands_behind(all, s4, profile_of(build), "\",\"dv_abi\":"@);
    stands_behind(all, s3, ",\"profile\":\""@, profile_of(build));
    stands_behind(all, s2, (match tag_of(build) {
        Some(t) => quoted(t),
        None => "null"@,
    }), ",\"profile\":\""@);
    stands_behind(all, s1, "\",\"tag\":"@, (match tag_of(build) {
        Some(t) => quoted(t),
        None => "null"@,
    }));
    stands_behind(all, s0, drt_root::VERSION@, "\",\"tag\":"@);
    assert(Seq::<char>::empty() + s0 + drt_root::VERSION@ =~= s1);
    stands_behind(all, Seq::empty(), s0, drt_root::VERSION@);
}

/// Words are listed between quotes, with a comma between each two.
pub proof fn words_are_listed_between_quotes(list: Seq<Seq<char>>, w: Seq<char>)
    ensures
        listed(Seq::empty()) == Seq::<char>::empty(),
        listed(seq![w]) == "\""@ + w + "\""@,
        list.len() > 0 ==> listed(list.push(w)) == listed(list) + ","@ + ("\""@ + w + "\""@),
{
    let f = |w: Seq<char>| quoted(w);
    assert(Seq::<Seq<char>>::empty().map_values(f) =~= Seq::<Seq<char>>::empty());
    assert(seq![w].map_values(f) =~= seq![quoted(w)]);
    assert(list.push(w).map_values(f) =~= list.map_values(f).push(quoted(w)));
    text::a_join_puts_the_separator_between(list.map_values(f), quoted(w), ","@);
}

} // verus!
