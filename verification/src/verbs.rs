//! What each verb does next, once what it reads has been read.

use crate::boot::{Booted, Deployment, Runnable};
use crate::config::Program;
use crate::consent_gate::ConsentCheck;
use crate::deploy::Report;
use crate::drt_root;
use crate::drt_root::Root;
use crate::paths;
use crate::resolve::Resolution;
use crate::stdlib;
use crate::stdlib::Kind;
use crate::text;
use vstd::prelude::*;

verus! {

// ---- run ----

/// Which reading of its argument the flags force.
#[derive(Clone, Copy, Debug, PartialEq, Eq, Structural)]
pub enum Explicit {
    File,
    Code,
    Profile,
}

/// Which reading the flags force, if any: the first of those given.
pub fn explicit(file: bool, command: bool, profile: bool) -> (r: Option<Explicit>)
    ensures
        r == (if file {
            Some(Explicit::File)
        } else if command {
            Some(Explicit::Code)
        } else if profile {
            Some(Explicit::Profile)
        } else {
            None
        }),
{
    if file {
        Some(Explicit::File)
    } else if command {
        Some(Explicit::Code)
    } else if profile {
        Some(Explicit::Profile)
    } else {
        None
    }
}

/// What the argument of a run turned out to be.
#[derive(Debug)]
pub enum Requested {
    File(String),
    Code(String),
    Stdin,
    Stdlib(String),
    Profile(String),
}

/// What a run does next.
#[derive(Debug)]
pub enum RunAct {
    /// Say this and fail.
    Refuse(String),
    /// Run what is deployed, of a profile where one is named.
    Profile(Option<String>),
    /// Run a file.
    Path(String),
    /// Run source, under a name that a traceback shows.
    Source { source: String, name: String },
    /// Read the program from the standard input first.
    Stdin,
}

/// What a run does next, as mathematics.
#[verifier::ext_equal]
pub enum RunView {
    Refuse(Seq<char>),
    Profile(Option<Seq<char>>),
    Path(Seq<char>),
    Source { source: Seq<char>, name: Seq<char> },
    Stdin,
}

impl RunAct {
    /// The act, as mathematics.
    pub open spec fn view(&self) -> RunView {
        match self {
            RunAct::Refuse(why) => RunView::Refuse(why@),
            RunAct::Profile(name) => RunView::Profile(text::opt(*name)),
            RunAct::Path(p) => RunView::Path(p@),
            RunAct::Source { source, name } => RunView::Source { source: source@, name: name@ },
            RunAct::Stdin => RunView::Stdin,
        }
    }
}

/// What a run without an argument does: in a root it runs what is deployed,
/// else the program that the configuration names as a file.
pub open spec fn untargeted(rooted: bool, program: Option<Program>) -> RunView {
    if rooted {
        RunView::Profile(None)
    } else {
        match program {
            Some(Program::Path(p)) => RunView::Path(p@),
            _ => RunView::Refuse(
                "drt run: name a program, as an argument or as `program` in the config"@,
            ),
        }
    }
}

/// What a run of a program of the binary does.
pub open spec fn run_carried(name: Seq<char>) -> RunView {
    match stdlib::carried(name) {
        Some(Kind::Source(s)) => RunView::Source { source: s@, name: "=stdlib:"@ + name },
        Some(Kind::Native(n)) => RunView::Refuse(
            "drt run: '"@ + n@ + "' reports on a root, so it is `drt start "@ + n@
                + "` -- `run` has no resolution to report on"@,
        ),
        None => RunView::Refuse(
            "drt run: this build carries no stdlib program called '"@ + name + "'; it carries "@
                + stdlib::listed(),
        ),
    }
}

/// What a run does with its argument. `exists` tells whether the file is
/// there, and `missing` what is said where it is not.
pub open spec fn targeted(
    requested: Requested,
    rooted: bool,
    exists_there: bool,
    missing: Seq<char>,
) -> RunView {
    match requested {
        Requested::File(path) => if exists_there {
            RunView::Path(path@)
        } else {
            RunView::Refuse("drt run: "@ + missing)
        },
        Requested::Code(source) => RunView::Source { source: source@, name: "=command"@ },
        Requested::Stdin => RunView::Stdin,
        Requested::Stdlib(name) => run_carried(name@),
        Requested::Profile(name) => if rooted {
            RunView::Profile(Some(name@))
        } else {
            RunView::Refuse(
                "drt run: there is no root here, so '"@ + name@
                    + "' names no profile; `--config <path>` is the self-contained form"@,
            )
        },
    }
}

fn run_stdlib(name: &str) -> (r: RunAct)
    ensures
        r@ == run_carried(name@),
{
    match stdlib::lookup(name) {
        Some(Kind::Source(source)) => RunAct::Source {
            source: source.to_owned(),
            name: text::join2("=stdlib:", name),
        },
        Some(Kind::Native(native)) => RunAct::Refuse(
            text::join5(
                "drt run: '",
                native,
                "' reports on a root, so it is `drt start ",
                native,
                "` -- `run` has no resolution to report on",
            ),
        ),
        None => RunAct::Refuse(
            text::join4(
                "drt run: this build carries no stdlib program called '",
                name,
                "'; it carries ",
                stdlib::listing().as_str(),
            ),
        ),
    }
}

/// Decides what a run does, with or without an argument.
pub fn run_verb(
    target: Option<Requested>,
    rooted: bool,
    program: &Option<Program>,
    exists_there: bool,
    missing: &str,
) -> (r: RunAct)
    ensures
        r@ == (match target {
            None => untargeted(rooted, *program),
            Some(requested) => targeted(requested, rooted, exists_there, missing@),
        }),
{
    match target {
        None => {
            if rooted {
                return RunAct::Profile(None);
            }
            match program {
                Some(Program::Path(p)) => RunAct::Path(p.clone()),
                _ => RunAct::Refuse(
                    "drt run: name a program, as an argument or as `program` in the config".to_owned(),
                ),
            }
        },
        Some(Requested::File(path)) => if exists_there {
            RunAct::Path(path)
        } else {
            RunAct::Refuse(text::join2("drt run: ", missing))
        },
        Some(Requested::Code(source)) => RunAct::Source { source, name: "=command".to_owned() },
        Some(Requested::Stdin) => RunAct::Stdin,
        Some(Requested::Stdlib(name)) => run_stdlib(name.as_str()),
        Some(Requested::Profile(name)) => if rooted {
            RunAct::Profile(Some(name))
        } else {
            RunAct::Refuse(
                text::join3(
                    "drt run: there is no root here, so '",
                    name.as_str(),
                    "' names no profile; `--config <path>` is the self-contained form",
                ),
            )
        },
    }
}

/// What a run does with what came over the standard input.
pub fn piped(read: Result<String, String>) -> (r: RunAct)
    ensures
        r@ == (match read {
            Ok(source) => RunView::Source { source: source@, name: "=stdin"@ },
            Err(e) => RunView::Refuse("drt run: cannot read stdin: "@ + e@),
        }),
{
    match read {
        Ok(source) => RunAct::Source { source, name: "=stdin".to_owned() },
        Err(e) => RunAct::Refuse(text::join2("drt run: cannot read stdin: ", e.as_str())),
    }
}

/// Whether what was booted is the report that the host prints.
pub open spec fn is_report(booted: Booted) -> bool {
    &&& booted.resolution is Some
    &&& booted.runnable matches Some(Runnable::Native(n)) && n@ == stdlib::PREFLIGHT@
}

/// Tells whether what was booted is the report that the host prints.
pub fn reports(booted: &Booted) -> (r: bool)
    ensures
        r == is_report(*booted),
{
    match (&booted.runnable, &booted.resolution) {
        (Some(Runnable::Native(name)), Some(_)) => text::same(name, stdlib::PREFLIGHT),
        _ => false,
    }
}

/// The setup report on what was resolved, as `start` and `run` both print it.
pub fn preflight_report(resolution: &Resolution) -> (r: String)
    ensures
        r@ == stdlib::report(
            *resolution,
            text::opt(resolution.pin),
            drt_root::VERSION@,
            match resolution.consent {
                Some(c) => Some(&c),
                None => None,
            },
        ),
{
    let pin: Option<&str> = match &resolution.pin {
        Some(p) => Some(p.as_str()),
        None => None,
    };
    let consent: Option<&ConsentCheck> = match &resolution.consent {
        Some(c) => Some(c),
        None => None,
    };
    stdlib::preflight(resolution, pin, drt_root::VERSION, consent)
}

/// What running a profile does next.
#[derive(Debug)]
pub enum ProfileAct {
    /// Say this and fail.
    Refuse(String),
    /// Print the setup report.
    Report,
    /// Run a file.
    Path(String),
}

/// Decides what running a profile does: what is deployed runs as it stands,
/// and nothing is deployed on the way.
pub fn run_profile(booted: &Booted) -> (r: ProfileAct)
    ensures
        match booted.deployment {
            Some(d) if !d.deployed => r matches ProfileAct::Refuse(why) && why@ == "drt run: '"@
                + d.name@ + "' is not deployed; `drt deploy` copies "@ + d.source.spec_describe()
                + " into live/, or `drt start` does both"@,
            _ => if is_report(*booted) {
                r is Report
            } else {
                match booted.config.program {
                    Some(Program::Path(p)) => r matches ProfileAct::Path(q) && q@ == p@,
                    _ => r matches ProfileAct::Refuse(why) && why@
                        == "drt run: this profile names no program to run"@,
                }
            },
        },
{
    if let Some(d) = &booted.deployment {
        if !d.deployed {
            return ProfileAct::Refuse(
                text::join5(
                    "drt run: '",
                    d.name.as_str(),
                    "' is not deployed; `drt deploy` copies ",
                    d.source.describe(),
                    " into live/, or `drt start` does both",
                ),
            );
        }
    }
    if reports(booted) {
        return ProfileAct::Report;
    }
    match &booted.config.program {
        Some(Program::Path(p)) => ProfileAct::Path(p.clone()),
        _ => ProfileAct::Refuse("drt run: this profile names no program to run".to_owned()),
    }
}

/// The line of a verb that failed.
pub open spec fn failure(verb: Seq<char>, why: Seq<char>) -> Seq<char> {
    "drt "@ + verb + ": "@ + why
}

/// The line of a verb that failed.
pub fn failed(verb: &str, why: &str) -> (r: String)
    ensures
        r@ == failure(verb@, why@),
{
    text::join4("drt ", verb, ": ", why)
}

// ---- the verbs of a root ----

/// The refusal of a verb that needs a root, where there is none.
pub fn rootless(verb: &str) -> (r: String)
    ensures
        r@ == failure(
            verb@,
            "there is no root here; run it inside one, name one with --root, or `dollup init` to make one"@,
        ),
{
    failed(
        verb,
        "there is no root here; run it inside one, name one with --root, or `dollup init` to make one",
    )
}

/// What a deploy says when it is done.
pub fn deployed_line(deployment: &Deployment, report: Report) -> (r: String)
    ensures
        r@ == "deployed "@ + deployment.name@ + " from "@ + deployment.source.spec_describe()
            + " ("@ + text::dec(report.files as nat) + " file(s))"@,
{
    let mut r = text::join5(
        "deployed ",
        deployment.name.as_str(),
        " from ",
        deployment.source.describe(),
        " (",
    );
    r.append(text::decimal(report.files as u64).as_str());
    r.append(" file(s))");
    r
}

/// What a removal says when it is done.
pub fn removed_line(name: &str) -> (r: String)
    ensures
        r@ == "removed "@ + name@ + " from live/"@,
{
    text::join3("removed ", name, " from live/")
}

/// What a commit says when it is done.
pub fn committed_lines(report: Report, hash: &str) -> (r: String)
    ensures
        r@ == "committed "@ + text::dec(report.files as nat) + " file(s) into init/\nenvelope: "@
            + hash@,
{
    text::join4(
        "committed ",
        text::decimal(report.files as u64).as_str(),
        " file(s) into init/\nenvelope: ",
        hash,
    )
}

/// Why a deploy or a commit of what was booted cannot be made, if it cannot.
pub open spec fn unrooted(booted: Booted) -> bool {
    booted.root is None || booted.deployment is None
}

/// The refusal of a deploy, if it is refused.
pub fn deploy_refusal(booted: &Booted) -> (r: Option<String>)
    ensures
        if unrooted(*booted) {
            r matches Some(why) && why@ == "drt deploy: there is no root here to deploy into"@
        } else {
            r is None
        },
{
    match (&booted.root, &booted.deployment) {
        (Some(_), Some(_)) => None,
        _ => Some("drt deploy: there is no root here to deploy into".to_owned()),
    }
}

/// The refusal of a commit, if it is refused. `project` tells whether the
/// root has a `project.json`.
pub fn commit_refusal(booted: &Booted, project: bool) -> (r: Option<String>)
    ensures
        if unrooted(*booted) {
            r matches Some(why) && why@ == "drt commit: there is no root here to commit in"@
        } else if !project {
            r matches Some(why) && why@
                == "drt commit: this root has no project.json, so a commit has no root_id to record"@
        } else {
            r is None
        },
{
    match (&booted.root, &booted.deployment) {
        (Some(_), Some(_)) => {
            if project {
                None
            } else {
                Some(
                    "drt commit: this root has no project.json, so a commit has no root_id to record".to_owned(),
                )
            }
        },
        _ => Some("drt commit: there is no root here to commit in".to_owned()),
    }
}

// ---- start ----

/// What a start does next.
#[derive(Debug)]
pub enum StartAct {
    /// Print the setup report.
    Report,
    /// Say these lines and fail.
    Refuse(Vec<String>),
    /// Deploy, and run what was deployed.
    Deploy,
    /// Run; there is no root to deploy in.
    Run,
}

/// Where a deploy reads from, as a root's profile wrote it.
pub open spec fn written(root: Root, d: Deployment) -> Seq<char> {
    match paths::below(d.source.spec_path(), root.dir@) {
        Some(rest) => rest,
        None => d.source.spec_path(),
    }
}

/// What is said of a deployment that is there already.
pub open spec fn already(root: Root, d: Deployment) -> Seq<Seq<char>> {
    seq![
        "'"@ + d.name@ + "' is already deployed"@,
        ""@,
        "   drt run         # run "@ + d.name@ + " from live"@,
        "   drt rm          # delete "@ + d.name@ + " from live"@,
        "   drt start --rm  # start "@ + d.name@ + " from "@ + written(root, d)
            + " (overwrites live/"@ + d.name@ + ")"@,
    ]
}

fn already_deployed(root: &Root, d: &Deployment) -> (r: Vec<String>)
    ensures
        text::texts(r@) == already(*root, *d),
{
    let from: String = match paths::relative(d.source.path(), root.dir.as_str()) {
        Some(rest) => rest,
        None => d.source.path().to_owned(),
    };
    let name = d.name.as_str();
    let mut last = text::join5(
        "   drt start --rm  # start ",
        name,
        " from ",
        from.as_str(),
        " (overwrites live/",
    );
    last.append(name);
    last.append(")");
    let mut r: Vec<String> = Vec::new();
    r.push(text::join3("'", name, "' is already deployed"));
    r.push("".to_owned());
    r.push(text::join3("   drt run         # run ", name, " from live"));
    r.push(text::join3("   drt rm          # delete ", name, " from live"));
    r.push(last);
    assert(text::texts(r@) =~= already(*root, *d));
    r
}

/// Decides what a start does with what was booted. What is deployed already
/// is replaced only where that is asked for.
pub fn start_verb(booted: &Booted, rm: bool) -> (r: StartAct)
    ensures
        if is_report(*booted) {
            r is Report
        } else {
            match (booted.root, booted.deployment) {
                (Some(root), Some(d)) => if d.deployed && !rm {
                    r matches StartAct::Refuse(lines) && text::texts(lines@) == already(root, d)
                } else {
                    r is Deploy
                },
                _ => r is Run,
            }
        },
{
    if reports(booted) {
        return StartAct::Report;
    }
    match (&booted.root, &booted.deployment) {
        (Some(root), Some(d)) => if d.deployed && !rm {
            StartAct::Refuse(already_deployed(root, d))
        } else {
            StartAct::Deploy
        },
        _ => StartAct::Run,
    }
}

// ---- key ----

/// What `key` does.
#[derive(Debug)]
pub enum KeyAction {
    /// Make a key, and write its private half to a path.
    New { path: String },
    /// Sign a decision about a request that waits.
    Sign {
        key: String,
        request: String,
        key_id: String,
        deny: bool,
        not_after: Option<String>,
    },
}

/// What `key` does next.
#[derive(Debug)]
pub enum KeyAct {
    /// Say this and fail.
    Refuse(String),
    /// Make a key.
    New,
    /// Sign, and write the decision into this directory.
    Sign { decided: String, approve: bool, not_after: Option<i64> },
}

/// Decides what `key` does. `instant` is how the moment at which a decision
/// ends reads, where one is named; `root` is the root that this runs in.
pub fn key_verb(action: &KeyAction, instant: Option<Result<i64, String>>, root: Option<&Root>) -> (r:
    KeyAct)
    ensures
        match action {
            KeyAction::New { .. } => r is New,
            KeyAction::Sign { deny, .. } => match instant {
                Some(Err(e)) => r matches KeyAct::Refuse(why) && why@ == "drt key sign: "@ + e@,
                _ => match root {
                    None => r matches KeyAct::Refuse(why) && why@
                        == "drt key sign: there is no root here to record a decision in; run it inside one, or name one with --root"@,
                    Some(root) => r matches KeyAct::Sign { decided, approve, not_after } && {
                        &&& decided@ == paths::joined(
                            drt_root::inside(root.dir@, "state"@),
                            "gsr/decided"@,
                        )
                        &&& approve == !*deny
                        &&& not_after == (match instant {
                            Some(Ok(t)) => Some(t),
                            _ => None,
                        })
                    },
                },
            },
        },
{
    match action {
        KeyAction::New { .. } => KeyAct::New,
        KeyAction::Sign { deny, .. } => {
            let not_after: Option<i64> = match instant {
                Some(Ok(t)) => Some(t),
                Some(Err(e)) => {
                    return KeyAct::Refuse(text::join2("drt key sign: ", e.as_str()));
                },
                None => None,
            };
            match root {
                None => KeyAct::Refuse(
                    "drt key sign: there is no root here to record a decision in; run it inside one, or name one with --root".to_owned(),
                ),
                Some(root) => KeyAct::Sign {
                    decided: root.gsr_decided(),
                    approve: !*deny,
                    not_after,
                },
            }
        },
    }
}

// ---- wg check ----

/// The block of a tunnel device, as far as a check reports it.
#[derive(Debug)]
pub struct WireguardConfig {
    /// Whether the stack runs in this process, with no interface.
    pub userspace: bool,
    pub interface: String,
    pub listen_port: u16,
    pub peers: usize,
    pub address: Option<String>,
    pub reply_queue: String,
    /// What each local address is forwarded to.
    pub forward: Vec<(String, String)>,
    /// What each address of the tunnel is exposed from.
    pub expose: Vec<(String, String)>,
}

/// What a check prints: what qualifies the verdict, the verdict, and what is
/// said of this machine.
#[derive(Debug)]
pub struct Checked {
    pub warnings: Vec<String>,
    pub verdict: Vec<String>,
    pub here: Vec<String>,
}

/// Routes, each as its two ends.
pub open spec fn routes(v: Seq<(String, String)>) -> Seq<Seq<char>> {
    v.map_values(|p: (String, String)| p.0@ + " -> "@ + p.1@)
}

/// The first line of the verdict.
pub open spec fn ok_line(config: WireguardConfig, warnings: nat) -> Seq<char> {
    "ok: "@ + (if config.userspace {
        "userspace"@
    } else {
        config.interface@
    }) + " on port "@ + text::dec(config.listen_port as nat) + ", "@ + text::dec(
        config.peers as nat,
    ) + " peer(s)"@ + (if warnings == 0 {
        ""@
    } else {
        ", "@ + text::dec(warnings) + " warning(s)"@
    })
}

/// What a stack in this process reaches.
pub open spec fn reach_line(config: WireguardConfig) -> Seq<char> {
    "    no interface; "@ + (if config.forward@.len() == 0 {
        ""@
    } else {
        "forwards "@ + text::joined(routes(config.forward@), ", "@)
    }) + (if config.forward@.len() == 0 || config.expose@.len() == 0 {
        ""@
    } else {
        "; "@
    }) + (if config.expose@.len() == 0 {
        ""@
    } else {
        "exposes "@ + text::joined(routes(config.expose@), ", "@)
    })
}

/// What a block without peers does.
pub open spec fn peerless_line(config: WireguardConfig) -> Seq<char> {
    "    no peers named: it will "@ + (if config.userspace {
        "run a stack in this process"@
    } else {
        "create "@ + config.interface@
    }) + ", "@ + (match config.address {
        Some(cidr) => "give it "@ + cidr@ + ","@,
        None => "which needs an address before it carries anything,"@,
    }) + " measure its mapping, and wait for `add` on "@ + (if config.reply_queue@.len() == 0 {
        "a reply_queue it does not have"@
    } else {
        config.reply_queue@
    })
}

/// The verdict.
pub open spec fn verdict_lines(config: WireguardConfig, warnings: nat) -> Seq<Seq<char>> {
    seq![ok_line(config, warnings)] + (if config.userspace {
        seq![reach_line(config)]
    } else {
        Seq::empty()
    }) + (if config.peers == 0 {
        seq![peerless_line(config)]
    } else {
        Seq::empty()
    })
}

/// What is said of this machine. A stack in this process asks nothing of it.
pub open spec fn here_lines(config: WireguardConfig, here: Seq<Seq<char>>) -> Seq<Seq<char>> {
    if config.userspace || here.len() == 0 {
        Seq::empty()
    } else {
        here.map_values(|f: Seq<char>| "here: "@ + f).push(
            "      `ok` is the config; `here` is this machine, and the exit code follows the config."@,
        )
    }
}

fn route_texts(v: &Vec<(String, String)>) -> (r: Vec<String>)
    ensures
        text::texts(r@) == routes(v@),
{
    let mut r: Vec<String> = Vec::new();
    let mut i: usize = 0;
    while i < v.len()
        invariant
            i <= v.len(),
            text::texts(r@) == routes(v@).subrange(0, i as int),
        decreases v.len() - i,
    {
        let ghost had = text::texts(r@);
        let one = text::join3(v[i].0.as_str(), " -> ", v[i].1.as_str());
        let ghost s = one@;
        r.push(one);
        assert(routes(v@)[i as int] == s);
        assert(text::texts(r@) =~= had.push(s));
        assert(routes(v@).subrange(0, i + 1) =~= routes(v@).subrange(0, i as int).push(s));
        i = i + 1;
    }
    assert(routes(v@).subrange(0, v@.len() as int) =~= routes(v@));
    r
}

fn led_by(lead: &str, v: &Vec<String>) -> (r: Vec<String>)
    ensures
        text::texts(r@) == text::texts(v@).map_values(|f: Seq<char>| lead@ + f),
{
    let ghost want = text::texts(v@).map_values(|f: Seq<char>| lead@ + f);
    let mut r: Vec<String> = Vec::new();
    let mut i: usize = 0;
    while i < v.len()
        invariant
            i <= v.len(),
            want == text::texts(v@).map_values(|f: Seq<char>| lead@ + f),
            text::texts(r@) == want.subrange(0, i as int),
        decreases v.len() - i,
    {
        let ghost had = text::texts(r@);
        let one = text::join2(lead, v[i].as_str());
        let ghost s = one@;
        r.push(one);
        assert(want[i as int] == s);
        assert(text::texts(r@) =~= had.push(s));
        assert(want.subrange(0, i + 1) =~= want.subrange(0, i as int).push(s));
        i = i + 1;
    }
    assert(want.subrange(0, want.len() as int) =~= want);
    r
}

fn ok_text(config: &WireguardConfig, warnings: usize) -> (r: String)
    ensures
        r@ == ok_line(*config, warnings as nat),
{
    let on: &str = if config.userspace {
        "userspace"
    } else {
        config.interface.as_str()
    };
    let mut r = text::join5(
        "ok: ",
        on,
        " on port ",
        text::decimal(config.listen_port as u64).as_str(),
        ", ",
    );
    r.append(text::decimal(config.peers as u64).as_str());
    r.append(" peer(s)");
    if warnings == 0 {
        r.append("");
    } else {
        r.append(
            text::join3(", ", text::decimal(warnings as u64).as_str(), " warning(s)").as_str(),
        );
    }
    r
}

fn reach_text(config: &WireguardConfig) -> (r: String)
    ensures
        r@ == reach_line(*config),
{
    let mut r: String = "    no interface; ".to_owned();
    if config.forward.len() == 0 {
        r.append("");
    } else {
        r.append(
            text::join2("forwards ", text::join(&route_texts(&config.forward), ", ").as_str()).as_str(),
        );
    }
    if config.forward.len() == 0 || config.expose.len() == 0 {
        r.append("");
    } else {
        r.append("; ");
    }
    if config.expose.len() == 0 {
        r.append("");
    } else {
        r.append(
            text::join2("exposes ", text::join(&route_texts(&config.expose), ", ").as_str()).as_str(),
        );
    }
    r
}

fn peerless_text(config: &WireguardConfig) -> (r: String)
    ensures
        r@ == peerless_line(*config),
{
    let make: String = if config.userspace {
        "run a stack in this process".to_owned()
    } else {
        text::join2("create ", config.interface.as_str())
    };
    let address: String = match &config.address {
        Some(cidr) => text::join3("give it ", cidr.as_str(), ","),
        None => "which needs an address before it carries anything,".to_owned(),
    };
    let queue: &str = if config.reply_queue.as_str().is_empty() {
        "a reply_queue it does not have"
    } else {
        config.reply_queue.as_str()
    };
    let mut r = text::join5(
        "    no peers named: it will ",
        make.as_str(),
        ", ",
        address.as_str(),
        " measure its mapping, and wait for `add` on ",
    );
    r.append(queue);
    r
}

/// What a check of a block that is right prints. `warnings` are those of the
/// block, and `here` is what this machine lacks for it.
pub fn wg_check(config: &WireguardConfig, warnings: &Vec<String>, here: &Vec<String>) -> (r: Checked)
    ensures
        text::texts(r.warnings@) == text::texts(warnings@).map_values(
            |w: Seq<char>| "drt wg check: "@ + w,
        ),
        text::texts(r.verdict@) == verdict_lines(*config, warnings@.len()),
        text::texts(r.here@) == here_lines(*config, text::texts(here@)),
{
    let mut verdict: Vec<String> = Vec::new();
    let ghost count = warnings@.len();
    verdict.push(ok_text(config, warnings.len()));
    assert(text::texts(verdict@) =~= seq![ok_line(*config, count)]);
    let ghost one = text::texts(verdict@);
    if config.userspace {
        verdict.push(reach_text(config));
        assert(text::texts(verdict@) =~= one + seq![reach_line(*config)]);
    } else {
        assert(one =~= one + Seq::<Seq<char>>::empty());
    }
    let ghost two = text::texts(verdict@);
    if config.peers == 0 {
        verdict.push(peerless_text(config));
        assert(text::texts(verdict@) =~= two + seq![peerless_line(*config)]);
    } else {
        assert(two =~= two + Seq::<Seq<char>>::empty());
    }
    let mut lacking: Vec<String> = Vec::new();
    assert(text::texts(lacking@) =~= Seq::empty());
    if !config.userspace && here.len() > 0 {
        lacking = led_by("here: ", here);
        let ghost had = text::texts(lacking@);
        lacking.push(
            "      `ok` is the config; `here` is this machine, and the exit code follows the config.".to_owned(),
        );
        assert(text::texts(lacking@) =~= had.push(
            "      `ok` is the config; `here` is this machine, and the exit code follows the config."@,
        ));
    }
    Checked { warnings: led_by("drt wg check: ", warnings), verdict, here: lacking }
}

// ---- laws ----

/// A run without an argument runs what is deployed in a root, whatever the
/// configuration names; elsewhere it runs the file that the configuration
/// names, and nothing else.
pub proof fn a_run_without_an_argument(program: Option<Program>)
    ensures
        untargeted(true, program) == RunView::Profile(None),
        program matches Some(Program::Path(p)) ==> untargeted(false, program) == RunView::Path(p@),
        !(program matches Some(Program::Path(_))) ==> untargeted(false, program) is Refuse,
{
}

/// A run does what its argument names: a file that is there, source as it is
/// given, the standard input, a profile of a root. A file that is not there is
/// refused with what is missing, and a profile outside a root with its name.
pub proof fn a_run_does_what_its_argument_names(
    s: String,
    rooted: bool,
    there: bool,
    missing: Seq<char>,
)
    ensures
        targeted(Requested::File(s), rooted, true, missing) == RunView::Path(s@),
        targeted(Requested::File(s), rooted, false, missing) matches RunView::Refuse(why)
            && text::contains(why, missing),
        targeted(Requested::Code(s), rooted, there, missing) == (RunView::Source {
            source: s@,
            name: "=command"@,
        }),
        targeted(Requested::Stdin, rooted, there, missing) == RunView::Stdin,
        targeted(Requested::Profile(s), true, there, missing) == RunView::Profile(Some(s@)),
        targeted(Requested::Profile(s), false, there, missing) matches RunView::Refuse(why)
            && text::contains(why, s@),
        stdlib::carried(s@) matches Some(Kind::Source(c)) ==> targeted(
            Requested::Stdlib(s),
            rooted,
            there,
            missing,
        ) == (RunView::Source { source: c@, name: "=stdlib:"@ + s@ }),
        !(stdlib::carried(s@) matches Some(Kind::Source(_))) ==> targeted(
            Requested::Stdlib(s),
            rooted,
            there,
            missing,
        ) is Refuse,
{
    let a = "drt run: "@;
    assert((a + missing).subrange(a.len() as int, (a.len() + missing.len()) as int) =~= missing);
    assert(text::stands_at(a + missing, missing, a.len() as int));
    let b = "drt run: there is no root here, so '"@;
    let c = "' names no profile; `--config <path>` is the self-contained form"@;
    assert((b + s@ + c).subrange(b.len() as int, (b.len() + s@.len()) as int) =~= s@);
    assert(text::stands_at(b + s@ + c, s@, b.len() as int));
}

/// What was booted is the report only where something was resolved and the
/// program is the one that reports.
pub proof fn only_the_setup_program_reports(booted: Booted)
    ensures
        is_report(booted) <==> booted.resolution is Some && booted.runnable is Some && (
        booted.runnable->0 matches Runnable::Native(n) && n@ == "preflight"@),
{
}

/// A deploy or a commit needs a root and something of it to deploy.
pub proof fn a_deploy_needs_a_root(booted: Booted)
    ensures
        !unrooted(booted) <==> booted.root is Some && booted.deployment is Some,
{
}

/// What is deployed already is named in every line that speaks of it, and the
/// last line says where it would be read from again.
pub proof fn what_is_deployed_already_is_named(root: Root, d: Deployment)
    ensures
        ({
            let lines = already(root, d);
            &&& lines.len() == 5
            &&& text::contains(lines[0], d.name@)
            &&& text::contains(lines[2], "drt run"@)
            &&& text::contains(lines[2], d.name@)
            &&& text::contains(lines[3], "drt rm"@)
            &&& text::contains(lines[3], d.name@)
            &&& text::contains(lines[4], "drt start --rm"@)
            &&& text::contains(lines[4], "start "@ + d.name@ + " from "@ + written(root, d))
            &&& text::contains(lines[4], "live/"@ + d.name@)
        }),
        paths::below(d.source.spec_path(), root.dir@) matches Some(rest) ==> written(root, d) == rest,
        paths::below(d.source.spec_path(), root.dir@) is None ==> written(root, d)
            == d.source.spec_path(),
{
    reveal_strlit("'");
    reveal_strlit("   drt run         # run ");
    reveal_strlit("drt run");
    reveal_strlit("   drt rm          # delete ");
    reveal_strlit("drt rm");
    reveal_strlit("   drt start --rm  # start ");
    reveal_strlit("drt start --rm");
    reveal_strlit("start ");
    reveal_strlit(" (overwrites live/");
    reveal_strlit("live/");
    let name = d.name@;
    let n = name.len() as int;
    let lines = already(root, d);
    let from = written(root, d);
    assert(lines[0].subrange(1, 1 + n) =~= name);
    assert(text::stands_at(lines[0], name, 1));
    assert(lines[2].subrange(3, 10) =~= "drt run"@);
    assert(text::stands_at(lines[2], "drt run"@, 3));
    let l2 = "   drt run         # run "@.len() as int;
    assert(lines[2].subrange(l2, l2 + n) =~= name);
    assert(text::stands_at(lines[2], name, l2));
    assert(lines[3].subrange(3, 9) =~= "drt rm"@);
    assert(text::stands_at(lines[3], "drt rm"@, 3));
    let l3 = "   drt rm          # delete "@.len() as int;
    assert(lines[3].subrange(l3, l3 + n) =~= name);
    assert(text::stands_at(lines[3], name, l3));
    assert(lines[4].subrange(3, 17) =~= "drt start --rm"@);
    assert(text::stands_at(lines[4], "drt start --rm"@, 3));
    let route = "start "@ + name + " from "@ + from;
    let l4 = "   drt start --rm  # "@.len() as int;
    reveal_strlit("   drt start --rm  # ");
    assert(lines[4].subrange(l4, l4 + route.len()) =~= route);
    assert(text::stands_at(lines[4], route, l4));
    let live = "live/"@ + name;
    let l5 = ("   drt start --rm  # start "@ + name + " from "@ + from).len() as int + 13;
    assert(lines[4].subrange(l5, l5 + live.len()) =~= live);
    assert(text::stands_at(lines[4], live, l5));
}

/// The line of a verb that failed names the verb and says why.
pub proof fn a_failure_names_its_verb(verb: Seq<char>, why: Seq<char>)
    ensures
        text::contains(failure(verb, why), "drt "@ + verb),
        text::contains(failure(verb, why), ": "@ + why),
{
    let all = failure(verb, why);
    let a = "drt "@ + verb;
    let b = ": "@ + why;
    assert(all =~= a + b);
    assert(all.subrange(0, a.len() as int) =~= a);
    assert(text::stands_at(all, a, 0));
    assert(all.subrange(a.len() as int, (a.len() + b.len()) as int) =~= b);
    assert(text::stands_at(all, b, a.len() as int));
}

/// Every route is shown with its two ends, in order.
pub proof fn a_route_is_shown_with_its_ends(v: Seq<(String, String)>, i: int)
    requires
        0 <= i < v.len(),
    ensures
        routes(v).len() == v.len(),
        routes(v)[i] == v[i].0@ + " -> "@ + v[i].1@,
{
}

/// The verdict on a block names what carries the tunnel, its port, its peers
/// and how many warnings there were; a stack in this process says what it
/// forwards and exposes; and a block without peers says what it waits for.
pub proof fn the_verdict_tells_the_block(config: WireguardConfig, warnings: nat)
    ensures
        verdict_lines(config, warnings).len() == 1 + (if config.userspace {
            1int
        } else {
            0
        }) + (if config.peers == 0 {
            1int
        } else {
            0
        }),
        verdict_lines(config, warnings)[0] == "ok: "@ + (if config.userspace {
            "userspace"@
        } else {
            config.interface@
        }) + " on port "@ + text::dec(config.listen_port as nat) + ", "@ + text::dec(
            config.peers as nat,
        ) + " peer(s)"@ + (if warnings > 0 {
            ", "@ + text::dec(warnings) + " warning(s)"@
        } else {
            ""@
        }),
        config.userspace && config.forward@.len() > 0 ==> text::contains(
            verdict_lines(config, warnings)[1],
            "forwards "@ + text::joined(routes(config.forward@), ", "@),
        ),
        config.userspace && config.expose@.len() > 0 ==> text::contains(
            verdict_lines(config, warnings)[1],
            "exposes "@ + text::joined(routes(config.expose@), ", "@),
        ),
        config.peers == 0 && !config.userspace ==> text::contains(
            verdict_lines(config, warnings).last(),
            "create "@ + config.interface@,
        ),
        config.peers == 0 && config.address is Some ==> text::contains(
            verdict_lines(config, warnings).last(),
            "give it "@ + config.address->0@,
        ),
        config.peers == 0 && config.reply_queue@.len() > 0 ==> text::contains(
            verdict_lines(config, warnings).last(),
            "`add` on "@ + config.reply_queue@,
        ),
{
    reveal_strlit("");
    let all = verdict_lines(config, warnings);
    if config.userspace {
        let line = reach_line(config);
        assert(all[1] == line);
        let lead = "    no interface; "@;
        if config.forward@.len() > 0 {
            let m = "forwards "@ + text::joined(routes(config.forward@), ", "@);
            assert(line.subrange(lead.len() as int, (lead.len() + m.len()) as int) =~= m);
            assert(text::stands_at(line, m, lead.len() as int));
        }
        if config.expose@.len() > 0 {
            let m = "exposes "@ + text::joined(routes(config.expose@), ", "@);
            let at = (line.len() - m.len()) as int;
            assert(line.subrange(at, (at + m.len()) as int) =~= m);
            assert(text::stands_at(line, m, at));
        }
    }
    if config.peers == 0 {
        peerless_is_last(config, warnings);
        peerless_parts(config);
    }
}

proof fn peerless_is_last(config: WireguardConfig, warnings: nat)
    requires
        config.peers == 0,
    ensures
        verdict_lines(config, warnings).last() == peerless_line(config),
{
}

proof fn peerless_parts(config: WireguardConfig)
    ensures
        !config.userspace ==> text::contains(
            peerless_line(config),
            "create "@ + config.interface@,
        ),
        config.address is Some ==> text::contains(
            peerless_line(config),
            "give it "@ + config.address->0@,
        ),
        config.reply_queue@.len() > 0 ==> text::contains(
            peerless_line(config),
            "`add` on "@ + config.reply_queue@,
        ),
{
    reveal_strlit(" measure its mapping, and wait for `add` on ");
    reveal_strlit("`add` on ");
    let line = peerless_line(config);
    let lead = "    no peers named: it will "@;
    let what = if config.userspace {
        "run a stack in this process"@
    } else {
        "create "@ + config.interface@
    };
    let address = match config.address {
        Some(cidr) => "give it "@ + cidr@ + ","@,
        None => "which needs an address before it carries anything,"@,
    };
    let queue = if config.reply_queue@.len() == 0 {
        "a reply_queue it does not have"@
    } else {
        config.reply_queue@
    };
    assert(line == lead + what + ", "@ + address + " measure its mapping, and wait for `add` on "@
        + queue);
    assert(line.subrange(lead.len() as int, (lead.len() + what.len()) as int) =~= what);
    assert(text::stands_at(line, what, lead.len() as int));
    if config.address is Some {
        let m = "give it "@ + config.address->0@;
        let at = (lead + what + ", "@).len() as int;
        assert(line.subrange(at, (at + m.len()) as int) =~= m);
        assert(text::stands_at(line, m, at));
    }
    if config.reply_queue@.len() > 0 {
        let m = "`add` on "@ + config.reply_queue@;
        let at = (line.len() - m.len()) as int;
        assert(line.subrange(at, (at + m.len()) as int) =~= m);
        assert(text::stands_at(line, m, at));
    }
}

/// Every lack of this machine is told, in order, and one line more says what
/// the lines mean; a stack in this process asks nothing of the machine.
pub proof fn every_lack_is_told(config: WireguardConfig, here: Seq<Seq<char>>)
    ensures
        config.userspace ==> here_lines(config, here).len() == 0,
        here.len() == 0 ==> here_lines(config, here).len() == 0,
        !config.userspace && here.len() > 0 ==> here_lines(config, here).len() == here.len() + 1
            && forall|i: int|
            0 <= i < here.len() ==> #[trigger] here_lines(config, here)[i] == "here: "@ + here[i],
{
}

/// What a run cannot do is refused with what would.
pub proof fn a_refused_run_says_what_would_do(name: Seq<char>, program: Option<Program>)
    ensures
        stdlib::carried(name) matches Some(Kind::Native(n)) ==> run_carried(name)
            == RunView::Refuse(
            "drt run: '"@ + n@ + "' reports on a root, so it is `drt start "@ + n@
                + "` -- `run` has no resolution to report on"@,
        ),
        stdlib::carried(name) is None ==> run_carried(name) == RunView::Refuse(
            "drt run: this build carries no stdlib program called '"@ + name + "'; it carries "@
                + stdlib::listed(),
        ),
        !(program matches Some(Program::Path(_))) ==> untargeted(false, program) == RunView::Refuse(
            "drt run: name a program, as an argument or as `program` in the config"@,
        ),
{
}

} // verus!
