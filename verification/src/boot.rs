//! What happens before the first step of a deployment: what would run is
//! resolved, gated on consent, and handed on as a configuration.

use crate::cli;
use crate::config;
use crate::config::{Program, ProgramView, RootConfig};
use crate::consent_gate;
use crate::consent_gate::{Ask, Consent, ConsentCheck, Flags, Heard, Project};
use crate::deploy;
use crate::deploy::Source;
use crate::drt_root;
use crate::drt_root::{AllowNested, Nesting, NestingView, Root};
use crate::paths;
use crate::resolve;
use crate::resolve::{Entry, Resolution};
use crate::stdlib;
use crate::stdlib::Kind;
use crate::text;
use vstd::prelude::*;

verus! {

/// The deployment of a root: its name under `live/`, where a deploy would
/// read from, and whether it is there now.
#[derive(Debug)]
pub struct Deployment {
    pub name: String,
    pub source: Source,
    pub deployed: bool,
}

/// What an entry turns out to be.
#[derive(Debug)]
pub enum Runnable {
    /// A program to load and run.
    Program(Program),
    /// The host runs it itself; nothing is loaded.
    Native(&'static str),
}

/// What an entry is.
#[verifier::ext_equal]
pub enum RunnableView {
    Program(ProgramView),
    Native(Seq<char>),
}

impl Runnable {
    /// What the entry is, as mathematics.
    pub open spec fn view(&self) -> RunnableView {
        match self {
            Runnable::Program(p) => RunnableView::Program(p@),
            Runnable::Native(n) => RunnableView::Native(n@),
        }
    }
}

/// What an entry of the deployment `name` runs: a file lies in `live/`, and
/// a program of the binary is looked up in the registry.
pub open spec fn runs(dir: Seq<char>, name: Seq<char>, entry: Entry) -> Result<
    RunnableView,
    Seq<char>,
> {
    match entry {
        Entry::File(path) => Ok(
            RunnableView::Program(
                ProgramView::Path(paths::joined(deploy::live(dir, name), path@)),
            ),
        ),
        Entry::Stdlib(program) => match stdlib::carried(program@) {
            Some(Kind::Native(n)) => Ok(RunnableView::Native(n@)),
            Some(Kind::Source(s)) => Ok(RunnableView::Program(ProgramView::Source(s@))),
            None => Err(
                "this build carries no stdlib program called '"@ + program@ + "'; it carries "@
                    + stdlib::listed(),
            ),
        },
    }
}

/// The entry of a deployment, as something to run.
pub fn entry_runnable(root: &Root, deployment: &Deployment, entry: &Entry) -> (r: Result<
    Runnable,
    String,
>)
    ensures
        match runs(root.dir@, deployment.name@, *entry) {
            Ok(what) => r matches Ok(it) && it@ == what,
            Err(what) => r matches Err(why) && why@ == what,
        },
{
    match entry {
        Entry::File(path) => Ok(
            Runnable::Program(
                Program::Path(
                    paths::join(
                        deploy::live_path(root, deployment.name.as_str()).as_str(),
                        path.as_str(),
                    ),
                ),
            ),
        ),
        Entry::Stdlib(name) => match stdlib::lookup(name.as_str()) {
            Some(Kind::Native(native)) => Ok(Runnable::Native(native)),
            Some(Kind::Source(source)) => Ok(Runnable::Program(Program::Source(source.to_owned()))),
            None => Err(
                text::join4(
                    "this build carries no stdlib program called '",
                    name.as_str(),
                    "'; it carries ",
                    stdlib::listing().as_str(),
                ),
            ),
        },
    }
}

/// What is said of a root that lies inside another, where something is.
pub open spec fn nested_note(found: NestingView) -> Seq<Seq<char>> {
    match found {
        NestingView::Warn { outer } => seq![
            "drt start: this root is nested beneath "@ + outer
                + " -- they are peers, not parent and child, and neither knows about the other. Set `allow_nested` to silence this."@,
        ],
        _ => Seq::empty(),
    }
}

/// Why a root that lies inside another does not start, where it does not.
pub open spec fn nested_refusal(found: NestingView) -> Option<Seq<char>> {
    match found {
        NestingView::Refused { outer } => Some(
            "this root is nested beneath "@ + outer + " and its `allow_nested` is \"error\""@,
        ),
        _ => None,
    }
}

/// Says something about a root that lies inside another, or refuses, as the
/// root's own policy has it.
pub fn nesting<A: Ask>(root: &Root, policy: AllowNested, dirs: &Vec<String>, ask: &mut A) -> (r:
    Result<(), String>)
    ensures
        final(ask).there() == old(ask).there(),
        final(ask).asked() == old(ask).asked(),
        final(ask).answered() == old(ask).answered(),
        ({
            let found = drt_root::judged(
                policy,
                drt_root::outer_root(root.dir@, text::texts(dirs@)),
            );
            &&& final(ask).told() == old(ask).told() + nested_note(found)
            &&& match nested_refusal(found) {
                Some(what) => r matches Err(why) && why@ == what,
                None => r is Ok,
            }
        }),
{
    match root.nesting(policy, dirs) {
        Nesting::Free => {
            assert(ask.told() =~= ask.told() + Seq::<Seq<char>>::empty());
            Ok(())
        },
        Nesting::Allowed { .. } => {
            assert(ask.told() =~= ask.told() + Seq::<Seq<char>>::empty());
            Ok(())
        },
        Nesting::Warn { outer } => {
            let line = text::join3(
                "drt start: this root is nested beneath ",
                outer.as_str(),
                " -- they are peers, not parent and child, and neither knows about the other. Set `allow_nested` to silence this.",
            );
            let ghost before = ask.told();
            ask.say(line.as_str());
            assert(ask.told() =~= before + seq![line@]);
            Ok(())
        },
        Nesting::Refused { outer } => {
            assert(ask.told() =~= ask.told() + Seq::<Seq<char>>::empty());
            Err(
                text::join3(
                    "this root is nested beneath ",
                    outer.as_str(),
                    " and its `allow_nested` is \"error\"",
                ),
            )
        },
    }
}

/// What a start reads of a `project.json`.
#[derive(Debug)]
pub struct ProjectJson {
    pub project: Project,
    pub allow_nested: AllowNested,
}

/// The configuration of the flag, and whether its ceiling lies under the
/// root's.
#[derive(Debug)]
pub struct FlagConfig {
    pub config: RootConfig,
    pub under: Result<(), String>,
}

/// What was read of a root before the start.
#[derive(Debug)]
pub struct Found {
    pub root: Root,
    /// What could not be read, a line for each.
    pub soft: Vec<String>,
    /// The configuration that the command line names, or why it cannot be
    /// loaded.
    pub flag: Option<Result<FlagConfig, String>>,
    pub resolution: Resolution,
    pub project: Option<ProjectJson>,
    /// The profiles by the names of their files.
    pub profiles: Vec<(String, RootConfig)>,
    /// The directories of roots above this one.
    pub above: Vec<String>,
    /// Whether something stands where this root deploys to.
    pub deployed: bool,
    pub consent: Option<Consent>,
    /// How the ceiling compares with what was accepted.
    pub check: Result<ConsentCheck, String>,
}

/// What a start has to begin with.
#[derive(Debug)]
pub struct Booted {
    pub config: RootConfig,
    /// The root that this is a deployment of, where there is one.
    pub root: Option<Root>,
    pub resolution: Option<Resolution>,
    pub runnable: Option<Runnable>,
    pub deployment: Option<Deployment>,
}

/// What booting came to. An acceptance is written before anything else is
/// done with it.
#[derive(Debug)]
pub struct Outcome {
    pub accepted: Option<Consent>,
    pub booted: Result<Booted, String>,
}

/// The file of a profile.
pub open spec fn filename(profile: Seq<char>) -> Seq<char> {
    profile + ".config.json"@
}

/// The place of a profile, at or after `i`.
pub open spec fn place(profiles: Seq<(String, RootConfig)>, file: Seq<char>, i: int) -> Option<int>
    decreases profiles.len() - i,
{
    if i < 0 || i >= profiles.len() {
        None
    } else if profiles[i].0@ == file {
        Some(i)
    } else {
        place(profiles, file, i + 1)
    }
}

fn find(profiles: &Vec<(String, RootConfig)>, file: &str) -> (r: Option<usize>)
    ensures
        match r {
            Some(i) => place(profiles@, file@, 0) == Some(i as int) && i < profiles.len(),
            None => place(profiles@, file@, 0) is None,
        },
{
    let mut i: usize = 0;
    while i < profiles.len()
        invariant
            i <= profiles.len(),
            place(profiles@, file@, 0) == place(profiles@, file@, i as int),
        decreases profiles.len() - i,
    {
        if text::same(profiles[i].0.as_str(), file) {
            return Some(i);
        }
        i = i + 1;
    }
    None
}

/// What a profile comes to.
#[verifier::ext_equal]
pub struct Planned {
    /// The place of the profile among those that were read.
    pub profile: int,
    pub name: Seq<char>,
    pub runnable: RunnableView,
}

/// What the resolved profile comes to, or why nothing.
pub open spec fn planned(
    dir: Seq<char>,
    resolution: Resolution,
    profiles: Seq<(String, RootConfig)>,
    project: Option<Seq<char>>,
) -> Result<Planned, Seq<char>> {
    match resolution.profile {
        None => Err("no profile resolved, and nothing said why"@),
        Some(p) => match place(profiles, filename(p.value@), 0) {
            None => Err("'"@ + filename(p.value@) + "' is declared but not in profile/"@),
            Some(i) => match resolution.entry {
                None => Err("profile '"@ + p.value@ + "' declares no entry"@),
                Some(entry) => {
                    let name = deploy::name_for(dir, project);
                    match runs(dir, name, entry) {
                        Err(why) => Err(why),
                        Ok(runnable) => Ok(Planned { profile: i, name, runnable }),
                    }
                },
            },
        },
    }
}

/// Whether a configuration is that of the profile, with the arguments that
/// resolved and with the entry as its program.
pub open spec fn taken(
    config: RootConfig,
    profile: RootConfig,
    resolution: Resolution,
    runnable: RunnableView,
) -> bool {
    &&& config.caps == profile.caps
    &&& config.dlua_dir == profile.dlua_dir
    &&& config.connectors == profile.connectors
    &&& config.relay == profile.relay
    &&& resolve::same_args(config.args@, resolution.args@)
    &&& match runnable {
        RunnableView::Program(p) => config.program matches Some(q) && q@ == p,
        RunnableView::Native(_) => config.program == profile.program,
    }
}

/// Whether a deployment is that of a root whose profile is `profile`.
pub open spec fn deploys(
    d: Deployment,
    dir: Seq<char>,
    name: Seq<char>,
    profile: RootConfig,
    deployed: bool,
) -> bool {
    &&& d.name@ == name
    &&& d.deployed == deployed
    &&& match profile.dlua_dir {
        Some(sub) => d.source is DluaDir && d.source.spec_path() == paths::joined(dir, sub@),
        None => d.source is Init && d.source.spec_path() == drt_root::inside(dir, "init"@),
    }
}

/// The configuration of the resolved profile, with its entry made into
/// something to run.
pub fn profile_config(
    root: &Root,
    resolution: &Resolution,
    profiles: Vec<(String, RootConfig)>,
    project_name: Option<&str>,
    deployed: bool,
) -> (r: Result<(RootConfig, Runnable, Deployment), String>)
    ensures
        match planned(root.dir@, *resolution, profiles@, drt_root::opt_str(project_name)) {
            Err(what) => r matches Err(why) && why@ == what,
            Ok(plan) => r matches Ok((config, runnable, deployment)) && {
                &&& runnable@ == plan.runnable
                &&& taken(config, profiles@[plan.profile].1, *resolution, plan.runnable)
                &&& deploys(deployment, root.dir@, plan.name, profiles@[plan.profile].1, deployed)
            },
        },
{
    let name: &String = match &resolution.profile {
        None => return Err("no profile resolved, and nothing said why".to_owned()),
        Some(p) => &p.value,
    };
    let file = text::join2(name.as_str(), ".config.json");
    let at: usize = match find(&profiles, file.as_str()) {
        None => return Err(text::join3("'", file.as_str(), "' is declared but not in profile/")),
        Some(i) => i,
    };
    let entry = match &resolution.entry {
        None => return Err(text::join3("profile '", name.as_str(), "' declares no entry")),
        Some(e) => e,
    };
    let mut profiles = profiles;
    let (_, mut config) = profiles.remove(at);
    let dlua: Option<&str> = match &config.dlua_dir {
        Some(dir) => Some(dir.as_str()),
        None => None,
    };
    let deployment = Deployment {
        name: deploy::deployment_name(root, project_name),
        source: deploy::source_for(root, dlua),
        deployed,
    };
    config.args = resolve::copied(&resolution.args);
    let runnable = match entry_runnable(root, &deployment, entry) {
        Ok(r) => r,
        Err(why) => return Err(why),
    };
    if let Runnable::Program(program) = &runnable {
        config.program = Some(program.copied());
    }
    Ok((config, runnable, deployment))
}

/// The refusal of a root without a `project.json`.
pub open spec fn projectless() -> Seq<char> {
    "this directory has a .drt_root but no project.json; `dollup init` writes one, or name a config with --config"@
}

/// What the operator is told of the files that could not be read.
pub open spec fn soft_lines(soft: Seq<Seq<char>>) -> Seq<Seq<char>> {
    soft.map_values(|l: Seq<char>| "drt start: "@ + l)
}

/// The project's own name.
pub open spec fn project_name(p: ProjectJson) -> Option<Seq<char>> {
    text::opt(p.project.name)
}

/// Why a start ends before its consent is asked about, where it does.
pub open spec fn stopped(found: Found) -> Option<Seq<char>> {
    match found.flag {
        Some(Err(why)) => Some(why@),
        _ => match resolve::first_blocking(found.resolution.findings@, 0) {
            Some(i) => Some(found.resolution.findings@[i].text@),
            None => match found.project {
                None => Some(projectless()),
                Some(p) => match nested_refusal(nested(found, p)) {
                    Some(why) => Some(why),
                    None => match planned(
                        found.root.dir@,
                        found.resolution,
                        found.profiles@,
                        project_name(p),
                    ) {
                        Err(why) => Some(why),
                        Ok(_) => None,
                    },
                },
            },
        },
    }
}

/// What the check for nesting finds.
pub open spec fn nested(found: Found, p: ProjectJson) -> NestingView {
    drt_root::judged(
        p.allow_nested,
        drt_root::outer_root(found.root.dir@, text::texts(found.above@)),
    )
}

/// What the operator has been told once the start comes to consent, or ends
/// before.
pub open spec fn told_first(found: Found) -> Seq<Seq<char>> {
    let soft = soft_lines(text::texts(found.soft@));
    match found.flag {
        Some(Err(_)) => soft,
        _ => if resolve::first_blocking(found.resolution.findings@, 0) is Some {
            soft
        } else {
            match found.project {
                None => soft,
                Some(p) => soft + nested_note(nested(found, p)),
            }
        },
    }
}

/// What the start comes to once consent is given: a configuration that the command
/// line names replaces that of the profile, where its ceiling lies under the
/// root's.
pub open spec fn with_consent(
    found: Found,
    plan: Planned,
    r: Result<Booted, String>,
) -> bool {
    match found.flag {
        Some(Ok(FlagConfig { config, under: Err(why) })) => r matches Err(e) && e@
            == "--config is not a consent bypass: "@ + why@,
        _ => r matches Ok(b) && {
            &&& b.root == Some(found.root)
            &&& b.resolution == Some(found.resolution)
            &&& b.runnable matches Some(it) && it@ == plan.runnable
            &&& b.deployment matches Some(d) && deploys(
                d,
                found.root.dir@,
                plan.name,
                found.profiles@[plan.profile].1,
                found.deployed,
            )
            &&& match found.flag {
                Some(Ok(flag)) => b.config == flag.config,
                _ => taken(
                    b.config,
                    found.profiles@[plan.profile].1,
                    found.resolution,
                    plan.runnable,
                ),
            }
        },
    }
}

/// Whether booting a root comes to `r`, and `after` is what the operator has
/// then been told and asked and has answered.
pub open spec fn boots(
    found: Found,
    flags: Flags,
    there: bool,
    now: i64,
    before: Heard,
    after: Heard,
    r: Outcome,
) -> bool {
    let first = Heard { told: before.told + told_first(found), ..before };
    match stopped(found) {
        Some(what) => {
            &&& r.booted matches Err(why) && why@ == what
            &&& r.accepted is None
            &&& after == first
        },
        None => {
            let project = found.project->0;
            let plan = planned(
                found.root.dir@,
                found.resolution,
                found.profiles@,
                project_name(project),
            )->Ok_0;
            if plan.runnable is Native {
                &&& after == first
                &&& r.accepted is None
                &&& with_consent(found, plan, r.booted)
            } else {
                exists|g: Result<Option<Consent>, String>|
                    {
                        &&& #[trigger] consent_gate::gated(
                            &project.project,
                            opt_consent(&found.consent),
                            found.check,
                            flags,
                            there,
                            now,
                            first,
                            after,
                            g,
                        )
                        &&& match g {
                            Err(what) => r.accepted is None && (r.booted matches Err(why) && why
                                == what),
                            Ok(new) => r.accepted == new && with_consent(
                                found,
                                plan,
                                r.booted,
                            ),
                        }
                    }
            }
        },
    }
}

/// A reference to what was accepted, where something was.
pub open spec fn opt_consent(c: &Option<Consent>) -> Option<&Consent> {
    match c {
        Some(c) => Some(c),
        None => None,
    }
}

fn say_soft<A: Ask>(soft: &Vec<String>, ask: &mut A)
    ensures
        final(ask).there() == old(ask).there(),
        final(ask).asked() == old(ask).asked(),
        final(ask).answered() == old(ask).answered(),
        final(ask).told() == old(ask).told() + soft_lines(text::texts(soft@)),
{
    let ghost all = soft_lines(text::texts(soft@));
    let ghost told = ask.told();
    let ghost asked = ask.asked();
    let ghost answered = ask.answered();
    let ghost there = ask.there();
    let mut i: usize = 0;
    assert(told + all.subrange(0, 0) =~= told);
    while i < soft.len()
        invariant
            i <= soft.len(),
            all == soft_lines(text::texts(soft@)),
            ask.told() == told + all.subrange(0, i as int),
            ask.asked() == asked,
            ask.answered() == answered,
            ask.there() == there,
        decreases soft.len() - i,
    {
        ask.say(text::join2("drt start: ", soft[i].as_str()).as_str());
        assert(all[i as int] == "drt start: "@ + soft@[i as int]@);
        assert(ask.told() =~= told + all.subrange(0, i + 1));
        i = i + 1;
    }
    assert(all.subrange(0, all.len() as int) =~= all);
}

/// Boots a root: everything before the first step of its deployment.
pub fn boot_root<A: Ask>(found: Found, flags: Flags, ask: &mut A, now: i64) -> (r: Outcome)
    ensures
        final(ask).there() == old(ask).there(),
        boots(
            found,
            flags,
            old(ask).there(),
            now,
            consent_gate::heard(*old(ask)),
            consent_gate::heard(*final(ask)),
            r,
        ),
{
    let ghost given = found;
    let ghost before = consent_gate::heard(*ask);
    say_soft(&found.soft, ask);
    if let Some(Err(why)) = found.flag {
        return Outcome { accepted: None, booted: Err(why) };
    }
    if let Some(blocker) = found.resolution.blocker() {
        return Outcome { accepted: None, booted: Err(blocker.text.clone()) };
    }
    let project = match &found.project {
        Some(p) => p,
        None => {
            return Outcome {
                accepted: None,
                booted: Err(
                    "this directory has a .drt_root but no project.json; `dollup init` writes one, or name a config with --config".to_owned(),
                ),
            };
        },
    };
    let between = nesting(&found.root, project.allow_nested, &found.above, ask);
    let ghost first = Heard { told: before.told + told_first(given), ..before };
    assert(consent_gate::heard(*ask) =~= first);
    if let Err(why) = between {
        return Outcome { accepted: None, booted: Err(why) };
    }
    let name: Option<&str> = match &project.project.name {
        Some(n) => Some(n.as_str()),
        None => None,
    };
    let (config, runnable, deployment) = match profile_config(
        &found.root,
        &found.resolution,
        found.profiles,
        name,
        found.deployed,
    ) {
        Ok(all) => all,
        Err(why) => return Outcome { accepted: None, booted: Err(why) },
    };
    let native: bool = match &runnable {
        Runnable::Native(_) => true,
        Runnable::Program(_) => false,
    };
    let mut accepted: Option<Consent> = None;
    let ghost mut g: Result<Option<Consent>, String> = Ok(None);
    if !native {
        let stored: Option<&Consent> = match &found.consent {
            Some(c) => Some(c),
            None => None,
        };
        let gate = consent_gate::gate(&project.project, stored, found.check, flags, ask, now);
        proof {
            g = gate;
        }
        match gate {
            Ok(new) => {
                accepted = new;
            },
            Err(why) => return Outcome { accepted: None, booted: Err(why) },
        }
    }
    let config: RootConfig = match found.flag {
        Some(Ok(flag)) => match flag.under {
            Ok(_) => flag.config,
            Err(why) => {
                return Outcome {
                    accepted,
                    booted: Err(
                        text::join2("--config is not a consent bypass: ", why.as_str()),
                    ),
                };
            },
        },
        _ => config,
    };
    Outcome {
        accepted,
        booted: Ok(
            Booted {
                config,
                root: Some(found.root),
                resolution: Some(found.resolution),
                runnable: Some(runnable),
                deployment: Some(deployment),
            },
        ),
    }
}

/// The refusal of a profile where there is no root.
pub open spec fn rootless_profile(name: Seq<char>) -> Seq<char> {
    "there is no root here, so '"@ + name
        + "' names no profile; `--config <path>` is the self-contained form"@
}

/// The refusal of arguments where there is no root.
pub open spec fn rootless_arguments() -> Seq<char> {
    "arguments for the entry come from a profile's declared `args`, and there is no root here to resolve one"@
}

/// Boots without a root: the configuration names everything itself, and one
/// that nobody named has the defaults of a local run.
pub fn boot_rootless(
    loaded: Result<RootConfig, String>,
    named: bool,
    profile: Option<&str>,
    overridden: bool,
    features: &Vec<String>,
) -> (r: Result<Booted, String>)
    ensures
        match loaded {
            Err(what) => r matches Err(why) && why@ == what@,
            Ok(config) => match profile {
                Some(name) => r matches Err(why) && why@ == rootless_profile(name@),
                None => if overridden {
                    r matches Err(why) && why@ == rootless_arguments()
                } else {
                    r matches Ok(b) && {
                        &&& b.root is None
                        &&& b.resolution is None
                        &&& b.runnable is None
                        &&& b.deployment is None
                        &&& if named {
                            b.config == config
                        } else {
                            cli::defaulted(b.config, config, text::texts(features@))
                        }
                    }
                },
            },
        },
{
    let mut config = match loaded {
        Ok(c) => c,
        Err(why) => return Err(why),
    };
    if !named {
        cli::local_defaults(&mut config, features);
    }
    if let Some(name) = profile {
        return Err(
            text::join3(
                "there is no root here, so '",
                name,
                "' names no profile; `--config <path>` is the self-contained form",
            ),
        );
    }
    if overridden {
        return Err(
            "arguments for the entry come from a profile's declared `args`, and there is no root here to resolve one".to_owned(),
        );
    }
    Ok(Booted { config, root: None, resolution: None, runnable: None, deployment: None })
}

// ---- laws ----

/// Consent comes before anything that could be wired: where the ceiling has
/// to be asked about and nobody is there, no program is handed on and no
/// acceptance is recorded.
pub proof fn nothing_starts_unaccepted(
    found: Found,
    flags: Flags,
    there: bool,
    now: i64,
    before: Heard,
    after: Heard,
    r: Outcome,
)
    requires
        boots(found, flags, there, now, before, after, r),
        found.check matches Ok(c) && consent_gate::question(c, flags) is Some,
        !there,
    ensures
        r.booted matches Ok(b) ==> b.runnable matches Some(Runnable::Native(_)),
        r.accepted is None,
{
}

/// Where the ceiling has to be asked about, a program is handed on only if
/// the operator is there and answers yes, and only then is an acceptance
/// recorded.
pub proof fn a_program_starts_on_a_yes(
    found: Found,
    flags: Flags,
    there: bool,
    now: i64,
    before: Heard,
    after: Heard,
    r: Outcome,
)
    requires
        boots(found, flags, there, now, before, after, r),
        found.check matches Ok(c) && consent_gate::question(c, flags) is Some,
        (r.booted matches Ok(b) && b.runnable matches Some(Runnable::Program(_))) || r.accepted
            is Some,
    ensures
        there,
        after.answered == before.answered.push(Ok::<bool, String>(true)),
{
    assert(after.answered =~= before.answered.push(after.answered.last()));
}

/// A report holds nothing, so it needs no consent: an entry that the host
/// runs itself asks nothing and records nothing.
pub proof fn a_report_asks_for_no_consent(
    found: Found,
    flags: Flags,
    there: bool,
    now: i64,
    before: Heard,
    after: Heard,
    r: Outcome,
)
    requires
        boots(found, flags, there, now, before, after, r),
        r.booted matches Ok(b) && b.runnable matches Some(Runnable::Native(_)),
    ensures
        r.accepted is None,
        after.asked == before.asked,
{
}

/// What runs is what was deployed: the file of an entry lies below `live/`,
/// never where a deploy reads from.
pub proof fn what_runs_is_live(dir: Seq<char>, name: Seq<char>, path: String)
    requires
        !paths::is_absolute(name),
        !paths::is_absolute(path@),
    ensures
        runs(dir, name, Entry::File(path)) matches Ok(
            RunnableView::Program(ProgramView::Path(p)),
        ) && text::begins(p, drt_root::inside(dir, "live"@)),
{
    let live = drt_root::inside(dir, "live"@);
    let own = paths::joined(live, name);
    let p = paths::joined(own, path@);
    reveal_strlit("live");
    reveal_strlit("/");
    reveal_strlit(".drt_root");
    assert(live.len() > 0);
    assert(own.subrange(0, live.len() as int) =~= live);
    assert(p.subrange(0, live.len() as int) =~= live);
}

/// The file of an entry lies in the deployment that bears the root's name.
pub proof fn an_entry_runs_from_its_deployment(dir: Seq<char>, name: Seq<char>, path: String)
    requires
        dir.len() > 0,
        dir.last() != '/',
        name.len() > 0,
        name[0] != '/',
        name.last() != '/',
        path@.len() == 0 || path@[0] != '/',
    ensures
        runs(dir, name, Entry::File(path)) == Ok::<RunnableView, Seq<char>>(
            RunnableView::Program(
                ProgramView::Path(dir + "/.drt_root/live/"@ + name + "/"@ + path@),
            ),
        ),
{
    deploy::a_deployment_lies_in_live(dir, name);
    let at = deploy::live(dir, name);
    assert(at.last() == name.last());
}

/// A program of the binary runs as what the binary carries under its name, and
/// one that it does not carry does not run.
pub proof fn an_entry_of_the_binary_is_looked_up(dir: Seq<char>, name: Seq<char>, program: String)
    ensures
        match stdlib::carried(program@) {
            Some(Kind::Native(n)) => runs(dir, name, Entry::Stdlib(program)) == Ok::<
                RunnableView,
                Seq<char>,
            >(RunnableView::Native(n@)),
            Some(Kind::Source(s)) => runs(dir, name, Entry::Stdlib(program)) == Ok::<
                RunnableView,
                Seq<char>,
            >(RunnableView::Program(ProgramView::Source(s@))),
            None => runs(dir, name, Entry::Stdlib(program)) is Err,
        },
{
}

proof fn place_is_first(profiles: Seq<(String, RootConfig)>, file: Seq<char>, from: int)
    requires
        0 <= from <= profiles.len(),
    ensures
        match place(profiles, file, from) {
            Some(i) => from <= i < profiles.len() && profiles[i].0@ == file && forall|k: int|
                from <= k < i ==> (#[trigger] profiles[k]).0@ != file,
            None => forall|k: int|
                from <= k < profiles.len() ==> (#[trigger] profiles[k]).0@ != file,
        },
    decreases profiles.len() - from,
{
    if from < profiles.len() && profiles[from].0@ != file {
        place_is_first(profiles, file, from + 1);
    }
}

/// A plan is of the profile that resolved, by the name of its file, and of its
/// entry, under the name that the root deploys under.
pub proof fn a_plan_is_of_the_resolved_profile(
    dir: Seq<char>,
    resolution: Resolution,
    profiles: Seq<(String, RootConfig)>,
    project: Option<Seq<char>>,
)
    ensures
        planned(dir, resolution, profiles, project) matches Ok(plan) ==> {
            &&& resolution.profile is Some
            &&& resolution.entry is Some
            &&& 0 <= plan.profile < profiles.len()
            &&& profiles[plan.profile].0@ == resolution.profile->0.value@ + ".config.json"@
            &&& plan.name == deploy::name_for(dir, project)
            &&& runs(dir, plan.name, resolution.entry->0) == Ok::<RunnableView, Seq<char>>(
                plan.runnable,
            )
        },
        planned(dir, resolution, profiles, project) is Err ==> {
            ||| resolution.profile is None
            ||| resolution.entry is None
            ||| forall|k: int|
                0 <= k < profiles.len() ==> (#[trigger] profiles[k]).0@
                    != resolution.profile->0.value@ + ".config.json"@
            ||| runs(dir, deploy::name_for(dir, project), resolution.entry->0) is Err
        },
{
    if resolution.profile is Some {
        place_is_first(profiles, filename(resolution.profile->0.value@), 0);
    }
}

/// A root inside another is refused or told of as its own policy has it, and
/// otherwise passed in silence.
pub proof fn nesting_is_as_the_root_has_it(policy: AllowNested, outer: Option<Seq<char>>)
    ensures
        outer is None ==> nested_refusal(drt_root::judged(policy, outer)) is None && nested_note(
            drt_root::judged(policy, outer),
        ).len() == 0,
        outer is Some ==> match policy {
            AllowNested::Error => nested_refusal(drt_root::judged(policy, outer)) is Some,
            AllowNested::Warn => nested_refusal(drt_root::judged(policy, outer)) is None
                && nested_note(drt_root::judged(policy, outer)).len() == 1,
            AllowNested::Allow => nested_refusal(drt_root::judged(policy, outer)) is None
                && nested_note(drt_root::judged(policy, outer)).len() == 0,
        },
{
}

/// What ends a start before consent: a named configuration that does not load,
/// the first finding that stops a start, a root without a project, one inside
/// another that forbids it, and a profile that comes to nothing. Nothing else
/// does.
pub proof fn what_ends_a_start_early(found: Found)
    ensures
        stopped(found) is None <==> {
            &&& !(found.flag matches Some(Err(_)))
            &&& forall|i: int|
                0 <= i < found.resolution.findings@.len() ==> !(
                #[trigger] found.resolution.findings@[i]).blocks
            &&& found.project is Some
            &&& nested_refusal(nested(found, found.project->0)) is None
            &&& planned(
                found.root.dir@,
                found.resolution,
                found.profiles@,
                project_name(found.project->0),
            ) is Ok
        },
        found.flag matches Some(Err(why)) ==> stopped(found) == Some(why@),
{
    resolve::the_blocker_is_the_first(found.resolution.findings@, 0);
}

/// What a start hands on without `--config` is the resolved profile's own
/// configuration: its ceiling, its connectors, its relay, the arguments that
/// resolved, and the entry as its program.
pub proof fn a_start_runs_the_resolved_profile(
    found: Found,
    flags: Flags,
    there: bool,
    now: i64,
    before: Heard,
    after: Heard,
    r: Outcome,
)
    requires
        boots(found, flags, there, now, before, after, r),
        found.flag is None,
        r.booted is Ok,
    ensures
        found.resolution.profile is Some,
        found.resolution.entry is Some,
        ({
            let b = r.booted->Ok_0;
            &&& b.root == Some(found.root)
            &&& resolve::same_args(b.config.args@, found.resolution.args@)
            &&& exists|i: int|
                {
                    &&& 0 <= i < found.profiles@.len()
                    &&& (#[trigger] found.profiles@[i]).0@ == found.resolution.profile->0.value@
                        + ".config.json"@
                    &&& b.config.caps == found.profiles@[i].1.caps
                    &&& b.config.connectors == found.profiles@[i].1.connectors
                    &&& b.config.relay == found.profiles@[i].1.relay
                    &&& b.config.dlua_dir == found.profiles@[i].1.dlua_dir
                }
            &&& b.runnable is Some
            &&& runs(
                found.root.dir@,
                deploy::name_for(found.root.dir@, project_name(found.project->0)),
                found.resolution.entry->0,
            ) == Ok::<RunnableView, Seq<char>>(b.runnable->0@)
            &&& b.runnable->0@ matches RunnableView::Program(p) ==> b.config.program is Some
                && b.config.program->0@ == p
            &&& b.deployment is Some && b.deployment->0.deployed == found.deployed
                && b.deployment->0.name@ == deploy::name_for(
                found.root.dir@,
                project_name(found.project->0),
            )
        }),
{
    what_ends_a_start_early(found);
    a_plan_is_of_the_resolved_profile(
        found.root.dir@,
        found.resolution,
        found.profiles@,
        project_name(found.project->0),
    );
    let plan = planned(
        found.root.dir@,
        found.resolution,
        found.profiles@,
        project_name(found.project->0),
    )->Ok_0;
    assert(found.profiles@[plan.profile].0@ == found.resolution.profile->0.value@
        + ".config.json"@);
}

/// A configuration that the command line names takes the place of the
/// profile's only where its ceiling lies under the root's.
pub proof fn a_named_configuration_stays_under_the_ceiling(
    found: Found,
    plan: Planned,
    r: Result<Booted, String>,
)
    requires
        with_consent(found, plan, r),
        found.flag matches Some(Ok(_)),
    ensures
        ({
            let flag = found.flag->0->Ok_0;
            &&& r is Ok <==> flag.under is Ok
            &&& r is Ok ==> r->Ok_0.config == flag.config
            &&& flag.under matches Err(why) ==> r->Err_0@
                == "--config is not a consent bypass: "@ + why@
        }),
{
}

/// What a start deploys goes under the project's name, and comes from the
/// directory that the profile names in the root, or else from what was
/// committed.
pub proof fn a_deployment_comes_from_where_the_profile_says(
    d: Deployment,
    dir: Seq<char>,
    name: Seq<char>,
    profile: RootConfig,
    deployed: bool,
)
    requires
        deploys(d, dir, name, profile, deployed),
        dir.len() > 0,
        dir.last() != '/',
    ensures
        d.name@ == name,
        d.deployed == deployed,
        profile.dlua_dir matches Some(sub) ==> d.source is DluaDir && (sub@.len() == 0 || sub@[0]
            != '/' ==> d.source.spec_path() == dir + "/"@ + sub@),
        profile.dlua_dir is None ==> d.source is Init && d.source.spec_path() == dir
            + "/.drt_root/init"@,
{
    reveal_strlit("/");
    reveal_strlit("/.drt_root/init");
    reveal_strlit(".drt_root");
    reveal_strlit("init");
    if let Some(sub) = profile.dlua_dir {
        paths::a_join_puts_one_separator_between(dir, sub@);
        assert(seq!['/'] =~= "/"@);
    } else {
        paths::a_join_puts_one_separator_between(dir, ".drt_root"@);
        let mid = dir + seq!['/'] + ".drt_root"@;
        assert(mid.last() == 't');
        paths::a_join_puts_one_separator_between(mid, "init"@);
        assert(mid + seq!['/'] + "init"@ =~= dir + "/.drt_root/init"@);
    }
}

/// Before consent is asked about, the operator is told of every file that
/// could not be read, in order, and of the nesting once nothing stops the
/// start.
pub proof fn what_could_not_be_read_is_told(found: Found, i: int)
    requires
        0 <= i < found.soft@.len(),
    ensures
        told_first(found).len() >= found.soft@.len(),
        told_first(found)[i] == "drt start: "@ + found.soft@[i]@,
        !(found.flag matches Some(Err(_))) && (forall|k: int|
            0 <= k < found.resolution.findings@.len()
                ==> !(#[trigger] found.resolution.findings@[k]).blocks) ==> (
        found.project matches Some(p) ==> told_first(found).subrange(
            found.soft@.len() as int,
            told_first(found).len() as int,
        ) == nested_note(nested(found, p))),
{
    resolve::the_blocker_is_the_first(found.resolution.findings@, 0);
    let soft = soft_lines(text::texts(found.soft@));
    if let Some(p) = found.project {
        let note = nested_note(nested(found, p));
        assert((soft + note).subrange(soft.len() as int, (soft + note).len() as int) =~= note);
    }
}

/// Once consent is given, a start has the root and the resolution it was asked
/// about, and runs what was planned.
pub proof fn consent_leads_to_what_was_planned(
    found: Found,
    plan: Planned,
    r: Result<Booted, String>,
)
    requires
        with_consent(found, plan, r),
        r is Ok,
    ensures
        ({
            let b = r->Ok_0;
            &&& b.root == Some(found.root)
            &&& b.resolution == Some(found.resolution)
            &&& b.runnable is Some && b.runnable->0@ == plan.runnable
            &&& b.deployment is Some && b.deployment->0.name@ == plan.name
                && b.deployment->0.deployed == found.deployed
        }),
{
}

/// A plan that cannot be made says what is missing: a profile, its file, its
/// entry, or the program that the entry names.
pub proof fn a_missing_plan_says_what_is_missing(
    dir: Seq<char>,
    resolution: Resolution,
    profiles: Seq<(String, RootConfig)>,
    project: Option<Seq<char>>,
    name: Seq<char>,
    program: String,
)
    ensures
        resolution.profile is None ==> planned(dir, resolution, profiles, project) == Err::<
            Planned,
            Seq<char>,
        >("no profile resolved, and nothing said why"@),
        resolution.profile matches Some(p) ==> (forall|i: int|
            0 <= i < profiles.len() ==> (#[trigger] profiles[i]).0@ != p.value@ + ".config.json"@)
            ==> planned(dir, resolution, profiles, project) == Err::<Planned, Seq<char>>(
            "'"@ + (p.value@ + ".config.json"@) + "' is declared but not in profile/"@,
        ),
        resolution.profile matches Some(p) ==> resolution.entry is None && (exists|i: int|
            0 <= i < profiles.len() && (#[trigger] profiles[i]).0@ == p.value@ + ".config.json"@)
            ==> planned(dir, resolution, profiles, project) == Err::<Planned, Seq<char>>(
            "profile '"@ + p.value@ + "' declares no entry"@,
        ),
        stdlib::carried(program@) is None ==> runs(dir, name, Entry::Stdlib(program)) == Err::<
            RunnableView,
            Seq<char>,
        >(
            "this build carries no stdlib program called '"@ + program@ + "'; it carries "@
                + stdlib::listed(),
        ),
{
    if let Some(p) = resolution.profile {
        place_is_first(profiles, p.value@ + ".config.json"@, 0);
    }
}

/// A root below another is named with the outer one, where that is refused and
/// where it is only noted.
pub proof fn the_outer_root_is_named(outer: Seq<char>, profile: Seq<char>)
    ensures
        nested_refusal(NestingView::Refused { outer }) == Some(
            "this root is nested beneath "@ + outer + " and its `allow_nested` is \"error\""@,
        ),
        nested_note(NestingView::Refused { outer }).len() == 0,
        nested_refusal(NestingView::Warn { outer }) is None,
        nested_note(NestingView::Warn { outer }) == seq![
            "drt start: this root is nested beneath "@ + outer
                + " -- they are peers, not parent and child, and neither knows about the other. Set `allow_nested` to silence this."@,
        ],
        rootless_profile(profile) == "there is no root here, so '"@ + profile
            + "' names no profile; `--config <path>` is the self-contained form"@,
{
}

} // verus!
