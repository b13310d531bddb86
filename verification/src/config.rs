//! The root configuration: what is checked when it is loaded, where its
//! program lies, and what a run may reach.

use crate::grants;
use crate::grants::{Effect, Grant, GrantView};
use crate::paths;
use crate::resolve::ArgValue;
use crate::text;
use vstd::prelude::*;

verus! {

/// What an instance loads.
#[derive(Debug)]
pub enum Program {
    /// A file.
    Path(String),
    /// Source.
    Source(String),
}

/// What a program is.
#[verifier::ext_equal]
pub enum ProgramView {
    Path(Seq<char>),
    Source(Seq<char>),
}

impl Program {
    /// The program, as mathematics.
    pub open spec fn view(&self) -> ProgramView {
        match self {
            Program::Path(p) => ProgramView::Path(p@),
            Program::Source(s) => ProgramView::Source(s@),
        }
    }

    /// A copy of the program.
    pub fn copied(&self) -> (r: Program)
        ensures
            r == *self,
    {
        match self {
            Program::Path(p) => Program::Path(p.clone()),
            Program::Source(s) => Program::Source(s.clone()),
        }
    }
}

/// How a connector is wired: the scope that the configuration gives it, as
/// it is written there.
#[derive(Debug)]
pub struct Wiring {
    pub scope: Option<String>,
}

/// A configuration, as far as the runtime decides by it.
#[derive(Debug)]
pub struct RootConfig {
    pub program: Option<Program>,
    pub caps: Vec<Grant>,
    pub dlua_dir: Option<String>,
    pub args: Vec<(String, ArgValue)>,
    /// The connectors by name, in the order of their names.
    pub connectors: Vec<(String, Wiring)>,
    pub relay: Option<RelayConfig>,
}

/// The two keys of one label.
#[derive(Debug)]
pub struct LabelKeys {
    pub park_key: String,
    pub caller_key: String,
}

/// The relay's block: the address it binds, and its labels by name.
#[derive(Debug)]
pub struct RelayConfig {
    pub bind: String,
    pub labels: Vec<(String, LabelKeys)>,
}

/// The path of a program: one that is not absolute lies beside the
/// configuration.
pub open spec fn program_path(program: Seq<char>, config: Seq<char>) -> Seq<char> {
    if paths::is_absolute(program) {
        program
    } else {
        match paths::parent(config) {
            Some(dir) => paths::joined(dir, program),
            None => paths::joined("."@, program),
        }
    }
}

/// Makes the path of a program relative to the configuration that names it.
/// A program that is no path stays as it is.
pub fn resolve_program(program: Option<Program>, config: &str) -> (r: Option<Program>)
    ensures
        match program {
            Some(Program::Path(p)) => r matches Some(Program::Path(q)) && q@ == program_path(
                p@,
                config@,
            ),
            _ => r == program,
        },
{
    match program {
        Some(Program::Path(p)) => {
            if paths::absolute(p.as_str()) {
                return Some(Program::Path(p));
            }
            let joined = match paths::parent_of(config) {
                Some(dir) => paths::join(dir.as_str(), p.as_str()),
                None => paths::join(".", p.as_str()),
            };
            Some(Program::Path(joined))
        },
        other => other,
    }
}

/// Whether an address names a port that can be handed out.
pub open spec fn names_port(bind: Seq<char>) -> bool {
    match text::rsplit_once(bind, ':') {
        Some((host, port)) => text::number(port, u16::MAX as nat) matches Some(n) && n != 0,
        None => false,
    }
}

/// The place of the first label, from `i` on, that lacks a key.
pub open spec fn keyless(labels: Seq<(String, LabelKeys)>, i: int) -> Option<int>
    decreases labels.len() - i,
{
    if i < 0 || i >= labels.len() {
        None
    } else if labels[i].1.park_key@.len() == 0 || labels[i].1.caller_key@.len() == 0 {
        Some(i)
    } else {
        keyless(labels, i + 1)
    }
}

/// Why a configuration is refused, if it is: its relay binds no port, or a
/// label lacks a key.
pub open spec fn refused(relay: Option<RelayConfig>) -> Option<Seq<char>> {
    match relay {
        None => None,
        Some(r) => if !names_port(r.bind@) {
            Some("relay.bind is '"@ + r.bind@ + "', which names no port; write host:port"@)
        } else {
            match keyless(r.labels@, 0) {
                Some(i) => Some(
                    "relay.labels."@ + r.labels@[i].0@
                        + " needs both park_key and caller_key; an absent key refuses every leg"@,
                ),
                None => None,
            }
        },
    }
}

/// Checks what the shape of a configuration does not show.
pub fn validate(block: &Option<RelayConfig>) -> (r: Result<(), String>)
    ensures
        match refused(*block) {
            Some(what) => r matches Err(why) && why@ == what,
            None => r is Ok,
        },
{
    let relay = match block {
        None => return Ok(()),
        Some(r) => r,
    };
    let named: bool = match text::cut_at_last(relay.bind.as_str(), ':') {
        Some((host, port)) => match text::parse(port.as_str(), u16::MAX as u64) {
            Some(n) => n != 0,
            None => false,
        },
        None => false,
    };
    if !named {
        return Err(
            text::join3(
                "relay.bind is '",
                relay.bind.as_str(),
                "', which names no port; write host:port",
            ),
        );
    }
    let mut i: usize = 0;
    while i < relay.labels.len()
        invariant
            i <= relay.labels.len(),
            *block == Some(*relay),
            names_port(relay.bind@),
            keyless(relay.labels@, 0) == keyless(relay.labels@, i as int),
        decreases relay.labels.len() - i,
    {
        if relay.labels[i].1.park_key.as_str().is_empty()
            || relay.labels[i].1.caller_key.as_str().is_empty() {
            return Err(
                text::join3(
                    "relay.labels.",
                    relay.labels[i].0.as_str(),
                    " needs both park_key and caller_key; an absent key refuses every leg",
                ),
            );
        }
        i = i + 1;
    }
    Ok(())
}

/// Takes a configuration that was read from a file: it is checked, in the
/// name of the file, and its program is made relative to the file.
pub fn accept(path: &str, config: RootConfig) -> (r: Result<RootConfig, String>)
    ensures
        match refused(config.relay) {
            Some(what) => r matches Err(why) && why@ == path@ + ": "@ + what,
            None => r matches Ok(c) && accepted(c, config, path@),
        },
{
    if let Err(why) = validate(&config.relay) {
        return Err(text::join3(path, ": ", why.as_str()));
    }
    let mut config = config;
    let program = config.program;
    config.program = resolve_program(program, path);
    Ok(config)
}

/// Whether a configuration is the one that a file holds, accepted.
pub open spec fn accepted(c: RootConfig, config: RootConfig, path: Seq<char>) -> bool {
    &&& c.caps == config.caps
    &&& c.dlua_dir == config.dlua_dir
    &&& c.args == config.args
    &&& c.connectors == config.connectors
    &&& c.relay == config.relay
    &&& match config.program {
        Some(Program::Path(p)) => c.program matches Some(Program::Path(q)) && q@ == program_path(
            p@,
            path,
        ),
        _ => c.program == config.program,
    }
}

/// Whether a configuration says nothing: it grants nothing and wires nothing.
pub open spec fn is_empty(c: RootConfig) -> bool {
    &&& c.program is None
    &&& c.caps@.len() == 0
    &&& c.dlua_dir is None
    &&& c.args@.len() == 0
    &&& c.connectors@.len() == 0
    &&& c.relay is None
}

impl Default for RootConfig {
    fn default() -> (r: RootConfig)
        ensures
            is_empty(r),
    {
        RootConfig {
            program: None,
            caps: Vec::new(),
            dlua_dir: None,
            args: Vec::new(),
            connectors: Vec::new(),
            relay: None,
        }
    }
}

/// Takes a configuration. Where no file is named it is the empty one; else
/// `read` is how the file reads: whether it could be read at all, and what it
/// parses as.
pub fn load(path: Option<&str>, read: Result<Result<RootConfig, String>, String>) -> (r: Result<
    RootConfig,
    String,
>)
    ensures
        match path {
            None => r matches Ok(c) && is_empty(c),
            Some(p) => match read {
                Err(e) => r matches Err(why) && why@ == "cannot read "@ + p@ + ": "@ + e@,
                Ok(Err(e)) => r matches Err(why) && why@ == p@ + ": "@ + e@,
                Ok(Ok(config)) => match refused(config.relay) {
                    Some(what) => r matches Err(why) && why@ == p@ + ": "@ + what,
                    None => r matches Ok(c) && accepted(c, config, p@),
                },
            },
        },
{
    let p: &str = match path {
        None => return Ok(RootConfig::default()),
        Some(p) => p,
    };
    match read {
        Err(e) => Err(text::join4("cannot read ", p, ": ", e.as_str())),
        Ok(Err(e)) => Err(text::join3(p, ": ", e.as_str())),
        Ok(Ok(config)) => accept(p, config),
    }
}

/// What a run may reach: the ceiling that is named, or everything on the
/// host where none is.
pub open spec fn reach(caps: Seq<GrantView>) -> Seq<GrantView> {
    if caps.len() == 0 {
        seq![GrantView { effect: Effect::Grant, capability: "host:*"@ }]
    } else {
        caps
    }
}

/// What a run may reach.
pub fn ceiling(caps: &Vec<Grant>) -> (r: Vec<Grant>)
    ensures
        grants::views(r@) == reach(grants::views(caps@)),
{
    if caps.len() == 0 {
        let mut r: Vec<Grant> = Vec::new();
        r.push(Grant::grant("host:*"));
        assert(grants::views(r@) =~= reach(grants::views(caps@)));
        r
    } else {
        grants::copied(caps)
    }
}

/// What probing one key of a refused configuration by itself came to: the
/// message, and how many steps its path has.
#[derive(Debug)]
pub struct Probe {
    pub steps: usize,
    pub message: String,
}

/// The first probe, from `i` on, whose path leads into a block.
pub open spec fn blamed(probes: Seq<Option<Probe>>, i: int) -> Option<Seq<char>>
    decreases probes.len() - i,
{
    if i < 0 || i >= probes.len() {
        None
    } else {
        match probes[i] {
            Some(p) => if p.steps >= 2 {
                Some(p.message@)
            } else {
                blamed(probes, i + 1)
            },
            None => blamed(probes, i + 1),
        }
    }
}

/// The message of a refused configuration: one that says where it sits
/// stands; else the first probe of a key that leads into a block says it.
/// `probes` is what probing each key in turn came to, where the text is an
/// object.
pub fn located(message: String, placed: bool, probes: &Option<Vec<Option<Probe>>>) -> (r: String)
    ensures
        r@ == (if placed {
            message@
        } else {
            match probes {
                Some(ps) => match blamed(ps@, 0) {
                    Some(m) => m,
                    None => message@,
                },
                None => message@,
            }
        }),
{
    if placed {
        return message;
    }
    if let Some(ps) = probes {
        let mut i: usize = 0;
        while i < ps.len()
            invariant
                i <= ps.len(),
                !placed,
                *probes == Some(*ps),
                blamed(ps@, 0) == blamed(ps@, i as int),
            decreases ps.len() - i,
        {
            if let Some(p) = &ps[i] {
                if p.steps >= 2 {
                    return p.message.clone();
                }
            }
            i = i + 1;
        }
    }
    message
}

// ---- laws ----

/// What passes the check can serve: its relay binds a port, and every label
/// has both keys.
pub proof fn a_valid_relay_can_serve(relay: RelayConfig)
    requires
        refused(Some(relay)) is None,
    ensures
        names_port(relay.bind@),
        forall|i: int|
            0 <= i < relay.labels@.len() ==> (#[trigger] relay.labels@[i]).1.park_key@.len() > 0
                && relay.labels@[i].1.caller_key@.len() > 0,
{
    all_keyed(relay.labels@, 0);
}

proof fn all_keyed(labels: Seq<(String, LabelKeys)>, from: int)
    requires
        0 <= from <= labels.len(),
        keyless(labels, from) is None,
    ensures
        forall|i: int|
            from <= i < labels.len() ==> (#[trigger] labels[i]).1.park_key@.len() > 0
                && labels[i].1.caller_key@.len() > 0,
    decreases labels.len() - from,
{
    if from < labels.len() {
        all_keyed(labels, from + 1);
    }
}

/// A program lies beside the configuration that names it, unless it names a
/// place from the root of the file system.
pub proof fn a_program_lies_beside_its_configuration(
    program: Seq<char>,
    dir: Seq<char>,
    name: Seq<char>,
)
    requires
        paths::is_name(name),
        dir.len() > 0,
        dir.last() != '/',
        !(dir.len() > 1 && dir.last() == '.' && dir[dir.len() - 2] == '/'),
    ensures
        program.len() > 0 && program[0] == '/' ==> program_path(program, dir + "/"@ + name)
            == program,
        program.len() == 0 || program[0] != '/' ==> program_path(program, dir + "/"@ + name) == dir
            + seq!['/'] + program,
        program_path(program, name) == program,
{
    paths::a_name_is_the_last_part(dir, name);
    paths::a_join_puts_one_separator_between(dir, program);
    paths::a_join_puts_one_separator_between(Seq::empty(), program);
}

/// An address names a port by what stands behind its last colon, and the port
/// is one from 1 to 65535.
pub proof fn an_address_names_its_port(host: Seq<char>, n: nat)
    ensures
        names_port(host + seq![':'] + text::dec(n)) <==> 1 <= n <= 65_535,
        !host.contains(':') ==> !names_port(host),
{
    text::decimal_reads_back(n);
    let p = text::dec(n);
    let s = host + seq![':'] + p;
    let at = host.len() as int;
    text::last_is_latest(s, ':');
    assert(s[at] == ':');
    assert forall|k: int| at < k < s.len() implies s[k] != ':' by {
        assert(s[k] == p[k - at - 1]);
        assert(text::is_digit(p[k - at - 1]));
    }
    assert(s.subrange(0, at) =~= host);
    assert(s.subrange(at + 1, s.len() as int) =~= p);
    assert(text::is_digit(p[0]));
    assert(text::unsigned_part(p) == p);
    text::a_cut_loses_the_character_alone(host, ':');
}

proof fn keyless_is_first(labels: Seq<(String, LabelKeys)>, from: int)
    requires
        0 <= from <= labels.len(),
    ensures
        match keyless(labels, from) {
            Some(i) => {
                &&& from <= i < labels.len()
                &&& labels[i].1.park_key@.len() == 0 || labels[i].1.caller_key@.len() == 0
                &&& forall|k: int|
                    from <= k < i ==> (#[trigger] labels[k]).1.park_key@.len() > 0
                        && labels[k].1.caller_key@.len() > 0
            },
            None => forall|k: int|
                from <= k < labels.len() ==> (#[trigger] labels[k]).1.park_key@.len() > 0
                    && labels[k].1.caller_key@.len() > 0,
        },
    decreases labels.len() - from,
{
    if from < labels.len() && labels[from].1.park_key@.len() > 0
        && labels[from].1.caller_key@.len() > 0 {
        keyless_is_first(labels, from + 1);
    }
}

/// A configuration is refused exactly where its relay binds no port or one of
/// its labels lacks a key, and the refusal names the address, or the first
/// such label.
pub proof fn what_is_refused(relay: Option<RelayConfig>)
    ensures
        refused(relay) is None <==> {
            ||| relay is None
            ||| names_port(relay->0.bind@) && forall|i: int|
                0 <= i < relay->0.labels@.len() ==> (#[trigger] relay->0.labels@[i]).1.park_key@.len()
                    > 0 && relay->0.labels@[i].1.caller_key@.len() > 0
        },
        relay matches Some(r) ==> (!names_port(r.bind@) ==> (refused(relay) matches Some(why)
            && text::contains(why, r.bind@))),
        relay matches Some(r) ==> forall|i: int|
            names_port(r.bind@) && 0 <= i < r.labels@.len() && ((#[trigger] r.labels@[i]).1.park_key@.len() == 0
                || r.labels@[i].1.caller_key@.len() == 0) && (forall|k: int|
                0 <= k < i ==> (#[trigger] r.labels@[k]).1.park_key@.len() > 0
                    && r.labels@[k].1.caller_key@.len() > 0) ==> (refused(relay) matches Some(why)
                && text::contains(why, r.labels@[i].0@)),
{
    if let Some(r) = relay {
        if !names_port(r.bind@) {
            let why = refused(relay)->0;
            assert(why.subrange("relay.bind is '"@.len() as int, ("relay.bind is '"@.len()
                + r.bind@.len()) as int) =~= r.bind@);
            assert(text::stands_at(why, r.bind@, "relay.bind is '"@.len() as int));
        } else if let Some(i) = keyless(r.labels@, 0) {
            keyless_is_first(r.labels@, 0);
            let why = refused(relay)->0;
            let name = r.labels@[i].0@;
            assert(why.subrange("relay.labels."@.len() as int, ("relay.labels."@.len()
                + name.len()) as int) =~= name);
            assert(text::stands_at(why, name, "relay.labels."@.len() as int));
        }
        keyless_is_first(r.labels@, 0);
    }
}

/// What is accepted is what the file holds, but for the path of its program.
pub proof fn what_is_accepted_is_the_file(c: RootConfig, config: RootConfig, path: Seq<char>)
    requires
        accepted(c, config, path),
    ensures
        c.caps == config.caps,
        c.connectors == config.connectors,
        c.relay == config.relay,
        c.args == config.args,
        c.dlua_dir == config.dlua_dir,
        config.program matches Some(Program::Path(p)) ==> (c.program matches Some(Program::Path(q))
            && q@ == program_path(p@, path)),
        !(config.program matches Some(Program::Path(_))) ==> c.program == config.program,
{
}

/// A run is held to the ceiling that it names, and reaches the whole host
/// where it names none.
pub proof fn a_run_is_held_to_its_ceiling(caps: Seq<GrantView>)
    ensures
        caps.len() > 0 ==> reach(caps) == caps,
        caps.len() == 0 ==> reach(caps) == seq![
            GrantView { effect: Effect::Grant, capability: "host:*"@ },
        ],
{
}

/// The blame falls on the first key that leads into a block.
pub proof fn the_first_block_is_blamed(probes: Seq<Option<Probe>>, from: int, i: int)
    requires
        0 <= from <= i <= probes.len(),
        forall|k: int|
            from <= k < i ==> ((#[trigger] probes[k]) matches Some(p) ==> p.steps < 2),
        i < probes.len() ==> (probes[i] matches Some(p) && p.steps >= 2),
    ensures
        blamed(probes, from) == (if i < probes.len() {
            Some(probes[i]->0.message@)
        } else {
            None
        }),
    decreases i - from,
{
    if from < i {
        assert(probes[from] matches Some(p) ==> p.steps < 2);
        the_first_block_is_blamed(probes, from + 1, i);
    }
}

/// Where no file is named nothing is granted, nothing is wired and nothing
/// runs.
pub proof fn no_file_grants_nothing(c: RootConfig)
    ensures
        is_empty(c) <==> c.program is None && c.caps@.len() == 0 && c.dlua_dir is None
            && c.args@.len() == 0 && c.connectors@.len() == 0 && c.relay is None,
{
}

} // verus!
