use drt::boot::{
    boot_root, boot_rootless, entry_runnable, nesting, Deployment, FlagConfig, Found, Outcome,
    ProjectJson, Runnable,
};
use drt::config::{
    accept, ceiling, load, located, resolve_program, validate, LabelKeys, Probe, Program, RelayConfig,
    RootConfig, Wiring,
};
use drt::consent_gate::{Ask, ConsentCheck, Flags, Project};
use drt::deploy::Source;
use drt::drt_root::{
    binary_version, discover, merged, pin_string, AllowNested, Nesting, Root, VERSION,
};
use drt::grants::Grant;
use drt::key::{decision_path, lifetime, new, sign, DEFAULT_HOURS};
use drt::resolve::{ArgValue, Decided, Entry, Finding, Resolution};

fn root() -> Root {
    Root { dir: "/r".to_string() }
}

fn config() -> RootConfig {
    RootConfig {
        program: None,
        caps: Vec::new(),
        dlua_dir: None,
        args: Vec::new(),
        connectors: Vec::new(),
        relay: None,
    }
}

// ---- drt_root ----

#[test]
fn a_release_tag_is_the_pin_and_loses_its_v() {
    assert_eq!(pin_string(Some("v0.5.0rc9"), "0.5.0"), "0.5.0rc9");
    assert_eq!(pin_string(Some("v0.5.0"), "0.5.0"), "0.5.0");
    assert_eq!(pin_string(Some("0.5.0rc9"), "0.5.0"), "0.5.0rc9");
}

#[test]
fn no_tag_is_the_crate_version_exactly_as_before() {
    assert_eq!(pin_string(None, "0.5.0"), "0.5.0");
    assert_eq!(pin_string(Some(""), "0.5.0"), "0.5.0");
    assert_eq!(pin_string(Some("   "), "0.5.0"), "0.5.0");
}

#[test]
fn this_binary_reports_its_crate_version() {
    assert_eq!(binary_version(None), VERSION);
    assert_eq!(binary_version(None), "0.5.0");
}

fn debug_profile() -> RootConfig {
    let mut c = config();
    c.dlua_dir = Some("src".to_string());
    c
}

#[test]
fn a_root_is_found_in_the_working_directory_and_read() {
    let dirs = vec!["/r/.drt_root".to_string()];
    let root = discover("/r", None, &dirs).expect("a root is here");
    assert_eq!(root.dir, "/r");
    let profiles = vec![("debug.config.json".to_string(), Some(Ok(debug_profile())))];
    let no_consent: Option<Result<(), String>> = None;
    let inputs = root.read(Some(Ok("project")), no_consent, profiles);
    assert!(inputs.soft.is_empty(), "{:?}", inputs.soft);
    assert!(inputs.project.is_some());
    assert!(inputs.consent.is_none(), "a first start has no consent file");
    assert_eq!(inputs.profiles.len(), 1);
    assert_eq!(inputs.profiles[0].0, "debug.config.json");
    assert_eq!(root.dlua_dirs(&inputs.profiles), ["/r/src"]);
    assert_eq!(merged(&vec!["app.dlua".to_string()]), ["app.dlua"]);
}

#[test]
fn an_unparseable_profile_is_reported_rather_than_fatal() {
    let dirs = vec!["/r/.drt_root".to_string()];
    let root = discover("/r", None, &dirs).unwrap();
    let broken = Err("key must be a string at line 1 column 3".to_string());
    let profiles = vec![
        ("broken.config.json".to_string(), Some(broken)),
        ("debug.config.json".to_string(), Some(Ok(debug_profile()))),
        ("gone.config.json".to_string(), None),
    ];
    let no_consent: Option<Result<(), String>> = None;
    let inputs = root.read(Some(Ok(())), no_consent, profiles);
    assert_eq!(inputs.soft.len(), 1, "{:?}", inputs.soft);
    assert_eq!(
        inputs.soft[0],
        "/r/.drt_root/profile/broken.config.json: key must be a string at line 1 column 3"
    );
    let names: Vec<&str> = inputs.profiles.iter().map(|p| p.0.as_str()).collect();
    assert_eq!(names, ["debug.config.json"]);
}

#[test]
fn consent_is_written_beside_project_json_and_reads_back() {
    let (dir, path, text) = root().write_consent("{}");
    assert_eq!(dir, "/r/.drt_root");
    assert_eq!(path, "/r/.drt_root/consent.json");
    assert_eq!(root().project_json(), "/r/.drt_root/project.json");
    assert_eq!(text, "{}\n");
    let none: Vec<(String, Option<Result<RootConfig, String>>)> = Vec::new();
    let inputs = root().read(Some(Ok(())), Some(Ok(text.as_str())), none);
    assert!(inputs.soft.is_empty(), "{:?}", inputs.soft);
    assert_eq!(inputs.consent, Some("{}\n"));
}

#[test]
fn discovery_does_not_walk_up() {
    let dirs = vec!["/r/.drt_root".to_string()];
    assert!(discover("/r", None, &dirs).is_some());
    assert!(
        discover("/r/build", None, &dirs).is_none(),
        "an unclaimed subdirectory of a root is not in that root"
    );
    assert_eq!(discover("/elsewhere", Some("/r"), &dirs).unwrap().dir, "/r");
}

#[test]
fn the_nesting_check_walks_up_and_the_inner_root_governs() {
    let dirs = vec!["/r/.drt_root".to_string(), "/r/nested/.drt_root".to_string()];
    let inner = Root { dir: "/r/nested".to_string() };
    assert!(matches!(
        inner.nesting(AllowNested::Warn, &dirs),
        Nesting::Warn { outer } if outer == "/r"
    ));
    assert!(matches!(
        inner.nesting(AllowNested::Error, &dirs),
        Nesting::Refused { outer } if outer == "/r"
    ));
    assert!(matches!(
        inner.nesting(AllowNested::Allow, &dirs),
        Nesting::Allowed { outer } if outer == "/r"
    ));
    assert!(matches!(root().nesting(AllowNested::Error, &dirs), Nesting::Free));
    assert_eq!(inner.above(), ["/r/.drt_root", "/.drt_root"]);
}

#[test]
fn the_state_directories_are_made_idempotently() {
    assert_eq!(
        root().state_dirs(),
        [root().gsr_pending(), root().gsr_decided()]
    );
    assert_eq!(root().gsr_pending(), "/r/.drt_root/state/gsr/pending");
    assert_eq!(root().gsr_decided(), "/r/.drt_root/state/gsr/decided");
    assert!(
        !root().consent_json().starts_with(&root().state()),
        "consent.json is not in state/, and ensure_state does not invent it"
    );
}

#[test]
fn listings_are_sorted_and_each_name_is_once() {
    let names: Vec<String> = ["b.dlua", "a.dlua", "b.dlua", "a"]
        .iter()
        .map(|s| s.to_string())
        .collect();
    assert_eq!(merged(&names), ["a", "a.dlua", "b.dlua"]);
}

// ---- config ----

fn relay(bind: &str, park: &str, caller: &str) -> Option<RelayConfig> {
    Some(RelayConfig {
        bind: bind.to_string(),
        labels: vec![(
            "xps".to_string(),
            LabelKeys { park_key: park.to_string(), caller_key: caller.to_string() },
        )],
    })
}

#[test]
fn a_blank_relay_key_is_refused_by_name_at_load() {
    for (park, caller) in [("", "c"), ("p", ""), ("", "")] {
        let Err(e) = validate(&relay("0.0.0.0:8443", park, caller)) else {
            panic!("({park:?}, {caller:?}) must be refused");
        };
        assert!(e.contains("xps"), "the label is named: {e}");
        assert!(e.contains("refuses every leg"), "{e}");
    }
    assert!(validate(&relay("0.0.0.0:8443", "p", "c")).is_ok());
}

#[test]
fn a_relay_bind_without_a_usable_port_is_refused() {
    for bind in ["0.0.0.0", "0.0.0.0:", "0.0.0.0:0", "8443"] {
        assert!(
            validate(&relay(bind, "p", "c")).is_err(),
            "'{bind}' names no port"
        );
    }
    for bind in ["0.0.0.0:8443", "relay.example:8443", "[::1]:8443"] {
        assert!(validate(&relay(bind, "p", "c")).is_ok(), "'{bind}' is fine");
    }
}

#[test]
fn a_relative_program_resolves_against_the_config() {
    let mut c = config();
    c.program = Some(Program::Path("app.dlua".to_string()));
    let loaded = accept("/r/deploy/app.json", c).unwrap();
    assert!(matches!(
        loaded.program,
        Some(Program::Path(p)) if p == "/r/deploy/app.dlua"
    ));
}

#[test]
fn a_configuration_that_is_not_there_grants_nothing() {
    let empty = load(None, Err("unused".to_string())).unwrap();
    assert!(empty.program.is_none() && empty.caps.is_empty() && empty.connectors.is_empty());
    assert_eq!(
        load(Some("a.json"), Err("gone".to_string())).unwrap_err(),
        "cannot read a.json: gone"
    );
    assert_eq!(
        load(Some("a.json"), Ok(Err("bad".to_string()))).unwrap_err(),
        "a.json: bad"
    );
    let mut good = config();
    good.program = Some(Program::Path("app.dlua".to_string()));
    let good = load(Some("/d/a.json"), Ok(Ok(good))).unwrap();
    assert!(matches!(good.program, Some(Program::Path(p)) if p == "/d/app.dlua"));
    let mut bad = config();
    bad.relay = relay("0.0.0.0", "p", "c");
    assert_eq!(
        load(Some("a.json"), Ok(Ok(bad))).unwrap_err(),
        "a.json: relay.bind is '0.0.0.0', which names no port; write host:port"
    );
}

#[test]
fn a_refused_configuration_names_its_file() {
    let mut c = config();
    c.relay = relay("0.0.0.0", "p", "c");
    assert_eq!(
        accept("/r/app.json", c).unwrap_err(),
        "/r/app.json: relay.bind is '0.0.0.0', which names no port; write host:port"
    );
}

fn resolved(program: &str, config: &str) -> String {
    match resolve_program(Some(Program::Path(program.to_string())), config) {
        Some(Program::Path(p)) => p,
        other => panic!("still a path, got {other:?}"),
    }
}

#[test]
fn joining_handles_a_bare_config_name_and_an_absolute_program() {
    assert_eq!(resolved("a.dlua", "app.json"), "a.dlua");
    assert_eq!(resolved("a.dlua", "deploy/app.json"), "deploy/a.dlua");
    assert_eq!(
        resolved("/opt/fp/a.dlua", "/etc/drt/app.json"),
        "/opt/fp/a.dlua"
    );
}

#[test]
fn a_config_with_no_relay_passes() {
    assert!(validate(&None).is_ok());
    assert!(validate(&Some(RelayConfig {
        bind: "0.0.0.0:8443".to_string(),
        labels: Vec::new(),
    }))
    .is_ok());
}

#[test]
fn a_run_without_a_ceiling_reaches_the_host() {
    let wide = ceiling(&Vec::new());
    assert_eq!(wide.len(), 1);
    assert_eq!(wide[0].capability, "host:*");
    let named = ceiling(&vec![Grant::grant("host:fs/read")]);
    assert_eq!(named[0].capability, "host:fs/read");
}

#[test]
fn a_refusal_is_placed_where_a_probe_places_it() {
    let probes = Some(vec![
        None,
        Some(Probe { steps: 1, message: "caps".to_string() }),
        Some(Probe { steps: 2, message: "numeric.max_element".to_string() }),
    ]);
    assert_eq!(
        located("unknown field".to_string(), false, &probes),
        "numeric.max_element"
    );
    assert_eq!(located("relay.x".to_string(), true, &probes), "relay.x");
    assert_eq!(located("x".to_string(), false, &None), "x");
}

// ---- key ----

const NOW: i64 = 1_789_171_200;

#[test]
fn the_default_lifetime_is_an_hour() {
    assert_eq!(lifetime(None, NOW, "").unwrap() - NOW, DEFAULT_HOURS * 3_600);
    assert_eq!(lifetime(None, NOW, "").unwrap() - NOW, 3_600);
}

#[test]
fn an_already_expired_decision_is_refused_at_signing_time() {
    let e = lifetime(Some(1_577_836_800), NOW, "2020-01-01T00:00:00Z").unwrap_err();
    assert!(e.contains("not in the future"), "{e}");
    assert!(e.contains("2020-01-01T00:00:00Z"), "{e}");
}

#[test]
fn a_decision_is_signed_only_over_what_reads() {
    let good = Ok(Ok(()));
    let go = |key: &Result<Result<(), String>, String>,
              request: &Result<Result<(), String>, String>,
              not_after: Option<i64>| {
        sign("k", key, "/p/h1.json", request, "/d", not_after, 100, "then")
    };
    let signed = go(&good, &good, None).unwrap();
    assert_eq!((signed.not_after, signed.path.as_str()), (3_700, "/d/h1.json"));
    let gone = Err("gone".to_string());
    let bad = Ok(Err("bad".to_string()));
    assert_eq!(go(&gone, &gone, None).unwrap_err(), "cannot read k: gone");
    assert_eq!(go(&bad, &gone, None).unwrap_err(), "k: bad");
    assert_eq!(go(&good, &gone, None).unwrap_err(), "cannot read /p/h1.json: gone");
    assert_eq!(
        go(&good, &bad, None).unwrap_err(),
        "/p/h1.json is not a grant request: bad"
    );
    assert!(go(&good, &good, Some(100)).unwrap_err().starts_with("--not-after then is not in the"));
    // A date that is named is taken as it is, however late the clock.
    let late = sign("k", &good, "/p/h1.json", &good, "/d", Some(i64::MAX), i64::MAX - 1, "then");
    assert_eq!(late.unwrap().not_after, i64::MAX);
}

#[test]
fn a_key_file_is_never_overwritten() {
    assert!(new("/r/k", false).is_ok());
    let e = new("/r/k", true).unwrap_err();
    assert!(e.contains("never overwritten"), "{e}");
}

#[test]
fn a_decision_is_named_after_its_request() {
    assert_eq!(
        decision_path("/r/decided", "/r/pending/0192.json"),
        "/r/decided/0192.json"
    );
    assert_eq!(decision_path("/r/decided", "/"), "/r/decided/decision.json");
}

// ---- boot ----

#[derive(Default)]
struct Quiet {
    said: Vec<String>,
}

impl Ask for Quiet {
    fn interactive(&self) -> bool {
        false
    }
    fn say(&mut self, line: &str) {
        self.said.push(line.to_string());
    }
    fn confirm(&mut self, _: &str) -> Result<bool, String> {
        unreachable!("no test here answers a prompt")
    }
}

impl Quiet {
    fn transcript(&self) -> String {
        self.said.join("\n")
    }
}

fn yes() -> Flags {
    Flags { yes: true, accept_changes: false }
}

fn found() -> Found {
    let mut profile = config();
    profile.dlua_dir = Some("dlua/".to_string());
    Found {
        root: root(),
        soft: Vec::new(),
        flag: None,
        resolution: Resolution {
            profile: Some(Decided {
                value: "debug".to_string(),
                rule: "default_profile".to_string(),
            }),
            entry: Some(Entry::File("app.dlua".to_string())),
            pin: None,
            consent: None,
            ceiling: Some(vec![Grant::grant("host:fs/*")]),
            args: vec![("verbose".to_string(), ArgValue::Bool(false))],
            findings: Vec::new(),
        },
        project: Some(ProjectJson {
            project: Project {
                root_id: "0192f0c1-8000-7000-8000-00000000abcd".to_string(),
                name: Some("my_drt_project".to_string()),
                caps: vec![Grant::grant("host:fs/*")],
                ceiling: vec![Grant::grant("host:fs/*")],
            },
            allow_nested: AllowNested::Warn,
        }),
        profiles: vec![("debug.config.json".to_string(), profile)],
        above: Vec::new(),
        deployed: false,
        consent: None,
        check: Ok(ConsentCheck::First { ceiling_hash: "h".to_string() }),
    }
}

fn boot(found: Found, flags: Flags, ask: &mut Quiet) -> Outcome {
    boot_root(found, flags, ask, NOW)
}

#[test]
fn a_rooted_start_resolves_its_profile_and_runs_its_entry() {
    let mut ask = Quiet::default();
    let outcome = boot(found(), yes(), &mut ask);
    let Ok(booted) = outcome.booted else {
        panic!("it boots");
    };
    assert!(booted.root.is_some());
    let resolution = booted.resolution.as_ref().unwrap();
    assert_eq!(resolution.profile.as_ref().unwrap().rule, "default_profile");
    assert!(
        matches!(
            &booted.config.program,
            Some(Program::Path(p)) if p == "/r/.drt_root/live/my_drt_project/app.dlua"
        ),
        "what runs is live/, not the authoring directory"
    );
    let deployment = booted.deployment.as_ref().unwrap();
    assert_eq!(deployment.name, "my_drt_project");
    assert_eq!(deployment.source.describe(), "dlua_dir");
    assert!(!deployment.deployed, "nothing has been deployed yet");
    assert!(outcome.accepted.is_some());
    assert_eq!(booted.config.args.len(), 1);
}

#[test]
fn a_native_entry_reports_rather_than_gating_on_consent() {
    let mut f = found();
    f.resolution.profile = Some(Decided {
        value: "preflight".to_string(),
        rule: "named".to_string(),
    });
    f.resolution.entry = Some(Entry::Stdlib("preflight".to_string()));
    f.resolution.consent = Some(ConsentCheck::First { ceiling_hash: "h".to_string() });
    f.profiles.push(("preflight.config.json".to_string(), config()));
    let mut ask = Quiet::default();
    let outcome = boot(f, Flags::default(), &mut ask);
    let Ok(booted) = outcome.booted else {
        panic!("a report does not need consent");
    };
    assert!(matches!(booted.runnable, Some(Runnable::Native("preflight"))));
    assert!(
        booted.config.program.is_none(),
        "nothing is loaded for a native program"
    );
    assert!(matches!(
        booted.resolution.as_ref().unwrap().consent,
        Some(ConsentCheck::First { .. })
    ));
    assert!(
        outcome.accepted.is_none(),
        "and it accepted nothing on the operator's behalf"
    );
}

#[test]
fn consent_is_gated_before_anything_is_wired() {
    let mut ask = Quiet::default();
    let outcome = boot(found(), Flags::default(), &mut ask);
    let Err(e) = outcome.booted else {
        panic!("nobody accepted");
    };
    assert!(e.contains("no terminal"), "{e}");
    assert!(e.contains("-y"), "{e}");
    assert!(outcome.accepted.is_none());
}

#[test]
fn a_config_flag_inside_a_root_may_not_widen_the_ceiling() {
    let mut f = found();
    let mut wide = config();
    wide.caps = vec![Grant::grant("host:exec/run")];
    f.flag = Some(Ok(FlagConfig {
        config: wide,
        under: Err("host:exec/run is not held by the parent".to_string()),
    }));
    let mut ask = Quiet::default();
    let outcome = boot(f, yes(), &mut ask);
    let Err(e) = outcome.booted else {
        panic!("it widens");
    };
    assert!(e.contains("consent bypass"), "{e}");
    assert!(e.contains("host:exec/run"), "it names the grant: {e}");
    assert!(outcome.accepted.is_some());
}

#[test]
fn a_config_flag_under_the_ceiling_is_what_runs() {
    let mut f = found();
    let mut narrow = config();
    narrow.program = Some(Program::Source("return 1".to_string()));
    f.flag = Some(Ok(FlagConfig { config: narrow, under: Ok(()) }));
    let outcome = boot(f, yes(), &mut Quiet::default());
    assert!(matches!(
        outcome.booted.map_err(|_| ()).unwrap().config.program,
        Some(Program::Source(_))
    ));
}

#[test]
fn only_the_blocker_reaches_stderr() {
    let mut f = found();
    f.resolution.findings = vec![
        Finding { text: "this root has no project_name".to_string(), blocks: false },
        Finding {
            text: "profiles names gone.config.json, which is not there".to_string(),
            blocks: true,
        },
    ];
    let mut ask = Quiet::default();
    let outcome = boot(f, yes(), &mut ask);
    let Err(e) = outcome.booted else {
        panic!("it is blocked");
    };
    assert!(e.contains("gone.config.json"), "{e}");
    assert!(
        !ask.transcript().contains("no project_name"),
        "start is quiet about what does not stop it: {}",
        ask.transcript()
    );
}

#[test]
fn an_unknown_stdlib_entry_names_what_this_build_carries() {
    let deployment = Deployment {
        name: "p".to_string(),
        source: Source::Init(root().init()),
        deployed: false,
    };
    let e = entry_runnable(&root(), &deployment, &Entry::Stdlib("nonesuch".to_string()))
        .unwrap_err();
    assert!(e.contains("nonesuch"), "{e}");
    assert!(e.contains("preflight"), "it lists what is here: {e}");
    assert!(matches!(
        entry_runnable(&root(), &deployment, &Entry::Stdlib("preflight".to_string())).unwrap(),
        Runnable::Native("preflight")
    ));
}

#[test]
fn no_root_is_the_no_root_path() {
    let time = vec!["connector-time".to_string()];
    let booted = boot_rootless(Ok(config()), false, None, false, &time)
        .map_err(|_| ())
        .expect("no root, no consent");
    assert!(booted.root.is_none());
    assert!(booted.resolution.is_none());
    assert_eq!(booted.config.connectors[0].0, "time");

    let Err(e) = boot_rootless(Ok(config()), false, Some("debug"), false, &time) else {
        panic!("there is no profile");
    };
    assert!(e.contains("no root here"), "{e}");
    let Err(e) = boot_rootless(Ok(config()), true, None, true, &time) else {
        panic!("there is nothing to override");
    };
    assert!(e.contains("no root here to resolve one"), "{e}");
    assert!(boot_rootless(Err("x".to_string()), true, None, false, &time).is_err());
}

#[test]
fn nesting_warns_by_default() {
    let dirs = vec!["/r/.drt_root".to_string()];
    let inner = Root { dir: "/r/nested".to_string() };
    let mut ask = Quiet::default();
    nesting(&inner, AllowNested::Warn, &dirs, &mut ask).unwrap();
    assert!(ask.transcript().contains("peers"), "{}", ask.transcript());

    let e = nesting(&inner, AllowNested::Error, &dirs, &mut ask).unwrap_err();
    assert!(e.contains("allow_nested"), "{e}");
}

#[test]
fn what_could_not_be_read_is_said_and_stops_nothing() {
    let mut f = found();
    f.soft = vec!["/r/.drt_root/profile/broken.config.json: expected a key".to_string()];
    let mut ask = Quiet::default();
    assert!(boot(f, yes(), &mut ask).booted.is_ok());
    assert_eq!(
        ask.said,
        ["drt start: /r/.drt_root/profile/broken.config.json: expected a key"]
    );
}

#[test]
fn each_reason_to_stop_is_named() {
    let mut none = found();
    none.project = None;
    let mut unresolved = found();
    unresolved.resolution.profile = None;
    let mut missing = found();
    missing.profiles = Vec::new();
    let mut entryless = found();
    entryless.resolution.entry = None;
    let mut unloadable = found();
    unloadable.flag = Some(Err("cannot read /x: gone".to_string()));
    for (f, words) in [
        (none, "no project.json"),
        (unresolved, "no profile resolved, and nothing said why"),
        (missing, "'debug.config.json' is declared but not in profile/"),
        (entryless, "profile 'debug' declares no entry"),
        (unloadable, "cannot read /x: gone"),
    ] {
        let Err(e) = boot(f, yes(), &mut Quiet::default()).booted else {
            panic!("{words}");
        };
        assert!(e.contains(words), "{e}");
    }
}

#[test]
fn a_wired_time_keeps_its_place() {
    let mut c = config();
    c.connectors = vec![
        ("fs".to_string(), Wiring { scope: None }),
        ("time".to_string(), Wiring { scope: Some("{}".to_string()) }),
        ("web".to_string(), Wiring { scope: None }),
    ];
    drt::cli::local_defaults(&mut c, &vec!["connector-time".to_string()]);
    assert_eq!(c.connectors.len(), 3);
    assert_eq!(c.connectors[1].0, "time");
    assert!(c.connectors[1].1.scope.is_none());
    c.connectors.remove(1);
    drt::cli::local_defaults(&mut c, &vec!["connector-time".to_string()]);
    assert_eq!(c.connectors[1].0, "time");
}
