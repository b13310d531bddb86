//! What the binary says of itself, and what each verb does next.

use drt::boot::{Booted, Deployment, Runnable};
use drt::cli::{
    announcement, buildinfo, connectors, core_features, enabled_features, is_carried, profile_name,
    verbs, wire_connectors, Build, EXEC_NOTE,
};
use drt::config::{Program, RootConfig, Wiring};
use drt::deploy::{Report, Source};
use drt::drt_root::Root;
use drt::resolve::Resolution;
use drt::stdlib;
use drt::verbs::{
    commit_refusal, committed_lines, deploy_refusal, deployed_line, explicit, failed, key_verb,
    piped, preflight_report, removed_line, reports, rootless, run_profile, run_verb, start_verb,
    wg_check, Explicit, KeyAct, KeyAction, ProfileAct, Requested, RunAct, StartAct,
    WireguardConfig,
};

fn owned(list: &[&str]) -> Vec<String> {
    list.iter().map(|s| s.to_string()).collect()
}

const SLIM: [&str; 5] = ["listen", "connector-time", "connector-fs", "connector-crypto", "cli"];

const FULL: [&str; 19] = [
    "cli",
    "connector-crypto",
    "connector-data",
    "connector-exec",
    "connector-fs",
    "connector-rest",
    "connector-sql",
    "connector-ssh",
    "connector-ssmtp",
    "connector-time",
    "listen",
    "netcheck",
    "relay",
    "runtime",
    "stun",
    "tunnel",
    "turn",
    "turn-client",
    "wireguard",
];

fn profile(list: &[&str]) -> &'static str {
    profile_name(&enabled_features(&owned(list)))
}

#[test]
fn a_build_is_named_by_exactly_what_it_is() {
    assert_eq!(profile(&FULL), "full");
    assert_eq!(profile(&SLIM), "slim");
    assert_eq!(
        profile(&["connector-crypto", "connector-fs", "connector-sql", "connector-time", "listen"]),
        "wasi"
    );
    assert_eq!(
        profile(&["cli", "connector-crypto", "connector-fs", "connector-time"]),
        "web"
    );
    assert_eq!(profile(&["cli"]), "custom");
    assert_eq!(profile(&[]), "custom");
}

#[test]
fn features_are_listed_in_order_and_unknown_ones_are_not() {
    assert_eq!(
        enabled_features(&owned(&["listen", "nonsense", "cli"])),
        vec!["cli", "listen"]
    );
    assert_eq!(core_features("slim"), vec!["regex"]);
    assert_eq!(core_features("custom"), vec!["unknown"]);
}

#[test]
fn a_build_lists_what_it_carries() {
    assert_eq!(connectors(&owned(&SLIM)), vec!["time", "fs", "crypto", "listen"]);
    assert_eq!(
        verbs(&owned(&FULL)),
        vec![
            "buildinfo", "commit", "deploy", "key", "netcheck", "ps", "repl", "rm", "run", "start",
            "tunnel", "wg",
        ]
    );
    assert_eq!(
        verbs(&owned(&SLIM)),
        vec!["buildinfo", "commit", "deploy", "key", "ps", "repl", "rm", "run", "start"]
    );
}

fn build(tag: Option<&str>, abi: Option<(u32, u32)>) -> Build {
    Build {
        features: owned(&SLIM),
        tag: tag.map(|t| t.to_string()),
        revision: "abc123".to_string(),
        abi,
    }
}

#[test]
fn a_build_says_what_it_is_in_lines() {
    assert_eq!(
        buildinfo(&build(Some("v1"), Some((3, 4))), false),
        "version: 0.5.0\ntag: v1\nprofile: slim\ndv_abi: 3\ndv_abi_expected: 4\n\
         diluvium: abc123\ndiluvium_build: 14\nfeatures: regex\n\
         connectors: time,fs,crypto,listen\n\
         verbs: buildinfo,commit,deploy,key,ps,repl,rm,run,start\n"
    );
    let untagged = buildinfo(&build(Some(""), None), false);
    assert!(untagged.starts_with("version: 0.5.0\nprofile: slim\ndv_abi: unknown\n"));
}

#[test]
fn a_build_says_what_it_is_to_a_machine() {
    assert_eq!(
        buildinfo(&build(None, None), true),
        "{\"version\":\"0.5.0\",\"tag\":null,\"profile\":\"slim\",\"dv_abi\":null,\
         \"dv_abi_expected\":null,\"diluvium\":\"abc123\",\"diluvium_build\":14,\
         \"features\":[\"regex\"],\"connectors\":[\"time\",\"fs\",\"crypto\",\"listen\"],\
         \"verbs\":[\"buildinfo\",\"commit\",\"deploy\",\"key\",\"ps\",\"repl\",\"rm\",\"run\",\
         \"start\"]}\n"
    );
    assert!(buildinfo(&build(Some("v1"), Some((3, 4))), true)
        .contains("\"tag\":\"v1\",\"profile\":\"slim\",\"dv_abi\":3,\"dv_abi_expected\":4,"));
}

fn config(names: &[&str]) -> RootConfig {
    RootConfig {
        program: None,
        caps: Vec::new(),
        dlua_dir: None,
        args: Vec::new(),
        connectors: names
            .iter()
            .map(|n| (n.to_string(), Wiring { scope: None }))
            .collect(),
        relay: None,
    }
}

#[test]
fn only_what_the_build_carries_is_wired() {
    let features = owned(&SLIM);
    let all = wire_connectors(&config(&["crypto", "fs", "time"]), &features);
    assert_eq!((all.count, all.refusal), (3, None));
    let some = wire_connectors(&config(&["fs", "rest", "time"]), &features);
    assert_eq!(some.count, 1);
    assert_eq!(
        some.refusal.as_deref(),
        Some("config wires connector 'rest', which this build does not carry")
    );
    assert!(!is_carried(&features, "listen"));
    assert!(is_carried(&features, "fs"));
}

#[test]
fn leaving_the_sandbox_is_announced() {
    assert_eq!(announcement("exec"), Some(EXEC_NOTE));
    assert_eq!(announcement("fs"), None);
}

#[test]
fn the_first_flag_forces_the_reading() {
    assert_eq!(explicit(true, true, true), Some(Explicit::File));
    assert_eq!(explicit(false, true, true), Some(Explicit::Code));
    assert_eq!(explicit(false, false, true), Some(Explicit::Profile));
    assert_eq!(explicit(false, false, false), None);
}

fn refused(act: RunAct) -> String {
    match act {
        RunAct::Refuse(why) => why,
        other => panic!("{:?}", other),
    }
}

#[test]
fn a_run_without_an_argument_runs_what_there_is() {
    let program = Some(Program::Path("a.dlua".to_string()));
    assert!(matches!(
        run_verb(None, true, &program, false, ""),
        RunAct::Profile(None)
    ));
    assert!(matches!(
        run_verb(None, false, &program, false, ""),
        RunAct::Path(p) if p == "a.dlua"
    ));
    for program in [None, Some(Program::Source("x".to_string()))] {
        assert_eq!(
            refused(run_verb(None, false, &program, false, "")),
            "drt run: name a program, as an argument or as `program` in the config"
        );
    }
}

#[test]
fn a_run_takes_each_kind_of_argument() {
    let run = |r: Requested, rooted: bool, there: bool| {
        run_verb(Some(r), rooted, &None, there, "no such file")
    };
    let file = || Requested::File("a".to_string());
    assert!(matches!(run(file(), false, true), RunAct::Path(p) if p == "a"));
    assert_eq!(refused(run(file(), false, false)), "drt run: no such file");
    assert!(matches!(
        run(Requested::Code("print(1)".to_string()), false, false),
        RunAct::Source { source, name } if source == "print(1)" && name == "=command"
    ));
    assert!(matches!(run(Requested::Stdin, false, false), RunAct::Stdin));
    let profile = || Requested::Profile("p".to_string());
    assert!(matches!(run(profile(), true, false), RunAct::Profile(Some(p)) if p == "p"));
    assert_eq!(
        refused(run(profile(), false, false)),
        "drt run: there is no root here, so 'p' names no profile; `--config <path>` is the \
         self-contained form"
    );
}

#[test]
fn a_run_of_what_the_binary_carries_says_what_it_carries() {
    let run = |name: &str| {
        run_verb(Some(Requested::Stdlib(name.to_string())), false, &None, false, "")
    };
    assert_eq!(
        refused(run("preflight")),
        "drt run: 'preflight' reports on a root, so it is `drt start preflight` -- `run` has no \
         resolution to report on"
    );
    assert_eq!(
        refused(run("nope")),
        format!(
            "drt run: this build carries no stdlib program called 'nope'; it carries {}",
            stdlib::names().join(", ")
        )
    );
    for name in stdlib::names() {
        if !stdlib::is_native(name) {
            assert!(matches!(
                run(name),
                RunAct::Source { name: shown, .. } if shown == format!("=stdlib:{}", name)
            ));
        }
    }
}

#[test]
fn what_is_piped_is_run_under_its_name() {
    assert!(matches!(
        piped(Ok("x".to_string())),
        RunAct::Source { source, name } if source == "x" && name == "=stdin"
    ));
    assert_eq!(
        refused(piped(Err("gone".to_string()))),
        "drt run: cannot read stdin: gone"
    );
}

fn resolution() -> Resolution {
    Resolution {
        profile: None,
        entry: None,
        pin: None,
        consent: None,
        ceiling: None,
        args: Vec::new(),
        findings: Vec::new(),
    }
}

fn booted(deployed: Option<bool>) -> Booted {
    Booted {
        config: config(&[]),
        root: deployed.map(|_| Root { dir: "/r".to_string() }),
        resolution: None,
        runnable: None,
        deployment: deployed.map(|deployed| Deployment {
            name: "app".to_string(),
            source: Source::DluaDir("/r/src".to_string()),
            deployed,
        }),
    }
}

fn report() -> Booted {
    let mut b = booted(Some(true));
    b.resolution = Some(resolution());
    b.runnable = Some(Runnable::Native(stdlib::PREFLIGHT));
    b
}

#[test]
fn a_report_is_printed_and_not_run() {
    assert!(reports(&report()));
    assert!(matches!(run_profile(&report()), ProfileAct::Report));
    assert!(matches!(start_verb(&report(), false), StartAct::Report));
    let mut b = report();
    b.resolution = None;
    assert!(!reports(&b));
    b = report();
    b.runnable = Some(Runnable::Native("other"));
    assert!(!reports(&b));
    assert_eq!(
        preflight_report(&resolution()),
        stdlib::preflight(&resolution(), None, "0.5.0", None)
    );
}

#[test]
fn a_profile_runs_only_what_is_deployed() {
    let described = Source::DluaDir("/r/src".to_string());
    match run_profile(&booted(Some(false))) {
        ProfileAct::Refuse(why) => assert_eq!(
            why,
            format!(
                "drt run: 'app' is not deployed; `drt deploy` copies {} into live/, or `drt \
                 start` does both",
                described.describe()
            )
        ),
        other => panic!("{:?}", other),
    }
    match run_profile(&booted(Some(true))) {
        ProfileAct::Refuse(why) => {
            assert_eq!(why, "drt run: this profile names no program to run")
        }
        other => panic!("{:?}", other),
    }
    let mut b = booted(Some(true));
    b.config.program = Some(Program::Path("/r/live/app/main.dlua".to_string()));
    assert!(matches!(
        run_profile(&b),
        ProfileAct::Path(p) if p == "/r/live/app/main.dlua"
    ));
}

#[test]
fn a_start_does_not_overwrite_what_is_deployed() {
    match start_verb(&booted(Some(true)), false) {
        StartAct::Refuse(lines) => assert_eq!(
            lines,
            vec![
                "'app' is already deployed",
                "",
                "   drt run         # run app from live",
                "   drt rm          # delete app from live",
                "   drt start --rm  # start app from src (overwrites live/app)",
            ]
        ),
        other => panic!("{:?}", other),
    }
    assert!(matches!(start_verb(&booted(Some(true)), true), StartAct::Deploy));
    assert!(matches!(start_verb(&booted(Some(false)), false), StartAct::Deploy));
    assert!(matches!(start_verb(&booted(None), false), StartAct::Run));
    let mut far = booted(Some(true));
    far.deployment = Some(Deployment {
        name: "app".to_string(),
        source: Source::DluaDir("/elsewhere/src".to_string()),
        deployed: true,
    });
    match start_verb(&far, false) {
        StartAct::Refuse(lines) => assert!(lines[4].contains(" from /elsewhere/src (")),
        other => panic!("{:?}", other),
    }
}

#[test]
fn each_verb_says_what_it_did() {
    let d = booted(Some(false)).deployment.unwrap();
    let r = Report { files: 3, bytes: 9 };
    assert_eq!(
        deployed_line(&d, r),
        format!("deployed app from {} (3 file(s))", d.source.describe())
    );
    assert_eq!(removed_line("app"), "removed app from live/");
    assert_eq!(
        committed_lines(Report { files: 1, bytes: 0 }, "blake3:00"),
        "committed 1 file(s) into init/\nenvelope: blake3:00"
    );
    assert_eq!(failed("rm", "no"), "drt rm: no");
    assert_eq!(
        rootless("rm"),
        "drt rm: there is no root here; run it inside one, name one with --root, or `dollup init` \
         to make one"
    );
}

#[test]
fn a_deploy_and_a_commit_need_a_root() {
    assert_eq!(deploy_refusal(&booted(Some(true))), None);
    assert_eq!(
        deploy_refusal(&booted(None)).as_deref(),
        Some("drt deploy: there is no root here to deploy into")
    );
    assert_eq!(commit_refusal(&booted(Some(true)), true), None);
    assert_eq!(
        commit_refusal(&booted(None), true).as_deref(),
        Some("drt commit: there is no root here to commit in")
    );
    assert_eq!(
        commit_refusal(&booted(Some(true)), false).as_deref(),
        Some("drt commit: this root has no project.json, so a commit has no root_id to record")
    );
}

fn sign(deny: bool) -> KeyAction {
    KeyAction::Sign {
        key: "k".to_string(),
        request: "q".to_string(),
        key_id: "i".to_string(),
        deny,
        not_after: None,
    }
}

#[test]
fn a_key_is_made_anywhere_and_signs_in_a_root() {
    let root = Root { dir: "/r".to_string() };
    let make = KeyAction::New { path: "k".to_string() };
    assert!(matches!(key_verb(&make, None, None), KeyAct::New));
    match key_verb(&sign(false), Some(Ok(7)), Some(&root)) {
        KeyAct::Sign { decided, approve, not_after } => {
            assert_eq!(decided, root.gsr_decided());
            assert_eq!((approve, not_after), (true, Some(7)));
        }
        other => panic!("{:?}", other),
    }
    assert!(matches!(
        key_verb(&sign(true), None, Some(&root)),
        KeyAct::Sign { approve: false, not_after: None, .. }
    ));
    assert!(matches!(
        key_verb(&sign(true), Some(Err("bad".to_string())), Some(&root)),
        KeyAct::Refuse(why) if why == "drt key sign: bad"
    ));
    assert!(matches!(
        key_verb(&sign(true), None, None),
        KeyAct::Refuse(why) if why == "drt key sign: there is no root here to record a decision \
            in; run it inside one, or name one with --root"
    ));
}

fn wg(userspace: bool, peers: usize) -> WireguardConfig {
    WireguardConfig {
        userspace,
        interface: "wg0".to_string(),
        listen_port: 51820,
        peers,
        address: None,
        reply_queue: String::new(),
        forward: Vec::new(),
        expose: Vec::new(),
    }
}

#[test]
fn a_check_of_an_interface_says_what_this_machine_lacks() {
    let checked = wg_check(&wg(false, 2), &owned(&["w"]), &owned(&["no tun"]));
    assert_eq!(checked.warnings, vec!["drt wg check: w"]);
    assert_eq!(checked.verdict, vec!["ok: wg0 on port 51820, 2 peer(s), 1 warning(s)"]);
    assert_eq!(
        checked.here,
        vec![
            "here: no tun",
            "      `ok` is the config; `here` is this machine, and the exit code follows the \
             config.",
        ]
    );
    let bare = wg_check(&wg(false, 0), &Vec::new(), &Vec::new());
    assert_eq!(
        bare.verdict,
        vec![
            "ok: wg0 on port 51820, 0 peer(s)",
            "    no peers named: it will create wg0, which needs an address before it carries \
             anything, measure its mapping, and wait for `add` on a reply_queue it does not have",
        ]
    );
    assert!(bare.here.is_empty());
}

#[test]
fn a_check_of_a_stack_asks_nothing_of_this_machine() {
    let mut c = wg(true, 0);
    c.address = Some("10.0.0.1/24".to_string());
    c.reply_queue = "wg/cmd".to_string();
    c.forward = vec![("a".to_string(), "b".to_string()), ("c".to_string(), "d".to_string())];
    c.expose = vec![("e".to_string(), "f".to_string())];
    let checked = wg_check(&c, &Vec::new(), &owned(&["no tun"]));
    assert_eq!(
        checked.verdict,
        vec![
            "ok: userspace on port 51820, 0 peer(s)",
            "    no interface; forwards a -> b, c -> d; exposes e -> f",
            "    no peers named: it will run a stack in this process, give it 10.0.0.1/24, \
             measure its mapping, and wait for `add` on wg/cmd",
        ]
    );
    assert!(checked.here.is_empty());
}
