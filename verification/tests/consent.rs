use drt::consent_gate::{
    describe, gate, is_yes, Accepted, Ask, Consent, ConsentCheck, Flags, Project, Signer,
    ROOT_REALM,
};
use drt::grants::{copied, Grant};

const ROOT_ID: &str = "0192f0c1-8000-7000-8000-00000000abcd";
const NOW: i64 = 1_789_171_200;

#[derive(Default)]
struct Scripted {
    interactive: bool,
    answer: bool,
    said: Vec<String>,
    asked: Vec<String>,
}

impl Ask for Scripted {
    fn interactive(&self) -> bool {
        self.interactive
    }
    fn say(&mut self, line: &str) {
        self.said.push(line.to_string());
    }
    fn confirm(&mut self, question: &str) -> Result<bool, String> {
        self.asked.push(question.to_string());
        Ok(self.answer)
    }
}

impl Scripted {
    fn saying_yes() -> Scripted {
        Scripted { interactive: true, answer: true, ..Scripted::default() }
    }
    fn saying_no() -> Scripted {
        Scripted { interactive: true, answer: false, ..Scripted::default() }
    }
    fn transcript(&self) -> String {
        self.said.join("\n")
    }
}

fn project(caps: Vec<Grant>) -> Project {
    Project {
        root_id: ROOT_ID.to_string(),
        name: Some("my_drt_project".to_string()),
        ceiling: copied(&caps),
        caps,
    }
}

fn first() -> Result<ConsentCheck, String> {
    Ok(ConsentCheck::First { ceiling_hash: "h1".to_string() })
}

fn yes() -> Flags {
    Flags { yes: true, accept_changes: false }
}

#[test]
fn a_first_start_prints_the_ceiling_accepts_and_is_then_silent() {
    let project = project(vec![Grant::grant("host:fs/*"), Grant::deny("host:fs/remove")]);

    let mut ask = Scripted::saying_yes();
    let written = gate(&project, None, first(), Flags::default(), &mut ask, NOW)
        .unwrap()
        .expect("an entry was written");

    let transcript = ask.transcript();
    assert!(transcript.contains("host:fs/*"), "{transcript}");
    assert!(transcript.contains("deny  host:fs/remove"), "{transcript}");
    assert_eq!(ask.asked.len(), 1, "asked exactly once");
    assert_eq!(written.root_id, project.root_id);
    assert!(matches!(
        &written.accepted[0],
        Accepted::Listed { realm, .. } if realm == ROOT_REALM
    ));

    let mut again = Scripted::saying_no();
    let silent = gate(
        &project,
        Some(&written),
        Ok(ConsentCheck::Unchanged),
        Flags::default(),
        &mut again,
        NOW,
    )
    .unwrap();
    assert!(silent.is_none());
    assert!(again.asked.is_empty(), "a matching hash asks nothing");
    assert!(again.said.is_empty(), "and says nothing");
}

#[test]
fn what_is_recorded_is_the_declared_ceiling() {
    let mut project = project(vec![Grant::grant("host:fs/*")]);
    project.ceiling = vec![Grant::grant("host:fs/*"), Grant::grant("host:rest/get")];
    let mut ask = Scripted::saying_yes();
    let written = gate(&project, None, first(), Flags::default(), &mut ask, NOW)
        .unwrap()
        .expect("an entry was written");
    match &written.accepted[0] {
        Accepted::Listed { ceiling, .. } => {
            let all: Vec<&str> = ceiling.iter().map(|g| g.capability.as_str()).collect();
            assert_eq!(all, ["host:fs/*", "host:rest/get"]);
        }
        _ => panic!("a first yes lists its ceiling"),
    }
    assert!(!ask.transcript().contains("host:rest/get"), "the operator sees the grants");
}

#[test]
fn declining_a_first_ceiling_starts_nothing() {
    let project = project(vec![Grant::grant("host:fs/*")]);
    let mut ask = Scripted::saying_no();
    let e = gate(&project, None, first(), Flags::default(), &mut ask, NOW).unwrap_err();
    assert!(e.contains("not accepted"), "{e}");
}

#[test]
fn minus_y_accepts_a_first_ceiling_without_asking() {
    let project = project(vec![Grant::grant("host:fs/*")]);
    let mut ask = Scripted::default();
    let written = gate(&project, None, first(), yes(), &mut ask, NOW).unwrap();
    assert!(ask.asked.is_empty());
    assert!(written.is_some());
}

#[test]
fn minus_y_does_not_accept_a_widening_and_accept_changes_does() {
    let narrow = project(vec![Grant::grant("host:fs/read")]);
    let accepted = gate(&narrow, None, first(), yes(), &mut Scripted::default(), NOW)
        .unwrap()
        .unwrap();

    let wider = project(vec![Grant::grant("host:fs/read"), Grant::grant("host:exec/run")]);
    let widened = || {
        Ok(ConsentCheck::Widened {
            ceiling_hash: "h2".to_string(),
            objection: "host:exec/run is not held, and a ceiling may only narrow".to_string(),
            change: vec!["+ host:exec/run".to_string()],
        })
    };

    let mut unit = Scripted::default();
    let e = gate(&wider, Some(&accepted), widened(), yes(), &mut unit, NOW).unwrap_err();
    assert!(e.contains("--accept-changes"), "{e}");
    assert!(e.contains("no terminal"), "it says why it cannot ask: {e}");
    assert!(
        unit.transcript().contains("+ host:exec/run"),
        "{}",
        unit.transcript()
    );
    assert_eq!(
        unit.transcript().matches("may only narrow").count(),
        0,
        "the objection is not also on stderr: {}",
        unit.transcript()
    );
    assert!(e.contains("host:exec/run"), "{e}");

    let mut operator = Scripted::saying_yes();
    let accepted = gate(
        &wider,
        Some(&accepted),
        widened(),
        Flags::default(),
        &mut operator,
        NOW,
    )
    .unwrap()
    .unwrap();
    let transcript = operator.transcript();
    assert!(transcript.contains("+ host:exec/run"), "{transcript}");
    assert!(transcript.contains("widened"), "{transcript}");

    let mut ci = Scripted::default();
    gate(
        &wider,
        Some(&accepted),
        widened(),
        Flags { yes: false, accept_changes: true },
        &mut ci,
        NOW,
    )
    .unwrap();
    assert!(ci.asked.is_empty());
}

#[test]
fn narrowing_is_silent_and_the_record_catches_up() {
    let wide = project(vec![Grant::grant("host:fs/*"), Grant::grant("host:time")]);
    let accepted = gate(&wide, None, first(), yes(), &mut Scripted::default(), NOW)
        .unwrap()
        .unwrap();

    let narrowed = project(vec![Grant::grant("host:fs/*")]);
    let mut ask = Scripted::default();
    let stored = gate(
        &narrowed,
        Some(&accepted),
        Ok(ConsentCheck::Narrowed { ceiling_hash: "h2".to_string() }),
        Flags::default(),
        &mut ask,
        NOW,
    )
    .unwrap()
    .unwrap();
    assert!(ask.asked.is_empty(), "narrowing asks nothing");
    assert!(ask.said.is_empty(), "and says nothing");
    assert!(matches!(
        &stored.accepted[0],
        Accepted::Listed { ceiling_hash, ceiling, .. } if ceiling_hash == "h2" && ceiling.len() == 1
    ));
    assert_eq!(stored.accepted.len(), 1, "replaced, not appended");
}

#[test]
fn dropping_a_deny_prompts_at_the_gate() {
    let fenced = project(vec![Grant::grant("host:fs/*"), Grant::deny("host:fs/remove")]);
    let accepted = gate(&fenced, None, first(), yes(), &mut Scripted::default(), NOW)
        .unwrap()
        .unwrap();

    let unfenced = project(vec![Grant::grant("host:fs/*")]);
    let mut ask = Scripted::default();
    let e = gate(
        &unfenced,
        Some(&accepted),
        Ok(ConsentCheck::Widened {
            ceiling_hash: "h2".to_string(),
            objection: "the deny of host:fs/remove was dropped".to_string(),
            change: vec!["- deny host:fs/remove".to_string()],
        }),
        yes(),
        &mut ask,
        NOW,
    )
    .unwrap_err();
    assert!(
        e.contains("host:fs/remove"),
        "the refusal names the deny that was dropped: {e}"
    );
    assert!(e.contains("--accept-changes"), "{e}");
    assert!(
        ask.transcript().contains("- deny host:fs/remove"),
        "and the delta on stderr shows the deny that went away: {}",
        ask.transcript()
    );
}

#[test]
fn no_tty_and_no_flag_fails_by_name_rather_than_hanging() {
    let project = project(vec![Grant::grant("host:fs/*")]);
    let mut ask = Scripted::default();
    let e = gate(&project, None, first(), Flags::default(), &mut ask, NOW).unwrap_err();
    assert!(e.contains("no terminal"), "{e}");
    assert!(e.contains("-y"), "it names the flag that answers: {e}");
    assert!(ask.asked.is_empty(), "nothing was asked, so nothing hung");
}

#[test]
fn blanket_consent_never_prompts() {
    let project = project(vec![Grant::grant("host:fs/*"), Grant::grant("host:exec/run")]);
    let consent = Consent {
        root_id: ROOT_ID.to_string(),
        accepted: vec![Accepted::All {
            realm: ROOT_REALM.to_string(),
            accepted_against: "h0".to_string(),
            accepted_at: NOW,
        }],
        signers: Vec::new(),
        peers: Vec::new(),
    };
    let mut ask = Scripted::default();
    let written = gate(
        &project,
        Some(&consent),
        Ok(ConsentCheck::Blanket { ceiling_changed: true }),
        Flags::default(),
        &mut ask,
        NOW,
    )
    .unwrap();
    assert!(ask.asked.is_empty());
    assert!(written.is_none());
    assert!(
        ask.transcript().contains("blanket"),
        "the moved ceiling is said once: {}",
        ask.transcript()
    );
}

#[test]
fn a_root_id_mismatch_stops_start_by_name() {
    let project = project(vec![Grant::grant("host:fs/*")]);
    let other = Consent {
        root_id: "0192f0c1-8000-7000-8000-0000000012ef".to_string(),
        accepted: Vec::new(),
        signers: Vec::new(),
        peers: Vec::new(),
    };
    assert_ne!(other.root_id, project.root_id, "a different root entirely");
    let e = gate(
        &project,
        Some(&other),
        Err("this consent is another root's, and consent never travels".to_string()),
        Flags { yes: true, accept_changes: true },
        &mut Scripted::saying_yes(),
        NOW,
    )
    .unwrap_err();
    assert!(e.contains("never travels"), "{e}");
}

#[test]
fn an_acceptance_elsewhere_is_kept() {
    let project = project(vec![Grant::grant("host:fs/*")]);
    let existing = Consent {
        root_id: "other".to_string(),
        accepted: vec![
            Accepted::All {
                realm: "operator.rest".to_string(),
                accepted_against: "h0".to_string(),
                accepted_at: 1,
            },
            Accepted::All {
                realm: ROOT_REALM.to_string(),
                accepted_against: "h0".to_string(),
                accepted_at: 2,
            },
        ],
        signers: vec![Signer {
            key_id: "portal-1".to_string(),
            alg: "ed25519".to_string(),
            public_key: "k".to_string(),
            realms: vec![ROOT_REALM.to_string(), "operator.rest".to_string()],
        }],
        peers: vec!["p".to_string()],
    };
    let written = gate(&project, Some(&existing), first(), yes(), &mut Scripted::default(), NOW)
        .unwrap()
        .unwrap();
    assert_eq!(written.root_id, "other");
    assert_eq!(written.accepted.len(), 2);
    assert_eq!(written.accepted[0].realm(), "operator.rest");
    assert_eq!(written.accepted[1].realm(), ROOT_REALM);
    assert_eq!(written.signers.len(), 1);
    assert_eq!(written.signers[0].key_id, "portal-1");
    assert_eq!(written.signers[0].alg, "ed25519");
    assert_eq!(written.signers[0].public_key, "k");
    assert_eq!(written.signers[0].realms, [ROOT_REALM, "operator.rest"]);
    assert_eq!(written.peers, ["p"]);
}

#[test]
fn a_first_acceptance_trusts_nobody() {
    let project = project(vec![Grant::grant("host:fs/*")]);
    let written =
        gate(&project, None, first(), yes(), &mut Scripted::default(), NOW).unwrap().unwrap();
    assert!(written.signers.is_empty());
    assert!(written.peers.is_empty());
}

#[test]
fn a_ceiling_is_described_denials_first() {
    assert_eq!(
        describe(&vec![Grant::grant("a"), Grant::deny("b"), Grant::grant("c")]),
        ["deny  b", "grant a", "grant c"]
    );
}

#[test]
fn an_answer_is_yes_only_where_it_says_so() {
    for yes in ["y", "Y", " yes\n", "Yes"] {
        assert!(is_yes(yes), "{yes:?}");
    }
    for no in ["", "n", "YES", "yes please", "\u{a0}"] {
        assert!(!is_yes(no), "{no:?}");
    }
    assert!(is_yes("\u{2003}y\u{a0}"));
}

struct Broken;

impl Ask for Broken {
    fn interactive(&self) -> bool {
        true
    }
    fn say(&mut self, _: &str) {}
    fn confirm(&mut self, _: &str) -> Result<bool, String> {
        Err("closed".to_string())
    }
}

#[test]
fn a_terminal_that_cannot_be_read_is_named() {
    let e = gate(
        &project(Vec::new()),
        None,
        first(),
        Flags::default(),
        &mut Broken,
        NOW,
    )
    .unwrap_err();
    assert_eq!(e, "cannot read an answer from the terminal: closed");
}
