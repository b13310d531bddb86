use drt::consent_gate::ConsentCheck;
use drt::grants::Grant;
use drt::resolve::{ArgValue, Decided, Entry, Finding, Resolution};
use drt::stdlib::{is_native, lookup, names, preflight, Kind};
use drt::verbs::preflight_report;

fn resolution() -> Resolution {
    Resolution {
        profile: Some(Decided {
            value: "debug".to_string(),
            rule: "default_profile".to_string(),
        }),
        entry: Some(Entry::File("app.dlua".to_string())),
        pin: None,
        consent: None,
        ceiling: Some(vec![Grant::grant("host:fs/*")]),
        args: vec![("verbose".to_string(), ArgValue::Bool(false))],
        findings: Vec::new(),
    }
}

fn rendered(resolution: &Resolution, consent: Option<&ConsentCheck>) -> String {
    preflight(resolution, Some("0.5.0"), "0.5.0", consent)
}

#[test]
fn preflight_says_what_resolved_and_why_and_starts_nothing() {
    let report = rendered(&resolution(), Some(&ConsentCheck::Unchanged));
    assert!(report.contains("profile: debug (default_profile)"), "{report}");
    assert!(report.contains("drt: 0.5.0 pinned, 0.5.0 present"), "{report}");
    assert!(
        report.contains("ceiling: 1 caps, consent: listed, matches"),
        "{report}"
    );
    assert!(report.contains("entry: app.dlua, present"), "{report}");
    assert!(report.contains("args: { verbose: false }"), "{report}");
    assert!(
        report.ends_with("start would run. nothing started.\n"),
        "{report}"
    );
}

#[test]
fn a_widened_ceiling_is_reported_as_something_start_would_prompt_on() {
    let report = rendered(
        &resolution(),
        Some(&ConsentCheck::Widened {
            ceiling_hash: "h".to_string(),
            objection: "host:exec/run is not held by the parent".to_string(),
            change: Vec::new(),
        }),
    );
    assert!(report.contains("WIDENED"), "{report}");
    assert!(report.contains("start would prompt"), "{report}");
}

#[test]
fn a_blocking_finding_is_what_it_says_start_would_do() {
    let mut resolution = resolution();
    resolution.findings.push(Finding {
        text: "this root declares no ceiling".to_string(),
        blocks: true,
    });
    let report = rendered(&resolution, None);
    assert!(report.contains("- this root declares no ceiling"), "{report}");
    assert!(report.contains("start would refuse:"), "{report}");
}

#[test]
fn the_registry_lists_exactly_what_it_resolves() {
    for name in names() {
        assert!(
            lookup(name).is_some(),
            "'{name}' is advertised and must resolve"
        );
    }
    assert_eq!(names(), ["preflight"]);
    assert_eq!(lookup("preflight"), Some(Kind::Native("preflight")));
    assert!(is_native("preflight"));
    assert!(lookup("tunnel").is_none());
    assert!(!is_native("tunnel"));
}

#[test]
fn the_whole_report_is_pinned() {
    let mut r = resolution();
    r.entry = Some(Entry::Stdlib("preflight".to_string()));
    r.args = vec![
        ("label".to_string(), ArgValue::Str("gate".to_string())),
        ("port".to_string(), ArgValue::Int(-9000)),
        (
            "stun".to_string(),
            ArgValue::List(vec!["a".to_string(), "b".to_string()]),
        ),
    ];
    r.findings.push(Finding { text: "no drt version is pinned".to_string(), blocks: false });
    assert_eq!(
        preflight_report(&r),
        "profile: debug (default_profile)\ndrt: not pinned, 0.5.0 present\nceiling: 1 caps, consent: does not apply (no root)\nentry: stdlib:preflight, present\nargs: { label: gate, port: -9000, stun: [a, b] }\n- no drt version is pinned\nstart would run. nothing started.\n"
    );
}

#[test]
fn the_least_integer_is_shown() {
    let mut r = resolution();
    r.args = vec![("n".to_string(), ArgValue::Int(i64::MIN))];
    assert!(rendered(&r, None).contains("args: { n: -9223372036854775808 }"));
}
