use drt::grants::Grant;
use drt::gsr::{
    answer, ceiling, same_root, window, Act, Asked, Filed, Readings, Verdict, Window,
};
use drt::msg::{field, words, Datum};

const DECIDED: &str = "/r/.drt_root/state/gsr/decided";
const PENDING: &str = "/r/.drt_root/state/gsr/pending/h1.json";

fn text(s: &str) -> Datum {
    Datum::Text(s.to_string())
}

fn ask(realm: &str) -> Vec<(Datum, Datum)> {
    vec![
        (text("realm"), text(realm)),
        (
            text("ask"),
            Datum::Table(vec![(text("add"), Datum::List(vec![text("example.com")]))]),
        ),
        (text("reason"), text("the intake node needs the upstream")),
    ]
}

fn status(value: &Datum) -> String {
    words(field(value, "status")).unwrap_or("?".to_string())
}

fn reason(value: &Datum) -> String {
    words(field(value, "reason")).unwrap_or_default()
}

fn decision(hash: &str, expired: bool, verdict: Verdict) -> Vec<(String, Filed)> {
    vec![(
        "from-the-portal.json".to_string(),
        Filed::Decision { expired, request_hash: hash.to_string(), verdict },
    )]
}

fn granted() -> Verdict {
    Verdict::Granted { from: None, until: None }
}

#[test]
fn an_ask_pends_then_is_granted_and_survives_a_restart() {
    let (acts, first) = answer(DECIDED, PENDING, &Vec::new(), "h1", false, "{}");
    assert_eq!(status(&first), "pending");
    assert!(matches!(&acts[..], [Act::Write(p, t)] if p == PENDING && t == "{}\n"));

    let (acts, again) = answer(DECIDED, PENDING, &Vec::new(), "h1", true, "{}");
    assert_eq!(status(&again), "pending");
    assert!(acts.is_empty(), "a loop does not fill the directory");

    let files = decision("h1", false, granted());
    let (acts, given) = answer(DECIDED, PENDING, &files, "h1", true, "{}");
    assert_eq!(status(&given), "granted", "{given:?}");
    assert!(
        matches!(&acts[..], [Act::Remove(p)] if p == PENDING),
        "the pending file is gone once consumed"
    );

    let (acts, after) = answer(DECIDED, PENDING, &files, "h1", false, "{}");
    assert_eq!(status(&after), "granted");
    assert!(
        !acts.iter().any(|a| matches!(a, Act::Write(..))),
        "and it wrote nothing"
    );
}

#[test]
fn a_realm_outside_the_ceiling_fails_at_step_three() {
    let why = "step 3: a decision may narrow and never widen";
    let files = decision("h1", false, Verdict::Unverified(why.to_string()));
    let (acts, answered) = answer(DECIDED, PENDING, &files, "h1", true, "{}");
    assert_eq!(status(&answered), "denied");
    assert!(reason(&answered).starts_with("step 3:"), "{}", reason(&answered));
    assert!(
        reason(&answered).contains("never widen"),
        "the invariant is what it says: {}",
        reason(&answered)
    );
    assert!(acts.is_empty());
}

#[test]
fn a_signer_outside_its_realms_fails_at_step_two() {
    let files = decision("h1", false, Verdict::Unverified("step 2: not its realm".to_string()));
    let (_, answered) = answer(DECIDED, PENDING, &files, "h1", true, "{}");
    assert!(reason(&answered).starts_with("step 2:"), "{}", reason(&answered));
}

#[test]
fn a_signed_deny_is_an_answer() {
    let files = decision("h1", false, Verdict::Denied);
    let (_, answered) = answer(DECIDED, PENDING, &files, "h1", true, "{}");
    assert_eq!(status(&answered), "denied");
    assert!(
        reason(&answered).contains("operator denied"),
        "{}",
        reason(&answered)
    );
}

#[test]
fn an_expired_decision_is_swept_and_the_ask_pends_again() {
    let files = decision("h1", true, granted());
    let (acts, answered) = answer(DECIDED, PENDING, &files, "h1", true, "{}");
    assert_eq!(status(&answered), "pending", "{answered:?}");
    assert!(
        matches!(
            &acts[..],
            [Act::Remove(p)] if *p == format!("{DECIDED}/from-the-portal.json")
        ),
        "the stale decision was swept"
    );
}

#[test]
fn a_different_window_is_a_different_request() {
    let mut bounded = ask("operator.rest.get");
    bounded.push((text("valid_until"), text("2026-09-19T00:00:00Z")));
    let (bounded, open) = (Datum::Table(bounded), Datum::Table(ask("operator.rest.get")));
    let bounded = Asked::decode(Some(&bounded)).unwrap();
    let open = Asked::decode(Some(&open)).unwrap();
    assert_eq!(bounded.valid_until.as_deref(), Some("2026-09-19T00:00:00Z"));
    assert_eq!(open.valid_until, None);
    let other = "/r/.drt_root/state/gsr/pending/h2.json";
    let (acts, _) = answer(DECIDED, other, &Vec::new(), "h2", false, "{}");
    assert_eq!(
        acts.len(),
        1,
        "access for a week is a different ask from access forever"
    );
}

#[test]
fn rewording_the_reason_keeps_the_request() {
    let mut reworded = ask("operator.rest.get");
    reworded.pop();
    reworded.push((text("reason"), text("please, it is urgent")));
    let (first, second) = (Datum::Table(ask("operator.rest.get")), Datum::Table(reworded));
    let a = Asked::decode(Some(&first)).unwrap();
    let b = Asked::decode(Some(&second)).unwrap();
    assert_eq!(a.ask, b.ask);
    assert_eq!(a.ask, field(&first, "ask"));
    assert_eq!(b.reason, "please, it is urgent");
    assert_eq!(
        (a.realm, a.valid_from, a.valid_until),
        (b.realm, b.valid_from, b.valid_until),
        "one request, two pleas"
    );
}

#[test]
fn every_kind_of_value_stays_what_it_is_in_an_ask() {
    let kinds = || {
        vec![
            Datum::Double(1.5f64.to_bits()),
            Datum::Double(f64::INFINITY.to_bits()),
            Datum::Single(1.5f32.to_bits()),
            Datum::Extension(1, vec![7]),
            Datum::Extension(2, vec![7]),
            Datum::Nil,
        ]
    };
    let all = kinds();
    for (i, v) in kinds().into_iter().enumerate() {
        let mut table = ask("operator.rest.get");
        table[1].1 = v;
        let table = Datum::Table(table);
        let asked = Asked::decode(Some(&table)).unwrap();
        for (k, other) in all.iter().enumerate() {
            assert_eq!(asked.ask == Some(other), i == k, "{i} {k}");
        }
    }
}

#[test]
fn the_desk_reports_the_ceiling() {
    let caps = vec![Grant::grant("host:rest/get"), Grant::grant("host:fs/read")];
    let mut all = ceiling(Some(&caps));
    all.sort();
    assert_eq!(all, ["host:fs/read", "host:rest/get"]);
    assert!(ceiling(None).is_empty());
}

#[test]
fn an_ask_that_says_too_little_is_refused() {
    assert!(Asked::decode(None).is_err());
    assert!(Asked::decode(Some(&Datum::Nil)).is_err());
}

fn readings() -> Readings {
    Readings { realm: Ok(()), ask: Ok(()), valid_from: None, valid_until: None }
}

#[test]
fn an_ask_that_cannot_be_hashed_is_refused_by_name() {
    let mut bad = readings();
    bad.ask = Err("the ask holds a number that is not finite".to_string());
    bad.valid_until = Some(Err("later".to_string()));
    let e = window(bad).unwrap_err();
    assert!(e.contains("finite"), "{e}");
}

#[test]
fn the_first_part_that_does_not_read_is_named() {
    let mut bad = readings();
    bad.realm = Err("realm".to_string());
    bad.ask = Err("ask".to_string());
    assert_eq!(window(bad), Err("realm".to_string()));
    let mut bad = readings();
    bad.valid_from = Some(Err("from".to_string()));
    bad.valid_until = Some(Err("until".to_string()));
    assert_eq!(window(bad), Err("from".to_string()));
    let mut good = readings();
    good.valid_until = Some(Ok(7));
    assert_eq!(window(good), Ok(Window { from: None, until: Some(7) }));
}

#[test]
fn consent_of_another_root_is_refused() {
    assert!(same_root("a", "a").is_ok());
    assert!(same_root("a", "b").is_err());
}

#[test]
fn somebody_else_s_file_is_left_alone() {
    let files = vec![("notes.txt".to_string(), Filed::NotADecision)];
    let (acts, answered) = answer(DECIDED, PENDING, &files, "h1", true, "{}");
    assert_eq!(status(&answered), "pending");
    assert!(acts.is_empty());
}
