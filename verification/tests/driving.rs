//! Instances driven: alone, at a prompt, and as a deployment.

use drt::config::Program;
use drt::drive::{Move, Next, Outcome, QueueStatus, Solo, State, Step, WaitSet, POLL_TICK};
use drt::listen;
use drt::listen::{Ingress, Listener, ListenerRt};
use drt::polled::{Bound, Heard};
use drt::relay::{Leg, RelayEvent};
use drt::repl::{print_answer, sent, Repl, Shown};
use drt::run::{finish, settle, BUDGET_ESCAPE_DOC};
use drt::start::{
    deliver, enforce_residency, event_message, fault_line, idle, prepare, reply_queues,
    root_source, settle_reply, tick, Candidate, Delivery, DeployHost, Driven, Holding, HostMove,
    PushError, RelayBridge, IDLE_TICK,
};
use rmpv::Value;

const MS: u128 = 1_000_000;

fn wait(queues: &[u64], for_space: bool, timeout: Option<u128>) -> WaitSet {
    WaitSet {
        queues: queues.to_vec(),
        for_space,
        timeout,
    }
}

fn status(len: usize, capacity: usize) -> Option<QueueStatus> {
    Some(QueueStatus { len, capacity })
}

fn parked(w: WaitSet) -> Solo {
    let mut s = Solo::load();
    s.settle(Ok(Step::Parked(w)), false, 0);
    s
}

fn asks(m: Move) -> Next {
    match m {
        Move::Ask(n) => n,
        other => panic!("{:?}", other),
    }
}

#[test]
fn a_fresh_instance_runs() {
    assert!(matches!(
        Solo::load().tick(&Vec::new(), None, false, 0),
        Move::Run
    ));
}

#[test]
fn the_first_ready_queue_is_resumed_before_the_deadline() {
    let s = parked(wait(&[7, 8, 9], false, Some(5)));
    let ready = vec![None, status(1, 4), status(1, 4)];
    assert!(matches!(s.tick(&ready, Some(9), true, 10), Move::Resume(8)));
}

#[test]
fn room_is_what_a_wait_for_space_waits_for() {
    let s = parked(wait(&[7], true, None));
    assert!(matches!(
        s.tick(&vec![status(3, 4)], None, false, 0),
        Move::Resume(7)
    ));
    assert!(matches!(
        asks(s.tick(&vec![status(4, 4)], None, false, 0)),
        Next::Stuck { for_space: true }
    ));
}

#[test]
fn a_wait_on_the_input_asks_for_a_line() {
    let s = parked(wait(&[7], false, None));
    assert!(matches!(
        asks(s.tick(&vec![status(0, 4)], Some(7), false, 0)),
        Next::Input
    ));
    assert!(matches!(
        asks(s.tick(&vec![status(0, 4)], Some(6), false, 0)),
        Next::Stuck { for_space: false }
    ));
}

#[test]
fn a_sleep_ends_at_the_deadline_or_the_next_poll() {
    let s = parked(wait(&[7], false, Some(5 * MS)));
    let empty = vec![status(0, 4)];
    assert!(matches!(asks(s.tick(&empty, None, false, MS)), Next::Sleep(n) if n == 4 * MS));
    assert!(matches!(asks(s.tick(&empty, None, true, MS)), Next::Sleep(n) if n == POLL_TICK));
    assert!(matches!(
        asks(s.tick(&empty, None, true, 5 * MS - 3)),
        Next::Sleep(3)
    ));
    assert!(matches!(s.tick(&empty, None, true, 5 * MS), Move::ResumeTimeout));
    let forever = parked(wait(&[7], false, None));
    assert!(matches!(
        asks(forever.tick(&empty, None, true, 0)),
        Next::Sleep(n) if n == POLL_TICK
    ));
}

#[test]
fn what_ended_stays_ended() {
    let mut s = Solo::load();
    s.settle(Ok(Step::Done), false, 0);
    assert!(matches!(
        asks(s.tick(&Vec::new(), None, false, 0)),
        Next::Done(Outcome::Exited)
    ));
    s.settle(Ok(Step::Done), true, 0);
    assert!(matches!(
        asks(s.tick(&Vec::new(), None, false, 0)),
        Next::Done(Outcome::Exceeded)
    ));
    s.settle(Err("raised".to_string()), false, 0);
    assert!(matches!(&s.state, State::Failed(why) if why == "raised"));
    assert!(matches!(
        asks(s.tick(&Vec::new(), None, true, 0)),
        Next::Failed(why) if why == "raised"
    ));
}

#[test]
fn a_clean_run_is_one_that_lost_nothing() {
    let none: Vec<String> = Vec::new();
    let lost = vec!["a.db rolled back".to_string(), "b.db too".to_string()];
    assert_eq!(finish(&none), Ok(()));
    assert_eq!(finish(&lost), Err("a.db rolled back; b.db too".to_string()));
    assert_eq!(settle(&Next::Sleep(3), &lost), None);
    assert_eq!(settle(&Next::Done(Outcome::Exited), &none), Some(Ok(())));
    assert_eq!(
        settle(&Next::Done(Outcome::Exited), &lost),
        Some(Err("a.db rolled back; b.db too".to_string()))
    );
}

#[test]
fn each_other_end_of_a_run_has_its_sentence() {
    let none: Vec<String> = Vec::new();
    let said = |n: Next| settle(&n, &none).unwrap().unwrap_err();
    assert_eq!(
        said(Next::Done(Outcome::Exceeded)),
        format!(
            "the program exhausted its instruction budget and then continued: the budget was \
             caught as an ordinary error and stopped being enforced. Exit status reports it \
             because nothing else can ({}).",
            BUDGET_ESCAPE_DOC
        )
    );
    assert_eq!(said(Next::Failed("why".to_string())), "why");
    assert_eq!(
        said(Next::Stuck { for_space: true }),
        "the program is parked waiting for space in a queue this run never drains"
    );
    assert_eq!(
        said(Next::Stuck { for_space: false }),
        "the program is parked waiting on queues nothing in `drt run` will push to (a served \
         deployment or a swarm parent would); it will never wake"
    );
    assert_eq!(
        said(Next::Input),
        "the program is waiting for input, and `drt run` has none to give"
    );
}

fn encoded(v: Value) -> Vec<u8> {
    let mut out = Vec::new();
    rmpv::encode::write_value(&mut out, &v).unwrap();
    out
}

fn decoded(raw: &[u8]) -> Value {
    rmpv::decode::read_value(&mut &raw[..]).unwrap()
}

fn map(pairs: &[(&str, Value)]) -> Vec<u8> {
    encoded(Value::Map(
        pairs
            .iter()
            .map(|(k, v)| (Value::from(*k), v.clone()))
            .collect(),
    ))
}

#[test]
fn an_answer_goes_where_it_belongs() {
    let answer = |pairs: &[(&str, Value)]| print_answer(&map(pairs));
    let t = Value::from("t");
    assert!(matches!(
        answer(&[("ok", true.into()), ("text", t.clone())]),
        (Shown::Out(s), false) if s == "t"
    ));
    assert!(matches!(answer(&[("ok", true.into())]), (Shown::Nothing, false)));
    assert!(matches!(
        answer(&[("ok", false.into()), ("text", t.clone())]),
        (Shown::Error(s), false) if s == "t"
    ));
    assert!(matches!(
        answer(&[]),
        (Shown::Error(s), false) if s == "the repl answered nothing"
    ));
    assert!(matches!(
        answer(&[("more", true.into()), ("text", t)]),
        (Shown::Nothing, true)
    ));
    assert!(matches!(print_answer(&[]), (Shown::Nothing, false)));
}

#[test]
fn an_unfinished_line_is_carried_over() {
    let mut r = Repl::new();
    assert_eq!(r.prompt(), "dv> ");
    assert_eq!(r.feed("  "), None);
    let first = r.feed("x = (").unwrap();
    assert_eq!(decoded(&first), Value::from("x = ("));
    r.print_answers(&vec![map(&[("more", true.into())])]);
    assert!(r.continuing());
    assert_eq!(r.prompt(), ">> ");
    let second = r.feed("").unwrap();
    assert_eq!(decoded(&second), Value::from("x = (\n"));
    let third = r.feed("1)").unwrap();
    assert_eq!(decoded(&third), Value::from("x = (\n\n1)"));
    let shown = r.print_answers(&vec![map(&[("ok", true.into()), ("text", "1".into())])]);
    assert!(matches!(&shown[..], [Shown::Out(s)] if s == "1"));
    assert!(!r.continuing());
    assert_eq!(r.pending, "");
}

#[test]
fn a_park_that_a_terminal_cannot_wake_is_a_failure() {
    assert!(matches!(
        Repl::tick(Next::Stuck { for_space: false }),
        Next::Failed(why) if why == "the repl parked on something the terminal cannot wake"
    ));
    assert!(matches!(Repl::tick(Next::Input), Next::Input));
    assert_eq!(sent(true, true), Ok(()));
    assert_eq!(
        sent(false, true),
        Err("the repl program never declared its input queue".to_string())
    );
    assert_eq!(
        sent(true, false),
        Err("the repl's input queue is full".to_string())
    );
}

#[test]
fn a_deployment_drives_each_instance_on_its_own_park() {
    let mut host = DeployHost::new();
    assert_eq!(host.drive(1, None, &Vec::new(), 0), HostMove::Run);
    assert_eq!(host.last_active(1), 1);
    assert!(matches!(
        host.note(1, Ok(Step::Parked(wait(&[7], false, Some(5 * MS)))), 0),
        Driven::Alive
    ));
    let empty = vec![status(0, 4)];
    assert_eq!(host.drive(1, None, &empty, MS), HostMove::Stay);
    assert_eq!(host.last_active(1), 1);
    assert_eq!(host.next_deadline(), Some(5 * MS));
    assert_eq!(host.drive(1, None, &vec![status(1, 4)], 9 * MS), HostMove::Resume(7));
    assert_eq!(host.last_active(1), 3);
    assert_eq!(host.drive(1, None, &empty, 9 * MS), HostMove::ResumeTimeout);
    assert!(matches!(host.note(1, Ok(Step::Done), 0), Driven::Exited));
    assert_eq!(host.next_deadline(), None);
    assert_eq!(host.last_active(9), 0);
}

#[test]
fn a_restored_instance_is_asked_where_it_was_parked() {
    let mut host = DeployHost::new();
    let park = || Some(wait(&[7], false, Some(2 * MS)));
    assert_eq!(host.drive(1, park(), &vec![status(0, 4)], MS), HostMove::Stay);
    assert_eq!(host.next_deadline(), Some(3 * MS));
    host.forget(1);
    assert_eq!(host.next_deadline(), None);
    assert!(matches!(
        host.note(1, Err("boom".to_string()), 0),
        Driven::Faulted(why) if why == "boom"
    ));
    assert_eq!(fault_line(4, "boom"), "drt: instance 4 faulted: boom");
}

fn candidate(id: u32, last_active: u64) -> Candidate {
    Candidate {
        id,
        resident: true,
        wake_on_message: true,
        last_active,
    }
}

#[test]
fn the_least_active_sleep_first_and_the_root_never_does() {
    let mut deaf = candidate(6, 0);
    deaf.wake_on_message = false;
    let mut away = candidate(7, 0);
    away.resident = false;
    let all = vec![
        candidate(1, 0),
        candidate(2, 5),
        candidate(3, 2),
        candidate(4, 2),
        deaf,
        away,
    ];
    let e = enforce_residency(&all, 1, 1);
    assert_eq!(e.over, 2);
    let ids: Vec<u32> = e.order.iter().map(|c| c.id).collect();
    assert_eq!(ids, vec![4, 3, 2]);
    assert_eq!(enforce_residency(&all, 1, 3).over, 0);
    // The first cannot sleep and is passed over; the two behind it do.
    let mut e = enforce_residency(&all, 1, 1);
    assert_eq!(e.next(false).map(|c| c.id), Some(4));
    assert_eq!(e.next(false).map(|c| c.id), Some(3));
    assert_eq!(e.next(true).map(|c| c.id), Some(2));
    assert!(e.next(true).is_none());
    let mut e = enforce_residency(&all, 1, 2);
    assert_eq!(e.next(false).map(|c| c.id), Some(4));
    assert!(e.next(true).is_none(), "enough sleep");
}

#[test]
fn the_host_wakes_for_the_earliest_deadline() {
    assert_eq!(idle(None, 0), IDLE_TICK);
    assert_eq!(idle(Some(5), 0), 5);
    assert_eq!(idle(Some(5), 9), 0);
    assert_eq!(idle(Some(9 * MS), 0), IDLE_TICK);
    assert!(matches!(tick(0, None, 0), Next::Done(Outcome::Exited)));
    assert!(matches!(tick(2, Some(5), 0), Next::Sleep(5)));
}

#[test]
fn a_deployment_needs_its_program() {
    assert_eq!(prepare(0), Ok(()));
    assert!(prepare(2)
        .unwrap_err()
        .starts_with("this config names 2 listener(s), and this build does not carry `listen`"));
    let path = Some(Program::Path("a.dlua".to_string()));
    assert_eq!(root_source(&path, Ok("x".to_string())), Ok("x".to_string()));
    assert_eq!(
        root_source(&path, Err("gone".to_string())),
        Err("cannot read a.dlua: gone".to_string())
    );
    let source = Some(Program::Source("y".to_string()));
    assert_eq!(
        root_source(&source, Err("unused".to_string())),
        Ok("y".to_string())
    );
    assert!(root_source(&None, Ok(String::new()))
        .unwrap_err()
        .contains("\n  name one:  \"program\": {\"path\": \"...\"}\n"));
}

fn rt(reply_queue: &str) -> ListenerRt {
    ListenerRt::new(
        0,
        &Listener {
            scheme: "http".to_string(),
            address: String::new(),
            queue: "in".to_string(),
            reply_queue: reply_queue.to_string(),
            headers: Vec::new(),
            resp_headers: Vec::new(),
            max_body: 0,
            conn_deadline_ms: 1000,
            max_conns: 4,
            admit_timeout_ms: 60,
        },
    )
    .unwrap()
}

fn refused(status: u16, text: &'static str) -> Delivery {
    Delivery::Refuse(listen::Outcome::refused(status, text))
}

#[test]
fn a_request_that_is_not_delivered_is_refused() {
    assert_eq!(deliver(Ok(()), 0, 60), Delivery::Delivered);
    assert_eq!(
        deliver(Err(PushError::Gone), 0, 60),
        refused(503, "the root instance is not resident\n")
    );
    assert_eq!(
        deliver(Err(PushError::Unknown), 0, 60),
        refused(503, "the root instance is not resident\n")
    );
    assert_eq!(
        deliver(Err(PushError::Limit), 0, 60),
        refused(503, "the request queue is full; try again\n")
    );
    assert_eq!(
        deliver(Err(PushError::Other), 0, 60),
        refused(500, "delivery failed\n")
    );
    assert_eq!(
        deliver(Err(PushError::UnknownQueue), 0, 0),
        refused(503, "the program declares no request queue\n")
    );
}

#[test]
fn a_request_waits_for_its_queue_to_exist() {
    let listeners = vec![rt("out")];
    let mut holding = Holding::new();
    for token in [1, 2, 3] {
        assert_eq!(deliver(Err(PushError::UnknownQueue), 0, 60), Delivery::Hold);
        let ingress = Ingress {
            listener: 0,
            token,
            message: vec![token as u8],
        };
        holding.hold(ingress, token as u128 * MS);
    }
    let unknown = Err(PushError::UnknownQueue);
    let refusals = holding.retry_held(&vec![unknown, Ok(()), unknown], &listeners, 61 * MS);
    assert_eq!(
        refusals,
        vec![(
            1,
            listen::Outcome::refused(503, "the program declares no request queue\n")
        )]
    );
    assert_eq!(holding.held.len(), 1);
    assert_eq!(holding.held[0].ingress.token, 3);
    assert_eq!(holding.held[0].ingress.message, vec![3]);
    assert!(holding.retry_held(&vec![Ok(())], &listeners, 99 * MS).is_empty());
    assert!(holding.held.is_empty());
}

#[test]
fn a_reply_queue_that_is_shared_is_drained_once() {
    let listeners = vec![rt("out"), rt("other"), rt("out")];
    assert_eq!(reply_queues(&listeners), vec!["out", "other"]);
}

#[test]
fn a_reply_finishes_the_connection_it_names() {
    let mut bound = Bound::new(vec![rt("out")]);
    bound.accept(0, 0);
    bound.heard(0, Heard::Bytes(b"GET / HTTP/1.1\r\n\r\n".to_vec()), 0);
    settle_reply(&mut bound, &map(&[("conn", 9.into())]), 1);
    assert_eq!(bound.owner_of(1), Some(0));
    settle_reply(&mut bound, &map(&[("conn", 1.into()), ("status", 404.into())]), 1);
    assert_eq!(bound.owner_of(1), None);
    assert!(bound.owing(0).starts_with(b"HTTP/1.1 404 Not Found\r\n"));
}

#[test]
fn the_relay_tells_what_happened() {
    let label = || "home".to_string();
    assert_eq!(
        event_message(&RelayEvent::Parked { label: label() }),
        map(&[("event", "parked".into()), ("label", "home".into())])
    );
    assert_eq!(
        event_message(&RelayEvent::Claimed { label: label(), session: 3 }),
        map(&[
            ("event", "claimed".into()),
            ("label", "home".into()),
            ("session", 3.into()),
        ])
    );
    assert_eq!(
        event_message(&RelayEvent::Closed { label: label(), session: 3, bytes: 300 }),
        map(&[
            ("event", "closed".into()),
            ("label", "home".into()),
            ("session", 3.into()),
            ("bytes", 300.into()),
        ])
    );
}

#[test]
fn a_question_is_answered_once() {
    let mut bridge = RelayBridge::new();
    let (tok, message) = bridge.ask("home", Leg::Caller);
    assert_eq!(tok, 1);
    assert_eq!(
        message,
        map(&[
            ("event", "admit".into()),
            ("tok", 1.into()),
            ("label", "home".into()),
            ("leg", "caller".into()),
        ])
    );
    bridge.asked(1, true);
    let (second, _) = bridge.ask("home", Leg::Park);
    bridge.asked(second, false);
    let yes = map(&[("tok", 1.into()), ("ok", true.into())]);
    assert_eq!(bridge.collect(&map(&[("tok", second.into()), ("ok", true.into())])), None);
    assert_eq!(bridge.collect(&map(&[("ok", true.into())])), None);
    assert_eq!(bridge.collect(&[]), None);
    assert_eq!(bridge.collect(&yes), Some((1, true)));
    assert_eq!(bridge.collect(&yes), None);
    let (third, _) = bridge.ask("home", Leg::Park);
    bridge.asked(third, true);
    assert_eq!(bridge.collect(&map(&[("tok", third.into())])), Some((third, false)));
}
