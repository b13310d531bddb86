//! Certificates, the stack in this process, the servers' reports, and the
//! addresses and names that they carry.

use drt::addr::{IpAddr, SocketAddr};
use drt::msg::Datum;
use drt::paths;
use drt::revision::{lock_candidates, revision_of};
use drt::roots::{judge, load_roots, load_roots_named, store, PemFile};
use drt::stun;
use drt::turn;
use drt::turn::{relay_address, secret, Keys};
use drt::userspace::{
    bound_reports, error, established, expose_leg, forward_at, forward_leg, may_receive, may_send,
    outbound, own_network, read_exposes, resets, seed, sweep, Dialed, Expose, Forward, In, InAct,
    Inbound, LegAct, Network, OutAct, Ports, Released, Report, Tcp, Turn,
};
use drt::webrtc::{
    collect, command_from, host_config, report_message, Command, Event, Held, Readings,
    WebrtcConfig, HELD_MAX, MAX_PEER,
};
use rmpv::Value;

// ---- roots ----

#[test]
fn store_adds_beside_webpki_and_never_replaces_it() {
    let public = webpki_roots::TLS_SERVER_ROOTS.len();
    assert!(public > 0, "webpki ships roots, or nothing below means much");
    assert_eq!(store(&Vec::new()).roots.len(), public);
    let issued = rcgen::generate_simple_self_signed(vec!["localhost".to_string()]).unwrap();
    let with = store(&vec![issued.cert.der().to_vec()]);
    assert_eq!(
        with.roots.len(),
        public + 1,
        "one more than the public set: the named CA beside them, not instead"
    );
}

fn pem(name: &str, bytes: &[u8]) -> Vec<PemFile> {
    vec![PemFile {
        name: name.to_string(),
        read: Ok(bytes.to_vec()),
    }]
}

#[test]
fn a_file_that_is_not_a_certificate_is_refused_by_name() {
    let e = load_roots(&pem("/tmp/not-a-cert.pem", b"this is not a certificate\n")).unwrap_err();
    assert!(e.contains("--extra-root"), "{}", e);
    assert!(e.contains("not-a-cert.pem"), "{}", e);
}

#[test]
fn an_empty_pem_is_refused_rather_than_silently_trusting_nothing() {
    let issued = rcgen::generate_simple_self_signed(vec!["localhost".to_string()]).unwrap();
    let good = pem("ca.pem", issued.cert.pem().as_bytes());
    assert_eq!(load_roots(&good).unwrap().len(), 1);
    let e = load_roots(&pem("empty.pem", b"")).unwrap_err();
    assert!(e.contains("no certificate in it"), "{}", e);
}

#[test]
fn a_certificate_loads_as_its_own_bytes_and_a_refusal_names_the_key() {
    let issued = rcgen::generate_simple_self_signed(vec!["localhost".to_string()]).unwrap();
    let mut files = pem("ca.pem", issued.cert.pem().as_bytes());
    files.extend(pem("again.pem", issued.cert.pem().as_bytes()));
    let der = issued.cert.der().to_vec();
    assert_eq!(
        load_roots_named("tunnel.extra_roots", &files).unwrap(),
        vec![der.clone(), der]
    );
    files.push(PemFile {
        name: "gone.pem".to_string(),
        read: Err("no such file".to_string()),
    });
    assert_eq!(
        load_roots_named("tunnel.extra_roots", &files).unwrap_err(),
        "tunnel.extra_roots 'gone.pem': no such file"
    );
}

#[test]
fn a_certificate_that_anchors_nothing_is_refused() {
    let issued = rcgen::generate_simple_self_signed(vec!["localhost".to_string()]).unwrap();
    let some = vec![vec![1, 2, 3], issued.cert.der().to_vec(), vec![4]];
    assert_eq!(
        judge("--extra-root", "x.pem", Ok(some)).unwrap_err(),
        "--extra-root 'x.pem': 2 certificate(s) are not usable as trust anchors"
    );
    assert_eq!(store(&vec![vec![1, 2, 3]]).roots.len(), webpki_roots::TLS_SERVER_ROOTS.len());
}

// ---- the stack ----

#[test]
fn the_stack_has_the_address_of_its_block() {
    assert_eq!(
        own_network(Some("10.1.2.3/24")),
        Ok(Network { ip: IpAddr::V4(10, 1, 2, 3), prefix: 24 })
    );
    assert_eq!(
        own_network(Some("fd00::1:2/64")),
        Ok(Network { ip: IpAddr::V6(0xfd00, 0, 0, 0, 0, 0, 1, 2), prefix: 64 })
    );
    assert_eq!(
        own_network(Some("10.1.2.3")),
        Ok(Network { ip: IpAddr::V4(10, 1, 2, 3), prefix: 32 })
    );
    assert_eq!(
        own_network(Some("10.1.2.3/33")),
        Err("wireguard.address: invalid address: 10.1.2.3/33".to_string())
    );
    assert_eq!(
        own_network(None),
        Err("wireguard: mode = \"userspace\" needs an `address`".to_string())
    );
}

fn at(port: u16) -> SocketAddr {
    SocketAddr { ip: IpAddr::V4(10, 0, 0, 2), port }
}

#[test]
fn what_cannot_be_bound_or_read_is_named_by_its_place() {
    let entry = |to: Option<SocketAddr>| Forward { bind: "127.0.0.1:1".to_string(), to };
    assert_eq!(forward_at(0, &entry(Some(at(22))), &Ok(())), Ok(at(22)));
    assert_eq!(
        forward_at(2, &entry(None), &Err("in use".to_string())),
        Err("wireguard.forward[2].bind: cannot bind 127.0.0.1:1: in use".to_string())
    );
    assert_eq!(
        forward_at(3, &entry(None), &Ok(())),
        Err("wireguard.forward[3].to: not an ip:port".to_string())
    );
    let expose = |tunnel: Option<SocketAddr>| Expose { tunnel, to: "h:1".to_string() };
    assert_eq!(
        read_exposes(&vec![expose(Some(at(1))), expose(Some(at(2)))]),
        Ok(vec![at(1), at(2)])
    );
    assert_eq!(
        read_exposes(&vec![expose(Some(at(1))), expose(None), expose(None)]),
        Err("wireguard.expose[1].tunnel: not an ip:port".to_string())
    );
}

#[test]
fn ports_go_round() {
    assert_eq!(seed(0b101, 0), 0b101);
    assert_eq!(seed(1, 2), (2u64 << 32) ^ 1);
    let mut ports = Ports::new(16_383);
    assert_eq!(ports.take(), 65_535);
    assert_eq!(ports.take(), 49_152);
    assert_eq!(ports.take(), 49_153);
    assert_eq!(Ports::new(16_384).next, 49_152);
}

#[test]
fn a_handshake_comes_to_something_or_goes_on() {
    assert_eq!(established(Tcp::Established), Some(Ok(())));
    assert_eq!(established(Tcp::SynSent), None);
    assert_eq!(established(Tcp::SynReceived), None);
    assert_eq!(
        established(Tcp::Listen),
        Some(Err("the handshake was reset before it completed"))
    );
    assert_eq!(established(Tcp::Closed), Some(Err("refused")));
    assert_eq!(established(Tcp::CloseWait), Some(Err("refused")));
}

#[test]
fn what_has_come_is_taken_before_the_end_is_seen() {
    assert_eq!(may_receive(false, true), Turn::Move);
    assert_eq!(may_receive(false, false), Turn::Over);
    assert_eq!(may_receive(true, false), Turn::Wait);
    assert_eq!(may_send(false, true), Turn::Over);
    assert_eq!(may_send(true, true), Turn::Move);
    assert_eq!(may_send(true, false), Turn::Wait);
}

#[test]
fn a_released_socket_goes_when_it_has_nothing_left_to_say() {
    let one = |handle: u64, state: Tcp, remote: bool| Released { handle, state, remote };
    let all = vec![
        one(1, Tcp::TimeWait, true),
        one(2, Tcp::Closed, true),
        one(3, Tcp::Closed, false),
        one(4, Tcp::FinWait1, false),
    ];
    assert_eq!(sweep(&all), (vec![2, 4], vec![1, 3]));
}

#[test]
fn a_leg_that_cannot_be_made_says_why() {
    assert!(matches!(forward_leg(Dialed::Made, "t", 5), LegAct::Pump));
    assert!(matches!(
        forward_leg(Dialed::Unopened("no".to_string()), "t", 5),
        LegAct::End { abort: false, release: false, reason: Some(why) } if why == "no"
    ));
    assert!(matches!(
        forward_leg(Dialed::Refused("refused"), "t", 5),
        LegAct::End { abort: false, release: true, reason: Some(why) }
            if why == "refused by t: a peer answered, and nothing listens there"
    ));
    assert!(matches!(
        forward_leg(Dialed::Silent, "t", 5),
        LegAct::End { abort: true, release: true, reason: Some(why) }
            if why == "no answer from t in 5s: no peer is allowed it, or its tunnel is down"
    ));
    assert!(matches!(
        expose_leg(false, None, "t"),
        LegAct::End { abort: true, release: true, reason: None }
    ));
    assert!(matches!(
        expose_leg(true, Some(Err("down".to_string())), "t"),
        LegAct::End { abort: true, release: true, reason: Some(why) } if why == "cannot dial t: down"
    ));
    assert!(matches!(expose_leg(true, Some(Ok(())), "t"), LegAct::Pump));
}

#[test]
fn the_stack_reports_what_it_bound_and_what_failed() {
    let (line, report) = error("forward", "a", "b", "c");
    assert_eq!(line, "drt wg: forward a -> b: c");
    assert!(matches!(
        report,
        Report::Refused { command, reason } if command == "forward" && reason == "a -> b: c"
    ));
    let ends = |a: &str, b: &str| (a.to_string(), b.to_string());
    let all = bound_reports(&vec![ends("a", "b")], &vec![ends("c", "d")]);
    assert!(matches!(
        &all[..],
        [
            Report::Forward { kind: "forward", from: f, to: t },
            Report::Forward { kind: "expose", from: g, to: u },
        ] if f == "a" && t == "b" && g == "c" && u == "d"
    ));
}

#[test]
fn everything_read_is_offered_before_more_is_read() {
    let mut way = Inbound { read: 0, sent: 0 };
    assert_eq!(way.step(In::Read(5)), InAct::Offer { from: 0, to: 5 });
    assert_eq!(way.step(In::Took(2)), InAct::Offer { from: 2, to: 5 });
    assert_eq!(way.step(In::Took(3)), InAct::Read);
    assert_eq!(way.step(In::End), InAct::Close);
    assert_eq!(way.step(In::Lost), InAct::Fail);
    assert_eq!(way.step(In::Read(1)), InAct::Offer { from: 0, to: 1 });
    assert_eq!(way.step(In::Shut), InAct::Fail);
    assert_eq!(outbound(0), OutAct::Shut);
    assert_eq!(outbound(9), OutAct::Write(9));
    assert!(resets(true, false) && resets(false, true) && !resets(true, true));
}

// ---- stun and turn ----

fn decoded(raw: &[u8]) -> Value {
    rmpv::decode::read_value(&mut &raw[..]).unwrap()
}

fn encoded(v: &Value) -> Vec<u8> {
    let mut out = Vec::new();
    rmpv::encode::write_value(&mut out, v).unwrap();
    out
}

fn map(pairs: &[(&str, Value)]) -> Value {
    Value::Map(
        pairs
            .iter()
            .map(|(k, v)| (Value::from(*k), v.clone()))
            .collect(),
    )
}

fn counters(requests: u64) -> stun::StunServerSnapshot {
    stun::StunServerSnapshot {
        requests,
        responses: 2,
        dropped: 3,
        bytes_in: 4,
        bytes_out: 5,
        last_activity_ms: 6,
    }
}

#[test]
fn a_report_is_made_when_it_is_due_and_something_changed() {
    let mut bridge = stun::StunBridge::start(at(3478), 10, 0);
    let first = bridge.report(counters(1), 0).unwrap();
    assert_eq!(
        decoded(&first),
        map(&[
            ("event", "stun".into()),
            ("addr", "10.0.0.2:3478".into()),
            ("requests", 1.into()),
            ("responses", 2.into()),
            ("dropped", 3.into()),
            ("bytes_in", 4.into()),
            ("bytes_out", 5.into()),
            ("last_activity_ms", 6.into()),
        ])
    );
    assert_eq!(bridge.report(counters(9), 9_999_999), None);
    assert_eq!(bridge.report(counters(1), 10_000_000), None);
    assert_eq!(bridge.report(counters(2), 19_999_999), None);
    assert!(bridge.report(counters(2), 20_000_000).is_some());
}

fn keys() -> Keys {
    Keys { key_file: None, key_env: None, key: None }
}

const LONG: &str = "sixteen bytes ok";

#[test]
fn a_secret_is_read_from_the_first_place_that_names_one() {
    let mut k = keys();
    k.key_file = Some(("f".to_string(), Ok(format!("{}\n", LONG).into_bytes())));
    k.key = Some("other key of sixteen".to_string());
    assert_eq!(secret(k), Ok(LONG.to_string()));
    let mut k = keys();
    k.key_env = Some(("V".to_string(), Some(LONG.to_string())));
    assert_eq!(secret(k), Ok(LONG.to_string()));
    let mut k = keys();
    k.key = Some(format!("{}\n", LONG));
    assert_eq!(secret(k), Ok(format!("{}\n", LONG)));
}

#[test]
fn a_relay_without_a_secret_is_refused() {
    let short = "turn: the key is missing or shorter than 16 bytes (set one of key_file, key_env, \
                 key); a relay with nothing to verify against is an open relay, and is refused";
    assert_eq!(secret(keys()).unwrap_err(), short);
    let mut k = keys();
    k.key_file = Some(("f".to_string(), Ok(b"fifteen bytes !\n".to_vec())));
    assert_eq!(secret(k).unwrap_err(), short);
    let mut k = keys();
    k.key_file = Some(("f".to_string(), Err("gone".to_string())));
    assert_eq!(secret(k).unwrap_err(), "turn: cannot read key_file 'f': gone");
    let mut k = keys();
    k.key_env = Some(("V".to_string(), None));
    assert_eq!(secret(k).unwrap_err(), "turn: env var 'V' (key_env) is not set");
    let mut k = keys();
    k.key_file = Some(("f".to_string(), Ok(vec![0xff; 16])));
    assert_eq!(
        secret(k).unwrap_err(),
        "turn: the key must be text (coturn's static-auth-secret is)"
    );
}

#[test]
fn peers_are_told_an_address_they_can_reach() {
    let ip = IpAddr::V4(192, 0, 2, 1);
    let wild = SocketAddr { ip: IpAddr::V4(0, 0, 0, 0), port: 3478 };
    let unread = || Err("invalid IP address syntax".to_string());
    assert_eq!(relay_address("192.0.2.1", Ok(ip), "x", None), Ok(ip));
    assert_eq!(
        relay_address("nope", unread(), "x", None),
        Err("turn.relay_address 'nope' is not an IP address: invalid IP address syntax".to_string())
    );
    assert_eq!(relay_address("", unread(), "10.0.0.2:3478", Some(at(3478))), Ok(at(0).ip));
    assert_eq!(
        relay_address("", unread(), "0.0.0.0:3478", Some(wild)),
        Err("turn needs relay_address: bind '0.0.0.0:3478' is a wildcard, and peers must be told \
             an address they can reach"
            .to_string())
    );
    assert_eq!(
        relay_address("", unread(), "host:3478", None),
        Err("turn needs relay_address: bind 'host:3478' is not a literal address to derive it from"
            .to_string())
    );
}

#[test]
fn a_closed_allocation_says_what_it_cost() {
    let mut c = turn::ClosedAllocation {
        username: "u".to_string(),
        principal: Some("p".to_string()),
        relay_addr: at(1),
        client_addr: SocketAddr { ip: IpAddr::V6(0, 0, 0, 0, 0, 0, 0, 1), port: 2 },
        relayed_bytes: 70_000,
    };
    let said = |c: &turn::ClosedAllocation, principal: Value| {
        assert_eq!(
            decoded(&turn::closed_message(c)),
            map(&[
                ("event", "turn_closed".into()),
                ("username", "u".into()),
                ("principal", principal),
                ("relay_addr", "10.0.0.2:1".into()),
                ("client_addr", "[::1]:2".into()),
                ("relayed_bytes", 70_000.into()),
            ])
        );
    };
    said(&c, "p".into());
    c.principal = None;
    said(&c, Value::Nil);
}

#[test]
fn a_turn_server_reports_its_counters() {
    let mut bridge = turn::TurnBridge::start(at(3478), IpAddr::V4(192, 0, 2, 1), 10, 5);
    let snapshot = || turn::TurnSnapshot {
        live_allocations: 1,
        max_allocations: 2,
        allocations_granted: 3,
        allocations_refused: 4,
        allocations_closed: 5,
        relayed_bytes_closed: 6,
        auth_ok: 7,
        auth_refused: 8,
        last_activity_ms: 9,
    };
    assert_eq!(bridge.report(snapshot(), 4), None);
    assert_eq!(
        decoded(&bridge.report(snapshot(), 5).unwrap()),
        map(&[
            ("event", "turn".into()),
            ("addr", "10.0.0.2:3478".into()),
            ("relay_address", "192.0.2.1".into()),
            ("live_allocations", 1.into()),
            ("max_allocations", 2.into()),
            ("allocations_granted", 3.into()),
            ("allocations_refused", 4.into()),
            ("allocations_closed", 5.into()),
            ("relayed_bytes_closed", 6.into()),
            ("auth_ok", 7.into()),
            ("auth_refused", 8.into()),
            ("last_activity_ms", 9.into()),
        ])
    );
    assert_eq!(bridge.report(snapshot(), 10_000_005), None);
}

// ---- webrtc ----

fn texts(pairs: &[(&str, &str)]) -> Datum {
    Datum::Table(
        pairs
            .iter()
            .map(|(k, v)| (Datum::Text(k.to_string()), Datum::Text(v.to_string())))
            .collect(),
    )
}

#[test]
fn commands_are_read_and_bad_ones_named() {
    assert!(matches!(
        command_from(&texts(&[("command", "open"), ("peer", "b1"), ("rtc", "{}")])),
        Ok(Command::Open { peer, rtc }) if peer == "b1" && rtc == "{}"
    ));
    assert!(matches!(
        command_from(&texts(&[("command", "close"), ("peer", "b1")])),
        Ok(Command::Close { peer }) if peer == "b1"
    ));
    assert!(command_from(&texts(&[("command", "open"), ("peer", "b1")]))
        .unwrap_err()
        .contains("`rtc`"));
    assert!(command_from(&texts(&[("command", "wake")]))
        .unwrap_err()
        .contains("unknown command"));
}

#[test]
fn each_bad_command_has_its_words() {
    let said = |pairs: &[(&str, &str)]| command_from(&texts(pairs)).unwrap_err();
    assert_eq!(said(&[]), "a command needs `command`, a string");
    assert_eq!(said(&[("command", "close")]), "a command needs `peer`, a string");
    assert_eq!(
        said(&[("command", "close"), ("peer", "")]),
        "`peer` must be 1..=64 bytes"
    );
    let long = "\u{e9}".repeat(MAX_PEER / 2 + 1);
    assert_eq!(
        said(&[("command", "close"), ("peer", long.as_str())]),
        "`peer` must be 1..=64 bytes"
    );
    assert_eq!(
        said(&[("command", "open"), ("peer", "a")]),
        "`open` needs `rtc`, the browser's presence record"
    );
    assert_eq!(said(&[("command", "x")]), "unknown command 'x' (open, close)");
    assert!(collect(&[]).unwrap_err().starts_with("a command that is not msgpack: "));
    let raw = encoded(&map(&[("command", "close".into()), ("peer", "b1".into())]));
    assert!(matches!(collect(&raw), Ok(Command::Close { peer }) if peer == "b1"));
}

fn block(default: Option<&str>) -> WebrtcConfig {
    WebrtcConfig {
        bind: "0.0.0.0:0".to_string(),
        default: default.map(|d| d.to_string()),
        stun_refresh_s: 20,
        max_sessions: 8,
        max_streams_per_session: 64,
    }
}

#[test]
fn a_bad_scope_or_default_is_refused_at_start_by_name() {
    let bad = Readings {
        bind: true,
        scope: vec![Err(
            "scope entry 'http://h/path' is not scheme://host[:port]".to_string()
        )],
        default: None,
    };
    let e = host_config(&block(None), &bad).unwrap_err();
    assert!(e.starts_with("webrtc.scope entry"), "{}", e);
    let outside = Readings {
        bind: true,
        scope: vec![Ok(())],
        default: Some(Ok(false)),
    };
    let e = host_config(&block(Some("http://b:80")), &outside).unwrap_err();
    assert!(e.contains("is not in webrtc.scope"), "{}", e);
}

#[test]
fn each_other_refusal_of_a_block_has_its_words() {
    let read = |bind: bool, default: Option<Result<bool, String>>| Readings {
        bind,
        scope: vec![Ok(())],
        default,
    };
    assert_eq!(host_config(&block(None), &read(true, None)), Ok(()));
    assert_eq!(host_config(&block(Some("d")), &read(true, Some(Ok(true)))), Ok(()));
    assert_eq!(
        host_config(&block(None), &read(false, None)).unwrap_err(),
        "webrtc.bind '0.0.0.0:0' is not ip:port"
    );
    assert_eq!(
        host_config(&block(Some("d")), &read(true, Some(Err("bad".to_string())))).unwrap_err(),
        "webrtc.default: bad"
    );
    let mut c = block(None);
    c.stun_refresh_s = 0;
    assert_eq!(
        host_config(&c, &read(true, None)).unwrap_err(),
        "webrtc.stun_refresh_s must be at least 1"
    );
    let mut c = block(None);
    c.max_streams_per_session = 0;
    assert_eq!(
        host_config(&c, &read(true, None)).unwrap_err(),
        "webrtc: max_sessions and max_streams_per_session must be at least 1"
    );
}

#[test]
fn a_report_names_its_event() {
    assert_eq!(
        decoded(&report_message(&Event::Record { rtc: "r".to_string() })),
        map(&[("event", "webrtc_record".into()), ("rtc", "r".into())])
    );
    assert_eq!(
        decoded(&report_message(&Event::Session {
            peer: "p".to_string(),
            connected: true,
            reason: None,
        })),
        map(&[
            ("event", "webrtc_session".into()),
            ("peer", "p".into()),
            ("state", "connected".into()),
            ("reason", Value::Nil),
        ])
    );
    assert_eq!(
        decoded(&report_message(&Event::Stream {
            peer: "p".to_string(),
            stream: 3,
            host: "h".to_string(),
            port: 80,
            open: false,
            reason: Some("idle".to_string()),
            bytes_up: 1,
            bytes_down: 2,
        })),
        map(&[
            ("event", "webrtc_stream".into()),
            ("peer", "p".into()),
            ("stream", 3.into()),
            ("host", "h".into()),
            ("port", 80.into()),
            ("state", "closed".into()),
            ("reason", "idle".into()),
            ("bytes_up", 1.into()),
            ("bytes_down", 2.into()),
        ])
    );
}

#[test]
fn reports_are_held_and_the_oldest_go_first() {
    let mut held = Held::new();
    assert!(held.front().is_none());
    for i in 0..HELD_MAX {
        assert_eq!(held.hold(vec![(i % 251) as u8], "q"), None);
    }
    assert_eq!(
        held.hold(vec![9], "q").as_deref(),
        Some("drt start: webrtc: queue 'q' is not taking reports; dropping the oldest")
    );
    assert_eq!(held.hold(vec![9], "q"), None);
    assert_eq!(held.held.len(), HELD_MAX);
    assert_eq!(held.front(), Some(&vec![2]));
    held.sent();
    assert_eq!(held.front(), Some(&vec![3]));
}

// ---- revision ----

#[test]
fn the_revision_is_that_of_the_core() {
    let lock = "[[package]]\nname = \"other\"\nsource = \"git+https://x/y#aaaa\"\n\n[[package]]\n\
                name = \"diluvium\"\nversion = \"1\"\nsource = \"git+https://x/d?rev=1#bbbb\"\n";
    assert_eq!(revision_of(lock).as_deref(), Some("bbbb"));
    let path = "[[package]]\nname = \"diluvium\"\nversion = \"1\"\n\n[[package]]\nname = \"z\"\n\
                source = \"git+https://x/y#aaaa\"\n";
    assert_eq!(revision_of(path), None);
    assert_eq!(revision_of(""), None);
    assert_eq!(
        revision_of("name = \"diluvium\"\nsource = \"git+https://x/y\"\nsource = \"git+z#c\"\n"),
        None
    );
}

#[test]
fn the_lock_is_looked_for_upward() {
    assert_eq!(
        lock_candidates("/w/crates/drt"),
        vec![
            "/w/crates/drt/Cargo.lock",
            "/w/crates/Cargo.lock",
            "/w/Cargo.lock",
            "/Cargo.lock",
        ]
    );
    assert_eq!(lock_candidates("/w"), vec!["/w/Cargo.lock", "/Cargo.lock"]);
}

// ---- paths and addresses ----

#[test]
fn a_path_is_joined_and_taken_apart() {
    assert_eq!(paths::join("/a", "b"), "/a/b");
    assert_eq!(paths::join("/a/", "b"), "/a/b");
    assert_eq!(paths::join("/a", "/b"), "/b");
    assert_eq!(paths::join("", "b"), "b");
    assert!(paths::absolute("/a") && !paths::absolute("a"));
    assert_eq!(paths::parent_of("/a/b").as_deref(), Some("/a"));
    assert_eq!(paths::parent_of("a").as_deref(), Some(""));
    assert_eq!(paths::parent_of("/"), None);
    assert_eq!(paths::file_name_of("/a/b.c").as_deref(), Some("b.c"));
    assert_eq!(paths::file_name_of("/"), None);
}

#[test]
fn a_path_below_another_is_told_by_its_parts() {
    assert_eq!(paths::relative("/r/src/a", "/r").as_deref(), Some("src/a"));
    assert_eq!(paths::relative("/r//src", "/r/").as_deref(), Some("src"));
    assert_eq!(paths::relative("/root/src", "/r"), None);
    assert_eq!(paths::relative("/r", "/r").as_deref(), Some(""));
}

#[test]
fn addresses_are_written_as_they_are_read() {
    assert_eq!(IpAddr::V4(10, 0, 0, 1).show(), "10.0.0.1");
    assert_eq!(IpAddr::V6(0, 0, 0, 0, 0, 0, 0, 1).show(), "::1");
    assert_eq!(IpAddr::V6(0, 0, 0, 0, 0, 0, 0, 0).show(), "::");
    assert_eq!(
        IpAddr::V6(0x2001, 0xdb8, 0, 0, 1, 0, 0, 1).show(),
        "2001:db8::1:0:0:1"
    );
    assert_eq!(
        IpAddr::V6(1, 0, 2, 3, 4, 5, 6, 7).show(),
        "1:0:2:3:4:5:6:7"
    );
    assert_eq!(
        IpAddr::V6(0, 0, 0, 0, 0, 0xffff, 0xc000, 0x0201).show(),
        "::ffff:192.0.2.1"
    );
    let v6 = SocketAddr { ip: IpAddr::V6(0xfe80, 0, 0, 0, 0, 0, 0, 1), port: 8 };
    assert_eq!(v6.show(), "[fe80::1]:8");
}
