//! The relay's routes and legs, the tunnel's modes, and the edge's answers.

use drt::addr::{IpAddr, SocketAddr};
use drt::config::{validate, LabelKeys, RelayConfig};
use drt::reflect;
use drt::relay::{
    admitted, admitted_route, claim_step, constant_time_eq, not_home, park_step, query_key,
    refused_by_policy, verify_key, Board, ClaimEvent, Leg, LegAct, ParkEvent, Policy, RelayEvent,
    Route,
};
use drt::tunnel::{
    hold_step, park_again, pump_step, resolve, spelled, Flags, Frame, HoldAct, Mode, Parked,
    PumpAct, PumpEvent, Source, TunnelConfig, BACKOFF_FIRST_MS, BACKOFF_LAST_MS,
};

fn relay() -> RelayConfig {
    RelayConfig {
        bind: "127.0.0.1:0".to_owned(),
        labels: vec![
            (
                "home".to_owned(),
                LabelKeys {
                    park_key: "p".to_owned(),
                    caller_key: "c\u{e9}".to_owned(),
                },
            ),
            (
                "shut".to_owned(),
                LabelKeys {
                    park_key: String::new(),
                    caller_key: String::new(),
                },
            ),
        ],
    }
}

#[test]
fn a_route_is_a_leg_and_a_label() {
    let parked = Route::parse("/park/home").unwrap();
    assert_eq!((parked.label.as_str(), parked.leg.name()), ("home", "park"));
    let called = Route::parse("/s/home").unwrap();
    assert_eq!((called.label.as_str(), called.leg.name()), ("home", "caller"));
    for path in ["park/home", "/park", "/park/", "/park/a/b", "/x/home", "/", ""] {
        assert!(Route::parse(path).is_none(), "{}", path);
    }
}

#[test]
fn a_key_is_the_first_of_its_name() {
    assert_eq!(query_key("a=1&k=one&k=two").as_deref(), Some("one"));
    assert_eq!(query_key("k=").as_deref(), Some(""));
    assert_eq!(query_key("kk=1&a"), None);
    assert_eq!(query_key(""), None);
}

#[test]
fn keys_are_compared_whole() {
    assert!(constant_time_eq(b"abc", b"abc"));
    assert!(constant_time_eq(b"", b""));
    assert!(!constant_time_eq(b"abc", b"abd"));
    assert!(!constant_time_eq(b"abc", b"ab"));
}

#[test]
fn each_leg_has_its_own_key() {
    let config = relay();
    let key = |k: &str| Some(k.to_owned());
    assert!(verify_key(&config, "home", Leg::Park, &key("p")));
    assert!(verify_key(&config, "home", Leg::Caller, &key("c\u{e9}")));
    assert!(!verify_key(&config, "home", Leg::Caller, &key("p")));
    assert!(!verify_key(&config, "home", Leg::Park, &None));
    assert!(!verify_key(&config, "away", Leg::Park, &key("p")));
}

#[test]
fn an_empty_key_opens_nothing() {
    let config = relay();
    assert!(!verify_key(&config, "shut", Leg::Park, &Some(String::new())));
    assert!(!verify_key(&config, "shut", Leg::Caller, &None));
    assert!(validate(&Some(relay())).is_err());
}

#[test]
fn a_leg_comes_in_on_its_route_and_its_key() {
    let config = relay();
    assert!(admitted_route(&config, "/park/home", "k=p").is_some());
    assert!(admitted_route(&config, "/park/home", "k=q").is_none());
    assert!(admitted_route(&config, "/park/home", "").is_none());
    assert!(admitted_route(&config, "/nowhere", "k=p").is_none());
}

#[test]
fn silence_is_a_no() {
    assert!(admitted(Policy::Unset));
    assert!(admitted(Policy::Said(true)));
    assert!(!admitted(Policy::Said(false)));
    assert!(!admitted(Policy::Silent));
    assert_eq!(refused_by_policy(), (1008, "refused by the deployment"));
    assert_eq!(not_home(), (1013, "no parked leg: the device is not home"));
}

#[test]
fn the_oldest_leg_is_claimed_first() {
    let mut board = Board::new();
    assert!(board.claim("home").is_none());
    assert!(matches!(board.park("home", 7), RelayEvent::Parked { label } if label == "home"));
    board.park("away", 8);
    board.park("home", 9);
    assert_eq!(board.claim("home"), Some((7, 1)));
    assert_eq!(board.claim("home"), Some((9, 2)));
    assert_eq!(board.claim("home"), None);
    assert_eq!(board.sessions, 2);
}

#[test]
fn a_closed_leg_is_forgotten() {
    let mut board = Board::new();
    board.park("home", 7);
    board.park("home", 9);
    board.park("away", 7);
    board.forget("home", &vec![7]);
    assert_eq!(board.claim("home"), Some((9, 1)));
    assert_eq!(board.claim("away"), Some((7, 2)));
}

#[test]
fn every_byte_is_counted_once() {
    let mut board = Board::new();
    let mut session: u64 = 0;
    for event in [ClaimEvent::FromCaller(3), ClaimEvent::CallerPing, ClaimEvent::FromDevice(4)] {
        let (n, _) = claim_step(event);
        session = board.count(session, n);
    }
    assert_eq!((session, board.bytes_relayed()), (7, 7));
}

#[test]
fn a_claimed_leg_is_spliced() {
    assert_eq!(claim_step(ClaimEvent::FromCaller(2)), (2, LegAct::ToDevice));
    assert_eq!(claim_step(ClaimEvent::FromDevice(2)), (2, LegAct::ToCaller));
    assert_eq!(claim_step(ClaimEvent::CallerPing), (0, LegAct::Pong));
    assert_eq!(claim_step(ClaimEvent::CallerOther), (0, LegAct::Wait));
    assert_eq!(claim_step(ClaimEvent::CallerGone), (0, LegAct::End));
    assert_eq!(claim_step(ClaimEvent::DeviceGone), (0, LegAct::End));
}

#[test]
fn a_parked_leg_is_pinged_until_it_is_claimed() {
    assert_eq!(park_step(false, ParkEvent::PingDue), (false, LegAct::Ping));
    assert_eq!(park_step(false, ParkEvent::DevicePing), (false, LegAct::Pong));
    assert_eq!(park_step(false, ParkEvent::DeviceOther), (false, LegAct::Wait));
    assert_eq!(park_step(false, ParkEvent::FromDevice), (true, LegAct::ToCaller));
    assert_eq!(park_step(false, ParkEvent::FromCaller), (true, LegAct::ToDevice));
    assert_eq!(park_step(false, ParkEvent::IdleOut), (false, LegAct::End));
    assert_eq!(park_step(true, ParkEvent::IdleOut), (true, LegAct::Wait));
    assert_eq!(park_step(true, ParkEvent::PingDue), (true, LegAct::Wait));
    assert_eq!(park_step(true, ParkEvent::CallerGone), (true, LegAct::End));
    assert_eq!(park_step(true, ParkEvent::DeviceGone), (true, LegAct::End));
}

fn no_flags() -> Flags {
    Flags {
        url: None,
        local: None,
        listen: None,
        to: None,
        park: None,
        extra_root: Vec::new(),
    }
}

fn no_file() -> TunnelConfig {
    TunnelConfig {
        claim: None,
        bind: None,
        listen: None,
        to: None,
        park: None,
        extra_roots: Vec::new(),
    }
}

fn some(s: &str) -> Option<String> {
    Some(s.to_owned())
}

#[test]
fn the_keys_that_are_named_choose_the_mode() {
    let mut f = no_flags();
    f.url = some("wss://a");
    assert!(matches!(
        resolve(None, &f).unwrap().mode,
        Mode::Stdio { claim } if claim == "wss://a"
    ));
    f.local = some("127.0.0.1:1");
    assert!(matches!(
        resolve(None, &f).unwrap().mode,
        Mode::Local { claim, bind } if claim == "wss://a" && bind == "127.0.0.1:1"
    ));
    let mut f = no_flags();
    f.listen = some("l");
    f.to = some("t");
    assert!(matches!(
        resolve(None, &f).unwrap().mode,
        Mode::Listen { listen, to } if listen == "l" && to == "t"
    ));
    let mut c = no_file();
    c.park = some("p");
    c.to = some("t");
    assert!(matches!(
        resolve(Some(&c), &no_flags()).unwrap().mode,
        Mode::Park { park, to } if park == "p" && to == "t"
    ));
}

#[test]
fn a_flag_replaces_what_the_file_says() {
    let mut c = no_file();
    c.claim = some("wss://file");
    c.bind = some("b");
    c.extra_roots = vec!["file.pem".to_owned()];
    let mut f = no_flags();
    f.url = some("wss://flag");
    let r = resolve(Some(&c), &f).unwrap();
    assert!(matches!(
        r.mode,
        Mode::Local { claim, bind } if claim == "wss://flag" && bind == "b"
    ));
    assert_eq!(r.extra_roots, vec!["file.pem"]);
    assert_eq!(r.extra_roots_key, "tunnel.extra_roots");
    f.extra_root = vec!["flag.pem".to_owned()];
    let r = resolve(Some(&c), &f).unwrap();
    assert_eq!(r.extra_roots, vec!["flag.pem"]);
    assert_eq!(r.extra_roots_key, "--extra-root");
}

#[test]
fn two_modes_are_refused_by_where_they_came_from() {
    let mut c = no_file();
    c.claim = some("wss://a");
    let mut f = no_flags();
    f.park = some("wss://b");
    f.to = some("t");
    assert_eq!(
        resolve(Some(&c), &f).unwrap_err(),
        "tunnel: `tunnel.claim` in the config and `--park` name two modes; a tunnel is one claim, \
         one park, or one listen"
    );
    c.listen = some("l");
    f.park = None;
    f.url = some("wss://c");
    assert_eq!(
        resolve(Some(&c), &f).unwrap_err(),
        "tunnel: the URL on the command line and `tunnel.listen` in the config name two modes; a \
         tunnel is one claim, one park, or one listen"
    );
}

#[test]
fn a_key_of_another_mode_is_refused() {
    let mut f = no_flags();
    f.url = some("u");
    f.to = some("t");
    assert_eq!(
        resolve(None, &f).unwrap_err(),
        "tunnel: `--to` belongs with `park` or `listen`, and this tunnel has none"
    );
    let mut f = no_flags();
    f.park = some("p");
    f.to = some("t");
    f.local = some("b");
    assert_eq!(
        resolve(None, &f).unwrap_err(),
        "tunnel: `--local` belongs with `claim`, and this tunnel has none"
    );
    let mut c = no_file();
    c.bind = some("b");
    assert_eq!(
        resolve(Some(&c), &no_flags()).unwrap_err(),
        "tunnel: `tunnel.bind` in the config belongs with `claim`, and this tunnel has none"
    );
}

#[test]
fn a_mode_without_its_target_is_refused() {
    let mut f = no_flags();
    f.park = some("p");
    assert_eq!(
        resolve(None, &f).unwrap_err(),
        "tunnel: a park needs `to`, the host:port it delivers to (`--to`, or `tunnel.to` in the \
         config)"
    );
    let mut f = no_flags();
    f.listen = some("l");
    assert_eq!(
        resolve(None, &f).unwrap_err(),
        "tunnel: a listen needs `to`, the host:port it delivers to (`--to`, or `tunnel.to` in the \
         config)"
    );
    assert_eq!(
        resolve(None, &no_flags()).unwrap_err(),
        "name a URL to bridge stdio to (with --local to serve a local port instead), --listen \
         with --to, or --park with --to; or `tunnel` in the --config file, which takes the same \
         keys"
    );
}

#[test]
fn a_key_is_spelled_as_it_was_written() {
    assert_eq!(spelled("claim", Source::Flag), "the URL on the command line");
    assert_eq!(spelled("bind", Source::Flag), "`--local`");
    assert_eq!(spelled("to", Source::Flag), "`--to`");
    assert_eq!(spelled("claim", Source::File), "`tunnel.claim` in the config");
}

#[test]
fn a_failed_park_waits_twice_as_long() {
    assert_eq!(park_again(Parked::Claimed, 32_000), (0, BACKOFF_FIRST_MS));
    assert_eq!(park_again(Parked::Dropped, 32_000), (200, BACKOFF_FIRST_MS));
    assert_eq!(park_again(Parked::Failed, 1_000), (1_000, 2_000));
    assert_eq!(park_again(Parked::Failed, 32_000), (32_000, BACKOFF_LAST_MS));
    assert_eq!(
        park_again(Parked::Failed, BACKOFF_LAST_MS),
        (BACKOFF_LAST_MS, BACKOFF_LAST_MS)
    );
}

#[test]
fn a_held_leg_waits_for_its_first_bytes() {
    assert_eq!(hold_step(Frame::Binary(3)), HoldAct::Claimed);
    assert_eq!(hold_step(Frame::Ping), HoldAct::Pong);
    assert_eq!(hold_step(Frame::Other), HoldAct::Hold);
    assert_eq!(hold_step(Frame::Close), HoldAct::Dropped);
    assert_eq!(hold_step(Frame::Gone), HoldAct::Dropped);
    assert_eq!(hold_step(Frame::Failed), HoldAct::Failed);
}

#[test]
fn bytes_are_pumped_until_either_side_ends() {
    assert_eq!(pump_step(PumpEvent::Read(5)), PumpAct::Send(5));
    assert_eq!(pump_step(PumpEvent::Read(0)), PumpAct::End);
    assert_eq!(pump_step(PumpEvent::Lost), PumpAct::End);
    assert_eq!(pump_step(PumpEvent::Frame(Frame::Binary(4))), PumpAct::Write(4));
    assert_eq!(pump_step(PumpEvent::Frame(Frame::Close)), PumpAct::End);
    assert_eq!(pump_step(PumpEvent::Frame(Frame::Failed)), PumpAct::End);
    assert_eq!(pump_step(PumpEvent::Stuck), PumpAct::End);
}

#[test]
fn a_url_comes_apart() {
    let u = reflect::split("https://reflect.example:8443/a/b?c").unwrap();
    assert_eq!(
        (u.tls, u.host.as_str(), u.port, u.path.as_str()),
        (true, "reflect.example", 8443, "/a/b?c")
    );
    let u = reflect::split("http://h").unwrap();
    assert_eq!((u.tls, u.port, u.path.as_str()), (false, 80, "/"));
    assert_eq!(reflect::split("https://h/").unwrap().port, 443);
    let u = reflect::split("http://[::1]").unwrap();
    assert_eq!((u.host.as_str(), u.port), ("[::1]", 80));
    assert_eq!(reflect::split("http://h:p").unwrap().host, "h:p");
}

#[test]
fn a_url_that_is_none_says_why() {
    assert_eq!(reflect::split("ftp://h").unwrap_err(), "not an http or https url");
    assert_eq!(reflect::split("h").unwrap_err(), "not an http or https url");
    assert_eq!(reflect::split("http://h:70000").unwrap_err(), "bad port");
    assert_eq!(reflect::split("http:///x").unwrap_err(), "no host in the url");
    assert_eq!(reflect::split("http://:80").unwrap_err(), "no host in the url");
}

#[test]
fn a_named_address_takes_the_port_of_the_url() {
    let at = vec![
        ("192.0.2.1".to_owned(), Some(IpAddr::V4(192, 0, 2, 1))),
        ("::1".to_owned(), Some(IpAddr::V6(0, 0, 0, 0, 0, 0, 0, 1))),
    ];
    assert_eq!(
        reflect::addresses_at("https://h", &at).unwrap(),
        vec![
            SocketAddr { ip: IpAddr::V4(192, 0, 2, 1), port: 443 },
            SocketAddr { ip: IpAddr::V6(0, 0, 0, 0, 0, 0, 0, 1), port: 443 },
        ]
    );
    let bad = vec![("nope".to_owned(), None)];
    assert_eq!(
        reflect::addresses_at("https://h", &bad).unwrap_err(),
        "'nope' is not an address"
    );
    assert_eq!(
        reflect::addresses_at("h", &bad).unwrap_err(),
        "not an http or https url"
    );
}

#[test]
fn the_request_names_the_host() {
    let u = reflect::split("http://h:81/p").unwrap();
    assert_eq!(
        reflect::request(&u),
        "GET /p HTTP/1.1\r\nhost: h\r\nuser-agent: drt-netcheck\r\naccept: application/json\r\n\
         connection: close\r\n\r\n"
    );
}

#[test]
fn a_certificate_is_checked_against_a_name() {
    let read = |url: &str| reflect::checkable(&reflect::split(url).unwrap());
    assert_eq!(read("https://reflect.example"), Ok(()));
    assert_eq!(read("https://192.0.2.1"), Ok(()));
    assert_eq!(
        read("https://no name"),
        Err("the url's host is not a name a certificate can be checked against".to_string())
    );
    assert_eq!(read("http://no name"), Ok(()));
}

#[test]
fn chunks_are_put_together() {
    assert_eq!(
        reflect::dechunk(b"3\r\nabc\r\nA;x=y\r\n0123456789\r\n0\r\n\r\n").unwrap(),
        b"abc0123456789".to_vec()
    );
    assert_eq!(reflect::dechunk(b" +2 \r\nab\r\n0\r\n").unwrap(), b"ab".to_vec());
    assert_eq!(reflect::dechunk(b"0\r\n").unwrap(), Vec::<u8>::new());
}

#[test]
fn a_chunk_that_cannot_be_read_is_an_error() {
    assert_eq!(
        reflect::dechunk(b"3").unwrap_err(),
        "chunked: a chunk header never ended"
    );
    assert_eq!(reflect::dechunk(b"x\r\n").unwrap_err(), "chunked: not a chunk size");
    assert_eq!(reflect::dechunk(b"\r\n").unwrap_err(), "chunked: not a chunk size");
    assert_eq!(reflect::dechunk(b"\xff\r\n").unwrap_err(), "chunked: not a chunk size");
    assert_eq!(
        reflect::dechunk(b"4\r\nabc\r\n").unwrap_err(),
        "chunked: a chunk was shorter than its size"
    );
    assert_eq!(
        reflect::dechunk(b"10001\r\nabc\r\n").unwrap_err(),
        "chunked: a chunk was shorter than its size"
    );
}

#[test]
fn an_answer_is_its_body() {
    assert_eq!(
        reflect::answer(b"HTTP/1.1 200 OK\r\nA: b\r\n\r\n{\"a\":1}").unwrap(),
        "{\"a\":1}"
    );
    assert_eq!(
        reflect::answer(
            b"HTTP/1.1 299 OK\r\nTransfer-Encoding : gzip, CHUNKED\r\n\r\n2\r\nok\r\n0\r\n\r\n"
        )
        .unwrap(),
        "ok"
    );
}

#[test]
fn an_answer_that_is_none_says_why() {
    assert_eq!(
        reflect::answer(b"HTTP/1.1 200 OK\r\n").unwrap_err(),
        "the response head never completed"
    );
    assert_eq!(
        reflect::answer(b"hello\r\n\r\n").unwrap_err(),
        "the edge answered something that is not a response"
    );
    assert_eq!(
        reflect::answer(b"HTTP/1.1 429 Slow\r\n\r\n").unwrap_err(),
        "rate limited by the edge"
    );
    assert_eq!(
        reflect::answer(b"HTTP/1.1 302 Found\r\n\r\n").unwrap_err(),
        "the edge answered 302"
    );
    assert_eq!(
        reflect::answer(b"HTTP/1.1 200 OK\r\n\r\n\xff").unwrap_err(),
        "the edge answered bytes that are not text"
    );
    let mut long = b"HTTP/1.1 200 OK\r\n\r\n".to_vec();
    long.resize(reflect::MAX_BODY + 1, b'a');
    assert_eq!(
        reflect::answer(&long).unwrap_err(),
        "the edge answered more than this reads"
    );
}

#[test]
fn a_name_that_resolves_to_nothing_is_refused() {
    let one = SocketAddr { ip: IpAddr::V4(192, 0, 2, 1), port: 443 };
    assert_eq!(reflect::addresses("https://e.example/x", Ok(vec![one])), Ok(vec![one]));
    assert_eq!(
        reflect::addresses("https://e.example/x", Ok(vec![])),
        Err("dns: 'e.example' resolved to nothing".to_string())
    );
    assert_eq!(
        reflect::addresses("https://e.example/x", Err("no such host".to_string())),
        Err("dns: no such host".to_string())
    );
    assert_eq!(
        reflect::addresses("ftp://e.example/", Ok(vec![one])),
        Err("not an http or https url".to_string())
    );
}

#[test]
fn an_edge_that_says_nothing_in_time_is_named_so() {
    assert_eq!(reflect::get(None), Err("no answer within 10s".to_string()));
    assert_eq!(
        reflect::get(Some(Err("connect: refused".to_string()))),
        Err("connect: refused".to_string())
    );
    let sent = b"HTTP/1.1 200 OK\r\n\r\nhello".to_vec();
    assert_eq!(reflect::get(Some(Ok((sent, 4000)))), Ok(("hello".to_string(), 4000)));
    let limited = b"HTTP/1.1 429 Slow Down\r\n\r\n".to_vec();
    assert_eq!(
        reflect::get(Some(Ok((limited, 4000)))),
        Err("rate limited by the edge".to_string())
    );
}
