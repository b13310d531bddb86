//! Requests, replies, and the connections they travel on.

use drt::listen::{
    clean, cut_short, judge_request, outcome_bytes, parse_reply, parse_request, reason_for,
    refusal_bytes, reply_token, response_bytes, waited_bytes, Head, Listener, ListenerRt, Outcome,
    Parsed, CAP_TEXT, DOWN_TEXT, HDR_ROOM, HDR_VALUE_MAX, LATE_TEXT, MAX_HEADERS,
};
use drt::polled::{nap, Bound, Heard, Next, State, Wrote};
use rmpv::Value;

const MS: u128 = 1_000_000;

fn config() -> Listener {
    Listener {
        scheme: "http".to_owned(),
        address: "127.0.0.1:0".to_owned(),
        queue: "http/in".to_owned(),
        reply_queue: "http/out".to_owned(),
        headers: vec!["X-Df-Sub".to_owned(), "accept".to_owned()],
        resp_headers: vec!["Location".to_owned(), "X-Two".to_owned()],
        max_body: 8,
        conn_deadline_ms: 50,
        max_conns: 1,
        admit_timeout_ms: 7,
    }
}

fn listener() -> ListenerRt {
    ListenerRt::new(0, &config()).unwrap()
}

fn plain() -> ListenerRt {
    let mut cfg = config();
    cfg.headers = Vec::new();
    ListenerRt::new(0, &cfg).unwrap()
}

fn decoded(raw: &[u8]) -> Value {
    rmpv::decode::read_value(&mut &raw[..]).unwrap()
}

fn encoded(v: Value) -> Vec<u8> {
    let mut out = Vec::new();
    rmpv::encode::write_value(&mut out, &v).unwrap();
    out
}

fn pair(k: &str, v: Value) -> (Value, Value) {
    (Value::from(k), v)
}

fn refusal(raw: &[u8]) -> (u16, &'static str) {
    let mut tokens: u32 = 1;
    let refused = parse_request(raw, &listener(), &mut tokens).unwrap_err();
    assert_eq!(tokens, 1);
    refused
}

#[test]
fn a_listener_keeps_its_lists_in_lower_case() {
    let rt = listener();
    assert_eq!(rt.hdr_allow, vec!["x-df-sub", "accept"]);
    assert_eq!(rt.resp_allow, vec!["location", "x-two"]);
    assert_eq!(rt.deadline(), 50);
    assert_eq!(rt.admit_wait(), 7);
}

#[test]
fn lowering_reaches_past_ascii() {
    let mut cfg = config();
    cfg.headers = vec!["X-\u{c4}".to_owned()];
    assert_eq!(ListenerRt::new(0, &cfg).unwrap().hdr_allow, vec!["x-\u{e4}"]);
}

#[test]
fn a_listener_that_is_not_http_is_refused() {
    let mut cfg = config();
    cfg.scheme = "ssh".to_owned();
    assert_eq!(
        ListenerRt::new(3, &cfg).unwrap_err(),
        "listener 3 speaks 'ssh', and only 'http' is served today ('ssh' lands with the control \
         endpoint)"
    );
}

#[test]
fn a_list_of_seventeen_is_refused_and_one_of_sixteen_is_not() {
    let mut cfg = config();
    cfg.resp_headers = (0..16).map(|i| format!("x-{}", i)).collect();
    assert!(ListenerRt::new(1, &cfg).is_ok());
    cfg.resp_headers.push("x-16".to_owned());
    assert!(ListenerRt::new(1, &cfg)
        .unwrap_err()
        .starts_with("listener 1 allowlists more than 16 headers in one direction"));
}

#[test]
fn a_whole_request_becomes_one_map() {
    let mut tokens: u32 = 41;
    let raw = b"POST /a?format=x HTTP/1.1\r\nX-DF-SUB: one\r\nX-Other: no\r\nx-df-sub: two\r\n\
        Content-Length: 3\r\n\r\nabcd";
    let (token, message) = match parse_request(raw, &listener(), &mut tokens).unwrap() {
        Parsed::Complete { token, message } => (token, message),
        other => panic!("{:?}", other),
    };
    assert_eq!((token, tokens), (41, 42));
    assert_eq!(
        decoded(&message),
        Value::Map(vec![
            pair("conn", Value::from(41u64)),
            pair("method", Value::from("POST")),
            pair("path", Value::from("/a?format=x")),
            pair("body", Value::Binary(b"abc".to_vec())),
            pair(
                "headers",
                Value::Map(vec![pair("x-df-sub", Value::from("one, two"))])
            ),
        ])
    );
}

#[test]
fn with_no_list_there_are_no_headers_at_all() {
    let mut tokens: u32 = 1;
    let raw = b"GET / HTTP/1.1\r\nX-Df-Sub: one\r\n\r\n";
    let message = match parse_request(raw, &plain(), &mut tokens).unwrap() {
        Parsed::Complete { message, .. } => message,
        other => panic!("{:?}", other),
    };
    assert_eq!(decoded(&message).as_map().unwrap().len(), 4);
}

#[test]
fn a_header_that_is_no_utf8_travels_as_bytes() {
    let mut tokens: u32 = 1;
    let raw = b"GET / HTTP/1.1\r\nAccept: \xff\r\n\r\n";
    let message = match parse_request(raw, &listener(), &mut tokens).unwrap() {
        Parsed::Complete { message, .. } => message,
        other => panic!("{:?}", other),
    };
    let map = decoded(&message);
    let headers = map.as_map().unwrap()[4].1.clone();
    assert_eq!(
        headers,
        Value::Map(vec![pair("accept", Value::Binary(vec![0xff]))])
    );
}

#[test]
fn the_token_wraps_past_the_last() {
    let mut tokens: u32 = u32::MAX;
    let raw = b"GET / HTTP/1.1\r\n\r\n";
    assert!(matches!(
        parse_request(raw, &plain(), &mut tokens),
        Ok(Parsed::Complete { token: u32::MAX, .. })
    ));
    assert_eq!(tokens, 0);
}

#[test]
fn an_unfinished_request_asks_for_more() {
    let mut tokens: u32 = 1;
    let rt = listener();
    assert!(matches!(
        parse_request(b"GET / HT", &rt, &mut tokens),
        Ok(Parsed::Incomplete { headers_done: false })
    ));
    assert!(matches!(
        parse_request(b"GET / HTTP/1.1\r\nContent-Length: 2\r\n\r\na", &rt, &mut tokens),
        Ok(Parsed::Incomplete { headers_done: true })
    ));
    assert_eq!(tokens, 1);
}

#[test]
fn each_malformed_request_is_refused_with_its_own_text() {
    assert_eq!(refusal(b"\x01\x02\r\n\r\n"), (400, "unparseable request\n"));
    let mut long = b"GET / HTTP/1.1\r\nX-A: ".to_vec();
    long.resize(HDR_ROOM + 1, b'a');
    assert_eq!(refusal(&long), (400, "headers past this host's room\n"));
    assert_eq!(
        refusal(b"GET / HTTP/1.1\r\nContent-Length: 1\r\nContent-Length: 1\r\n\r\n"),
        (400, "a malformed or duplicated Content-Length\n")
    );
    assert_eq!(
        refusal(b"GET / HTTP/1.1\r\nContent-Length: \r\n\r\n"),
        (400, "a malformed or duplicated Content-Length\n")
    );
    assert_eq!(
        refusal(b"GET / HTTP/1.1\r\nContent-Length: +1\r\n\r\n"),
        (400, "Content-Length must be digits only\n")
    );
    assert_eq!(
        refusal(b"GET / HTTP/1.1\r\nContent-Length: 99999999999999999999999\r\n\r\n"),
        (413, "Content-Length overflows\n")
    );
    assert_eq!(
        refusal(b"GET / HTTP/1.1\r\nTransfer-Encoding: chunked\r\n\r\n"),
        (400, "chunked bodies are not spoken here; the LB should buffer\n")
    );
    assert_eq!(
        refusal(b"GET / HTTP/1.1\r\nContent-Length: 9\r\n\r\n"),
        (413, "body past the configured cap\n")
    );
    let mut wide = b"GET / HTTP/1.1\r\nAccept: ".to_vec();
    wide.extend(vec![b'a'; HDR_VALUE_MAX + 1]);
    wide.extend(b"\r\n\r\n");
    assert_eq!(
        refusal(&wide),
        (431, "an allowlisted header is past this host's value bound\n")
    );
}

#[test]
fn one_header_too_many_is_no_request() {
    let mut raw = b"GET / HTTP/1.1\r\n".to_vec();
    for _ in 0..MAX_HEADERS + 1 {
        raw.extend(b"A: b\r\n");
    }
    raw.extend(b"\r\n");
    assert_eq!(refusal(&raw), (400, "unparseable request\n"));
}

#[test]
fn a_body_at_the_cap_passes() {
    let mut tokens: u32 = 1;
    let raw = b"GET / HTTP/1.1\r\nContent-Length: 8\r\n\r\n12345678";
    assert!(matches!(
        parse_request(raw, &listener(), &mut tokens),
        Ok(Parsed::Complete { token: 1, .. })
    ));
}

#[test]
fn a_head_is_judged_by_what_was_read_of_it() {
    let mut tokens: u32 = 5;
    let rt = listener();
    assert_eq!(
        judge_request(Head::Malformed, b"", &rt, &mut tokens).unwrap_err(),
        (400, "unparseable request\n")
    );
    assert!(matches!(
        judge_request(Head::Partial, b"", &rt, &mut tokens),
        Ok(Parsed::Incomplete { headers_done: false })
    ));
    let head = Head::Complete {
        len: 2,
        method: "PUT".to_owned(),
        path: "/".to_owned(),
        headers: vec![("CONTENT-LENGTH".to_owned(), b"2".to_vec())],
    };
    let message = match judge_request(head, b"--ok", &rt, &mut tokens).unwrap() {
        Parsed::Complete { token: 5, message } => message,
        other => panic!("{:?}", other),
    };
    assert_eq!(
        decoded(&message).as_map().unwrap()[3],
        pair("body", Value::Binary(b"ok".to_vec()))
    );
}

#[test]
fn a_connection_cut_short_is_told_where() {
    assert_eq!(cut_short(true), (400, "the connection went away mid-body\n"));
    assert_eq!(cut_short(false), (400, "unparseable request\n"));
}

#[test]
fn a_reply_takes_what_it_says_and_a_default_for_the_rest() {
    let raw = encoded(Value::Map(vec![
        pair("conn", Value::from(9)),
        pair("status", Value::from(404)),
        pair("body", Value::from("gone")),
        pair("content_type", Value::from("text/html")),
        pair(
            "headers",
            Value::Map(vec![
                pair("x-TWO", Value::from("first")),
                pair("set-cookie", Value::from("no")),
                pair("LOCATION", Value::from("/b")),
                pair("X-two", Value::from("second")),
            ]),
        ),
    ]));
    assert_eq!(reply_token(&raw), 9);
    assert_eq!(
        parse_reply(&raw, &listener()),
        Outcome::Reply {
            status: 404,
            content_type: "text/html".to_owned(),
            headers: vec![
                ("location".to_owned(), "/b".to_owned()),
                ("x-two".to_owned(), "second".to_owned()),
            ],
            body: b"gone".to_vec(),
        }
    );
}

#[test]
fn a_reply_that_is_nothing_is_an_empty_answer() {
    let nothing = Outcome::Reply {
        status: 200,
        content_type: "application/octet-stream".to_owned(),
        headers: Vec::new(),
        body: Vec::new(),
    };
    assert_eq!(parse_reply(b"", &listener()), nothing);
    assert_eq!(reply_token(b""), 0);
    let odd = encoded(Value::Map(vec![
        pair("conn", Value::from("nine")),
        pair("status", Value::from(99)),
        pair("body", Value::from(4)),
        pair("content_type", Value::from("text/plain\r\nSet-Cookie: a")),
        pair(
            "headers",
            Value::Map(vec![pair("location", Value::from("/a\r\nX: y"))]),
        ),
    ]));
    assert_eq!(parse_reply(&odd, &listener()), nothing);
    assert_eq!(reply_token(&odd), 0);
}

#[test]
fn a_later_repeat_with_control_bytes_leaves_the_earlier_one() {
    let raw = encoded(Value::Map(vec![pair(
        "headers",
        Value::Map(vec![
            pair("location", Value::from("/a")),
            pair("location", Value::from("/b\n")),
        ]),
    )]));
    match parse_reply(&raw, &listener()) {
        Outcome::Reply { headers, .. } => {
            assert_eq!(headers, vec![("location".to_owned(), "/a".to_owned())])
        }
        other => panic!("{:?}", other),
    }
}

#[test]
fn a_token_keeps_its_lower_half() {
    let raw = encoded(Value::Map(vec![pair("conn", Value::from(0x1_0000_0003u64))]));
    assert_eq!(reply_token(&raw), 3);
}

#[test]
fn a_content_type_of_one_hundred_and_twenty_eight_is_too_long() {
    let long = "a".repeat(128);
    let raw = encoded(Value::Map(vec![pair("content_type", Value::from(long))]));
    assert!(matches!(
        parse_reply(&raw, &listener()),
        Outcome::Reply { content_type, .. } if content_type == "application/octet-stream"
    ));
}

#[test]
fn control_bytes_are_not_clean() {
    assert!(clean(b"text/plain; a=b"));
    assert!(clean(b""));
    assert!(!clean(b"a\r"));
    assert!(!clean(b"a\x7f"));
}

#[test]
fn a_response_is_its_head_and_its_body() {
    assert_eq!(
        response_bytes(
            201,
            "text/plain",
            &vec![("x-a".to_owned(), "b".to_owned())],
            b"hi"
        ),
        b"HTTP/1.1 201 Created\r\nContent-Type: text/plain\r\nx-a: b\r\nContent-Length: 2\r\n\
          Connection: close\r\n\r\nhi"
            .to_vec()
    );
    assert_eq!(
        refusal_bytes(504, "late\n"),
        b"HTTP/1.1 504 Gateway Timeout\r\nContent-Type: text/plain\r\nContent-Length: 5\r\n\
          Connection: close\r\n\r\nlate\n"
            .to_vec()
    );
    assert_eq!(
        outcome_bytes(&Outcome::refused(503, DOWN_TEXT)),
        refusal_bytes(503, DOWN_TEXT)
    );
    assert_eq!(waited_bytes(None), refusal_bytes(504, LATE_TEXT));
    assert_eq!(
        waited_bytes(Some(&Outcome::refused(404, "no\n"))),
        refusal_bytes(404, "no\n")
    );
}

#[test]
fn each_status_has_its_reason() {
    assert_eq!(reason_for(200), "OK");
    assert_eq!(reason_for(204), "No Content");
    assert_eq!(reason_for(400), "Bad Request");
    assert_eq!(reason_for(404), "Not Found");
    assert_eq!(reason_for(413), "Content Too Large");
    assert_eq!(reason_for(431), "Request Header Fields Too Large");
    assert_eq!(reason_for(500), "Internal Server Error");
    assert_eq!(reason_for(503), "Service Unavailable");
    assert_eq!(reason_for(418), "Status");
}

fn bound() -> Bound {
    let mut b = Bound::new(vec![plain()]);
    b.accept(0, 0);
    b
}

fn out_of(b: &Bound, i: usize) -> Vec<u8> {
    match &b.conns[i].state {
        State::Writing { out, off } => out[*off..].to_vec(),
        other => panic!("{:?}", other),
    }
}

#[test]
fn a_request_is_taken_answered_and_written() {
    let mut b = bound();
    assert_eq!(b.look(0, MS, MS), Next::Read);
    assert_eq!(b.heard(0, Heard::Bytes(b"GET / HT".to_vec()), MS), Next::Read);
    assert_eq!(
        b.heard(0, Heard::Bytes(b"TP/1.1\r\n\r\n".to_vec()), 2 * MS),
        Next::Keep
    );
    let ingress = b.take().unwrap();
    assert_eq!((ingress.listener, ingress.token), (0, 1));
    assert!(b.take().is_none());
    assert_eq!(b.owner_of(1), Some(0));
    assert_eq!(b.owner_of(2), None);
    b.answer(2, &Outcome::refused(404, "no\n"), 3 * MS);
    assert_eq!(b.look(0, 3 * MS, 3 * MS), Next::Keep);
    b.answer(1, &Outcome::refused(404, "no\n"), 3 * MS);
    assert_eq!(b.owner_of(1), None);
    assert_eq!(b.look(0, 4 * MS, 4 * MS), Next::Write);
    let whole = refusal_bytes(404, "no\n");
    assert_eq!(b.owing(0), whole);
    assert_eq!(b.wrote(0, Wrote::Took(4)), Next::Write);
    assert_eq!(b.owing(0), whole[4..].to_vec());
    assert_eq!(b.wrote(0, Wrote::Blocked), Next::Keep);
    assert_eq!(b.wrote(0, Wrote::Took(whole.len() - 4)), Next::Drop);
    b.forget(0);
    assert!(b.conns.is_empty());
}

#[test]
fn a_connection_past_the_cap_is_refused_and_holds_no_place() {
    let mut b = bound();
    b.accept(0, 0);
    assert_eq!(out_of(&b, 1), refusal_bytes(503, CAP_TEXT));
    b.forget(0);
    b.accept(0, 0);
    assert!(matches!(b.conns[1].state, State::Reading { .. }));
}

#[test]
fn each_stage_has_the_deadline_to_itself() {
    let mut b = bound();
    assert_eq!(b.look(0, 50 * MS, 50 * MS), Next::Read);
    assert_eq!(b.look(0, 50 * MS + 1, 51 * MS), Next::Keep);
    assert_eq!(out_of(&b, 0), refusal_bytes(400, "unparseable request\n"));
    assert_eq!(b.look(0, 101 * MS, 101 * MS), Next::Write);
    assert_eq!(b.look(0, 101 * MS + 1, 101 * MS), Next::Drop);
}

#[test]
fn a_program_that_does_not_answer_is_answered_for() {
    let mut b = bound();
    b.heard(0, Heard::Bytes(b"GET / HTTP/1.1\r\n\r\n".to_vec()), 0);
    assert_eq!(b.look(0, 51 * MS, 51 * MS), Next::Keep);
    assert_eq!(out_of(&b, 0), refusal_bytes(504, LATE_TEXT));
    assert_eq!(b.owner_of(1), None);
}

#[test]
fn a_connection_that_ends_early_is_told_so() {
    let mut b = bound();
    assert_eq!(b.heard(0, Heard::Blocked, 0), Next::Keep);
    b.heard(
        0,
        Heard::Bytes(b"GET / HTTP/1.1\r\nContent-Length: 2\r\n\r\n".to_vec()),
        0,
    );
    assert_eq!(b.heard(0, Heard::Closed, 0), Next::Keep);
    assert_eq!(
        out_of(&b, 0),
        refusal_bytes(400, "the connection went away mid-body\n")
    );
    let mut gone = bound();
    assert_eq!(gone.heard(0, Heard::Failed, 0), Next::Drop);
    assert_eq!(gone.wrote(0, Wrote::Failed), Next::Drop);
}

#[test]
fn a_write_that_takes_nothing_drops_the_connection() {
    let mut b = bound();
    b.heard(0, Heard::Closed, 0);
    assert_eq!(b.wrote(0, Wrote::Took(0)), Next::Drop);
}

#[test]
fn a_refused_request_is_owed_its_refusal() {
    let mut b = bound();
    assert_eq!(b.heard(0, Heard::Bytes(vec![1, 2, 13, 10]), 0), Next::Keep);
    assert_eq!(out_of(&b, 0), refusal_bytes(400, "unparseable request\n"));
    assert_eq!(b.tokens, 1);
}

#[test]
fn a_nap_is_a_tick_or_what_is_left() {
    assert_eq!(nap(10 * MS, 0), Some(MS));
    assert_eq!(nap(MS, MS - 5), Some(5));
    assert_eq!(nap(MS, MS), None);
    assert_eq!(nap(MS, 2 * MS), None);
}

#[test]
fn a_request_is_whole_at_its_end_and_nowhere_before() {
    let head = b"\r\nPOST /a HTTP/1.1\r\nX-Df-Sub:  one\t\r\nContent-Length: 3\r\n\r\n";
    let request = [&head[..], b"abc"].concat();
    let read = |raw: &[u8]| {
        let mut tokens: u32 = 7;
        parse_request(raw, &listener(), &mut tokens).unwrap()
    };
    let message = |raw: &[u8]| match read(raw) {
        Parsed::Complete { message, .. } => message,
        other => panic!("{:?}", other),
    };
    for k in 0..request.len() {
        match read(&request[..k]) {
            Parsed::Incomplete { headers_done } => assert_eq!(headers_done, k >= head.len(), "{k}"),
            other => panic!("{k}: {:?}", other),
        }
    }
    for more in [&b"GET / HTTP/1.1\r\n\r\n"[..], b"\0", b"\r\n\r\n", b"                    "] {
        let longer = [&request[..], more].concat();
        assert_eq!(message(&longer), message(&request));
    }
}

#[test]
fn a_header_that_is_not_allowed_changes_nothing() {
    let read = |raw: &[u8]| {
        let mut tokens: u32 = 7;
        match parse_request(raw, &listener(), &mut tokens).unwrap() {
            Parsed::Complete { message, .. } => message,
            other => panic!("{:?}", other),
        }
    };
    assert_eq!(
        read(b"GET / HTTP/1.1\r\nX-Df-Sub: one\r\nCookie: secret\r\n\r\n"),
        read(b"GET / HTTP/1.1\r\nX-Df-Sub: one\r\n\r\n")
    );
}
