//! The listener side of a deployment: what a request means, what a reply
//! says, and the bytes that go back on the wire.

use crate::msg;
use crate::msg::{Datum, Msg};
use crate::text;
use vstd::prelude::*;

verus! {

/// Room for the header block of one request.
pub const HDR_ROOM: usize = 8192;

/// The longest value of one header.
pub const HDR_VALUE_MAX: usize = 4096;

/// The most headers of one request.
pub const MAX_HEADERS: usize = 32;

/// The most names that one allowlist holds.
pub const MAX_ALLOWED: usize = 16;

/// How long the polled acceptor waits between two looks, in milliseconds.
pub const POLL_TICK_MS: u64 = 1;

/// A listener as the configuration states it.
#[derive(Debug)]
pub struct Listener {
    pub scheme: String,
    pub address: String,
    pub queue: String,
    pub reply_queue: String,
    pub headers: Vec<String>,
    pub resp_headers: Vec<String>,
    pub max_body: usize,
    pub conn_deadline_ms: u64,
    pub max_conns: usize,
    pub admit_timeout_ms: u64,
}

/// One parsed request, on its way to the drive loop.
#[derive(Debug)]
pub struct Ingress {
    /// Which listener it arrived on.
    pub listener: usize,
    /// The `conn` token, unique in the host.
    pub token: u32,
    /// The encoded request, ready for the root queue.
    pub message: Vec<u8>,
}

/// What goes back to a waiting connection.
#[derive(Debug, PartialEq, Eq)]
pub enum Outcome {
    /// The program answered.
    Reply {
        status: u16,
        content_type: String,
        headers: Vec<(String, String)>,
        body: Vec<u8>,
    },
    /// The host refused on the program's behalf.
    Refused { status: u16, text: &'static str },
}

impl Outcome {
    /// A refusal by the host.
    pub fn refused(status: u16, text: &'static str) -> (r: Outcome)
        ensures
            r == (Outcome::Refused { status, text }),
    {
        Outcome::Refused { status, text }
    }
}

/// One listener as configured, validated.
#[derive(Debug)]
pub struct ListenerRt {
    pub queue: String,
    pub reply_queue: String,
    /// Request headers that pass, in lower case, in the order of the
    /// configuration.
    pub hdr_allow: Vec<String>,
    /// Response headers that pass, in lower case, in the order of the
    /// configuration.
    pub resp_allow: Vec<String>,
    pub max_body: usize,
    pub deadline_ms: u64,
    pub max_conns: usize,
    pub admit_ms: u64,
}

/// The refusal of a listener with a scheme that is not served.
pub open spec fn scheme_refusal(idx: nat, scheme: Seq<char>) -> Seq<char> {
    "listener "@ + text::dec(idx) + " speaks '"@ + scheme
        + "', and only 'http' is served today ('ssh' lands with the control endpoint)"@
}

/// The refusal of a listener with too long an allowlist.
pub open spec fn allowlist_refusal(idx: nat) -> Seq<char> {
    "listener "@ + text::dec(idx)
        + " allowlists more than 16 headers in one direction; the bound is the C host's, and a list that long is a sign the boundary is dissolving"@
}

/// Every name of a list in lower case.
pub open spec fn lowered_all(names: Seq<Seq<char>>) -> Seq<Seq<char>> {
    names.map_values(|n: Seq<char>| text::lowered(n))
}

fn lowercase_all(names: &Vec<String>) -> (r: Vec<String>)
    ensures
        text::texts(r@) == lowered_all(text::texts(names@)),
{
    let mut r: Vec<String> = Vec::new();
    let mut i: usize = 0;
    while i < names.len()
        invariant
            i <= names.len(),
            r.len() == i,
            forall|k: int| 0 <= k < i ==> (#[trigger] r@[k])@ == text::lowered(names@[k]@),
        decreases names.len() - i,
    {
        r.push(text::lowercase(names[i].as_str()));
        i = i + 1;
    }
    assert(text::texts(r@) =~= lowered_all(text::texts(names@)));
    r
}

impl ListenerRt {
    /// Validates listener `idx` of the configuration.
    pub fn new(idx: usize, cfg: &Listener) -> (r: Result<ListenerRt, String>)
        ensures
            match r {
                Ok(rt) => {
                    &&& cfg.scheme@ == "http"@
                    &&& cfg.headers@.len() <= MAX_ALLOWED
                    &&& cfg.resp_headers@.len() <= MAX_ALLOWED
                    &&& rt.queue@ == cfg.queue@
                    &&& rt.reply_queue@ == cfg.reply_queue@
                    &&& text::texts(rt.hdr_allow@) == lowered_all(text::texts(cfg.headers@))
                    &&& text::texts(rt.resp_allow@) == lowered_all(text::texts(cfg.resp_headers@))
                    &&& rt.max_body == cfg.max_body
                    &&& rt.deadline_ms == cfg.conn_deadline_ms
                    &&& rt.max_conns == cfg.max_conns
                    &&& rt.admit_ms == cfg.admit_timeout_ms
                },
                Err(why) => if cfg.scheme@ != "http"@ {
                    why@ == scheme_refusal(idx as nat, cfg.scheme@)
                } else {
                    &&& cfg.headers@.len() > MAX_ALLOWED || cfg.resp_headers@.len() > MAX_ALLOWED
                    &&& why@ == allowlist_refusal(idx as nat)
                },
            },
    {
        if !text::same(cfg.scheme.as_str(), "http") {
            let mut why = text::join4(
                "listener ",
                text::decimal(idx as u64).as_str(),
                " speaks '",
                cfg.scheme.as_str(),
            );
            why.append(
                "', and only 'http' is served today ('ssh' lands with the control endpoint)",
            );
            return Err(why);
        }
        if cfg.headers.len() > MAX_ALLOWED || cfg.resp_headers.len() > MAX_ALLOWED {
            return Err(
                text::join3(
                    "listener ",
                    text::decimal(idx as u64).as_str(),
                    " allowlists more than 16 headers in one direction; the bound is the C host's, and a list that long is a sign the boundary is dissolving",
                ),
            );
        }
        Ok(
            ListenerRt {
                queue: cfg.queue.clone(),
                reply_queue: cfg.reply_queue.clone(),
                hdr_allow: lowercase_all(&cfg.headers),
                resp_allow: lowercase_all(&cfg.resp_headers),
                max_body: cfg.max_body,
                deadline_ms: cfg.conn_deadline_ms,
                max_conns: cfg.max_conns,
                admit_ms: cfg.admit_timeout_ms,
            },
        )
    }

    /// How long a connection may take at each stage, in milliseconds.
    pub fn deadline(&self) -> (r: u64)
        ensures
            r == self.deadline_ms,
    {
        self.deadline_ms
    }

    /// How long a request waits for its queue to exist, in milliseconds.
    pub fn admit_wait(&self) -> (r: u64)
        ensures
            r == self.admit_ms,
    {
        self.admit_ms
    }
}

// ---- the request side ----

/// What the bytes of a request hold so far.
#[derive(Debug)]
pub enum Parsed {
    /// The whole request: its token and its encoded map.
    Complete { token: u32, message: Vec<u8> },
    /// More bytes are needed; `headers_done` tells whether the header block
    /// is whole.
    Incomplete { headers_done: bool },
}

/// The head of a request: its request line and headers.
#[derive(Debug)]
pub enum Head {
    /// The bytes end before the header block does.
    Partial,
    /// The bytes are no request.
    Malformed,
    /// The header block is whole and takes `len` bytes.
    Complete { len: usize, method: String, path: String, headers: Vec<(String, Vec<u8>)> },
}

/// What a head is.
pub enum HeadView {
    Partial,
    Malformed,
    Complete {
        len: nat,
        method: Seq<char>,
        path: Seq<char>,
        headers: Seq<(Seq<char>, Seq<u8>)>,
    },
}

/// The headers of a request, as mathematics.
pub open spec fn header_views(hs: Seq<(String, Vec<u8>)>) -> Seq<(Seq<char>, Seq<u8>)> {
    Seq::new(hs.len(), |i: int| (hs[i].0@, hs[i].1@))
}

impl Head {
    /// The head, as mathematics.
    pub open spec fn view(&self) -> HeadView {
        match self {
            Head::Partial => HeadView::Partial,
            Head::Malformed => HeadView::Malformed,
            Head::Complete { len, method, path, headers } => HeadView::Complete {
                len: *len as nat,
                method: method@,
                path: path@,
                headers: header_views(headers@),
            },
        }
    }
}

/// The head that `httparse::Request::parse` reads at the start of a buffer,
/// with room for `MAX_HEADERS` headers.
pub uninterp spec fn head_in(buf: Seq<u8>) -> HeadView;

/// `httparse::Request::parse` on the buffer, with room for `MAX_HEADERS`
/// headers: its verdict and what it read depend on the bytes alone, and the
/// length it gives is where in the buffer the body starts. It reads from the
/// front, byte by byte, and asks for more where the bytes run out: whatever
/// stands behind a whole head changes nothing, and every part of a whole head
/// from its start is one that more bytes can complete.
#[verifier::external_body]
pub(crate) fn read_head(buf: &[u8]) -> (r: Head)
    ensures
        r@ == head_in(buf@),
        r matches Head::Complete { len, .. } ==> len <= buf@.len(),
        r matches Head::Complete { len, .. } ==> forall|more: Seq<u8>| #[trigger]
            head_in(buf@.subrange(0, len as int) + more) == r@,
        r matches Head::Complete { len, .. } ==> forall|k: int|
            0 <= k < len ==> #[trigger] head_in(buf@.subrange(0, k)) == HeadView::Partial,
{
    let mut headers = [httparse::EMPTY_HEADER; MAX_HEADERS];
    let mut req = httparse::Request::new(&mut headers);
    match req.parse(buf) {
        Ok(httparse::Status::Complete(len)) => Head::Complete {
            len,
            method: req.method.unwrap_or("").to_string(),
            path: req.path.unwrap_or("").to_string(),
            headers: req.headers.iter().map(|h| (h.name.to_string(), h.value.to_vec())).collect(),
        },
        Ok(httparse::Status::Partial) => Head::Partial,
        Err(_) => Head::Malformed,
    }
}

/// The refusal of a connection that ended, or ran out of time, before its
/// request was whole.
pub fn cut_short(headers_done: bool) -> (r: (u16, &'static str))
    ensures
        r.0 == 400,
        r.1@ == (if headers_done {
            "the connection went away mid-body\n"@
        } else {
            "unparseable request\n"@
        }),
{
    if headers_done {
        (400, "the connection went away mid-body\n")
    } else {
        (400, "unparseable request\n")
    }
}

/// A refusal: its status and its text.
pub type RefusalView = (u16, Seq<char>);

/// Whether a byte is an ASCII digit.
pub open spec fn is_digit(b: u8) -> bool {
    48 <= b && b <= 57
}

/// The length that the digits of a `Content-Length` state, from digit `i`
/// on, with `acc` read so far. The first offending digit decides.
pub open spec fn stated_length(v: Seq<u8>, i: int, acc: nat) -> Result<nat, RefusalView>
    decreases v.len() - i,
{
    if i < 0 || i >= v.len() {
        Ok(acc)
    } else if !is_digit(v[i]) {
        Err((400, "Content-Length must be digits only\n"@))
    } else if acc * 10 + (v[i] - 48) > usize::MAX {
        Err((413, "Content-Length overflows\n"@))
    } else {
        stated_length(v, i + 1, (acc * 10 + (v[i] - 48)) as nat)
    }
}

/// The body length that the headers state, from header `i` on, where `seen`
/// is what an earlier `Content-Length` stated. The first offending header
/// decides.
pub open spec fn body_length(
    hs: Seq<(Seq<char>, Seq<u8>)>,
    i: int,
    seen: Option<nat>,
) -> Result<nat, RefusalView>
    decreases hs.len() - i,
{
    if i < 0 || i >= hs.len() {
        Ok(
            match seen {
                Some(n) => n,
                None => 0,
            },
        )
    } else if text::same_folded(hs[i].0, "content-length"@) {
        if seen is Some || hs[i].1.len() == 0 {
            Err((400, "a malformed or duplicated Content-Length\n"@))
        } else {
            match stated_length(hs[i].1, 0, 0) {
                Err(e) => Err(e),
                Ok(n) => if text::same_folded(hs[i].0, "transfer-encoding"@) {
                    Err((400, "chunked bodies are not spoken here; the LB should buffer\n"@))
                } else {
                    body_length(hs, i + 1, Some(n))
                },
            }
        }
    } else if text::same_folded(hs[i].0, "transfer-encoding"@) {
        Err((400, "chunked bodies are not spoken here; the LB should buffer\n"@))
    } else {
        body_length(hs, i + 1, seen)
    }
}

/// The values of one header, the empty ones left out, joined with `", "`.
pub open spec fn gathered(hs: Seq<(Seq<char>, Seq<u8>)>, name: Seq<char>) -> Seq<u8>
    decreases hs.len(),
{
    if hs.len() == 0 {
        Seq::empty()
    } else {
        let rest = gathered(hs.drop_last(), name);
        let (n, v) = hs.last();
        if text::same_folded(n, name) && v.len() > 0 {
            if rest.len() == 0 {
                v
            } else {
                rest + seq![44u8, 32u8] + v
            }
        } else {
            rest
        }
    }
}

/// Whether some allowed header gathers to more than one value may hold.
pub open spec fn oversized(hs: Seq<(Seq<char>, Seq<u8>)>, allow: Seq<Seq<char>>) -> bool {
    exists|k: int| 0 <= k < allow.len() && gathered(hs, #[trigger] allow[k]).len() > HDR_VALUE_MAX
}

/// Bytes for the program: text where they are UTF-8, else binary.
pub open spec fn bytes_msg(b: Seq<u8>) -> Msg {
    if vstd::utf8::valid_utf8(b) {
        Msg::Text(vstd::utf8::decode_utf8(b))
    } else {
        Msg::Binary(b)
    }
}

/// The allowed headers that arrived, in the order and the spelling of the
/// allowlist.
pub open spec fn admitted(hs: Seq<(Seq<char>, Seq<u8>)>, allow: Seq<Seq<char>>) -> Seq<(Msg, Msg)>
    decreases allow.len(),
{
    if allow.len() == 0 {
        Seq::empty()
    } else {
        let rest = admitted(hs, allow.drop_last());
        let v = gathered(hs, allow.last());
        if v.len() > 0 {
            rest.push((Msg::Text(allow.last()), bytes_msg(v)))
        } else {
            rest
        }
    }
}

/// The map that the program receives for one request.
pub open spec fn request_msg(
    token: u32,
    method: Seq<char>,
    path: Seq<char>,
    body: Seq<u8>,
    hs: Seq<(Seq<char>, Seq<u8>)>,
    allow: Seq<Seq<char>>,
) -> Msg {
    let es = seq![
        (Msg::Text("conn"@), Msg::Int(token as int)),
        (Msg::Text("method"@), Msg::Text(method)),
        (Msg::Text("path"@), Msg::Text(path)),
        (Msg::Text("body"@), Msg::Binary(body)),
    ];
    if allow.len() == 0 {
        Msg::Table(es)
    } else {
        Msg::Table(es.push((Msg::Text("headers"@), Msg::Table(admitted(hs, allow)))))
    }
}

/// What the bytes of a request come to.
pub enum Judged {
    Refused(RefusalView),
    Incomplete { headers_done: bool },
    Complete(Msg),
}

/// What a buffer comes to, given the head read from it.
pub open spec fn judged(
    head: HeadView,
    buf: Seq<u8>,
    allow: Seq<Seq<char>>,
    max_body: nat,
    token: u32,
) -> Judged {
    match head {
        HeadView::Partial => if buf.len() > HDR_ROOM {
            Judged::Refused((400, "headers past this host's room\n"@))
        } else {
            Judged::Incomplete { headers_done: false }
        },
        HeadView::Malformed => Judged::Refused((400, "unparseable request\n"@)),
        HeadView::Complete { len, method, path, headers } => match body_length(headers, 0, None) {
            Err(e) => Judged::Refused(e),
            Ok(n) => if n > max_body {
                Judged::Refused((413, "body past the configured cap\n"@))
            } else if oversized(headers, allow) {
                Judged::Refused((431, "an allowlisted header is past this host's value bound\n"@))
            } else if buf.len() < len + n {
                Judged::Incomplete { headers_done: true }
            } else {
                Judged::Complete(
                    request_msg(
                        token,
                        method,
                        path,
                        buf.subrange(len as int, (len + n) as int),
                        headers,
                        allow,
                    ),
                )
            },
        },
    }
}

/// What a buffer comes to.
pub open spec fn request_in(
    buf: Seq<u8>,
    allow: Seq<Seq<char>>,
    max_body: nat,
    token: u32,
) -> Judged {
    judged(head_in(buf), buf, allow, max_body, token)
}

/// How many bytes the request with a head takes, its body included.
pub open spec fn whole(head: HeadView) -> nat {
    (head->Complete_len + body_length(head->Complete_headers, 0, None)->Ok_0) as nat
}

/// Whether a verdict on a buffer is the one that `judged` gives, with the
/// token taken exactly when the request is whole.
pub open spec fn answers(
    r: Result<Parsed, (u16, &'static str)>,
    j: Judged,
    before: u32,
    after: u32,
) -> bool {
    match j {
        Judged::Refused((status, why)) => {
            &&& r matches Err(e) && e.0 == status && e.1@ == why
            &&& after == before
        },
        Judged::Incomplete { headers_done } => {
            &&& r == Ok::<Parsed, (u16, &'static str)>(Parsed::Incomplete { headers_done })
            &&& after == before
        },
        Judged::Complete(m) => {
            &&& r matches Ok(Parsed::Complete { token, message }) && token == before && message@
                == msg::packed(m) && (msg::sized(m, msg::NESTING as nat) ==> msg::unpacked(
                message@,
            ) == Some(m))
            &&& after == (if before == u32::MAX {
                0
            } else {
                before + 1
            })
        },
    }
}

fn read_length(v: &Vec<u8>) -> (r: Result<usize, (u16, &'static str)>)
    ensures
        match stated_length(v@, 0, 0) {
            Ok(n) => r matches Ok(m) && m == n,
            Err((status, why)) => r matches Err(e) && e.0 == status && e.1@ == why,
        },
{
    let mut acc: usize = 0;
    let mut i: usize = 0;
    while i < v.len()
        invariant
            i <= v.len(),
            stated_length(v@, 0, 0) == stated_length(v@, i as int, acc as nat),
        decreases v.len() - i,
    {
        let d: u8 = v[i];
        if !(48 <= d && d <= 57) {
            return Err((400, "Content-Length must be digits only\n"));
        }
        match acc.checked_mul(10) {
            None => return Err((413, "Content-Length overflows\n")),
            Some(tens) => match tens.checked_add((d - 48) as usize) {
                None => return Err((413, "Content-Length overflows\n")),
                Some(next) => {
                    acc = next;
                },
            },
        }
        i = i + 1;
    }
    Ok(acc)
}

fn read_body_length(hs: &Vec<(String, Vec<u8>)>) -> (r: Result<usize, (u16, &'static str)>)
    ensures
        match body_length(header_views(hs@), 0, None) {
            Ok(n) => r matches Ok(m) && m == n,
            Err((status, why)) => r matches Err(e) && e.0 == status && e.1@ == why,
        },
{
    let ghost all = header_views(hs@);
    let mut clen: usize = 0;
    let mut seen: bool = false;
    let mut i: usize = 0;
    while i < hs.len()
        invariant
            i <= hs.len(),
            all == header_views(hs@),
            !seen ==> clen == 0,
            body_length(all, 0, None) == body_length(
                all,
                i as int,
                if seen {
                    Some(clen as nat)
                } else {
                    None
                },
            ),
        decreases hs.len() - i,
    {
        assert(all[i as int] == (hs@[i as int].0@, hs@[i as int].1@));
        if text::same_ignoring_case(hs[i].0.as_str(), "content-length") {
            if seen || hs[i].1.len() == 0 {
                return Err((400, "a malformed or duplicated Content-Length\n"));
            }
            match read_length(&hs[i].1) {
                Err(e) => return Err(e),
                Ok(n) => {
                    clen = n;
                    seen = true;
                },
            }
        }
        if text::same_ignoring_case(hs[i].0.as_str(), "transfer-encoding") {
            return Err((400, "chunked bodies are not spoken here; the LB should buffer\n"));
        }
        i = i + 1;
    }
    Ok(clen)
}

proof fn gathered_grows(hs: Seq<(Seq<char>, Seq<u8>)>, name: Seq<char>, i: int)
    requires
        0 <= i <= hs.len(),
    ensures
        gathered(hs.subrange(0, i), name).len() <= gathered(hs, name).len(),
    decreases hs.len() - i,
{
    if i < hs.len() {
        gathered_grows(hs, name, i + 1);
        assert(hs.subrange(0, i + 1).drop_last() == hs.subrange(0, i));
    } else {
        assert(hs.subrange(0, i) == hs);
    }
}

fn gather(hs: &Vec<(String, Vec<u8>)>, name: &str) -> (r: Option<Vec<u8>>)
    ensures
        r is None <==> gathered(header_views(hs@), name@).len() > HDR_VALUE_MAX,
        r matches Some(v) ==> v@ == gathered(header_views(hs@), name@),
{
    let ghost all = header_views(hs@);
    let mut v: Vec<u8> = Vec::new();
    let mut i: usize = 0;
    while i < hs.len()
        invariant
            i <= hs.len(),
            all == header_views(hs@),
            v@ == gathered(all.subrange(0, i as int), name@),
            v@.len() <= HDR_VALUE_MAX,
        decreases hs.len() - i,
    {
        assert(all[i as int] == (hs@[i as int].0@, hs@[i as int].1@));
        let ghost now = all.subrange(0, i + 1);
        assert(now.drop_last() == all.subrange(0, i as int));
        assert(now.last() == all[i as int]);
        if text::same_ignoring_case(hs[i].0.as_str(), name) && hs[i].1.len() != 0 {
            if v.len() != 0 {
                v.push(44u8);
                v.push(32u8);
            }
            let ghost before = v@;
            v.extend_from_slice(hs[i].1.as_slice());
            assert(v@ =~= before + hs@[i as int].1@);
            assert(v@ =~= gathered(now, name@));
            if v.len() > HDR_VALUE_MAX {
                proof {
                    gathered_grows(all, name@, i + 1);
                }
                return None;
            }
        }
        i = i + 1;
    }
    assert(all.subrange(0, all.len() as int) == all);
    Some(v)
}

/// Bytes for the program: text where they are UTF-8, else binary.
fn bytes_value(b: &[u8]) -> (r: Datum)
    ensures
        r@ == bytes_msg(b@),
{
    match text::utf8(b) {
        Some(s) => {
            proof {
                vstd::utf8::encode_utf8_decode_utf8(s@);
            }
            Datum::Text(s)
        },
        None => Datum::Binary(vstd::slice::slice_to_vec(b)),
    }
}

fn admit_headers(hs: &Vec<(String, Vec<u8>)>, allow: &Vec<String>) -> (r: Option<
    Vec<(Datum, Datum)>,
>)
    ensures
        r is None <==> oversized(header_views(hs@), text::texts(allow@)),
        r matches Some(es) ==> msg::entries(es@) == admitted(
            header_views(hs@),
            text::texts(allow@),
        ),
{
    let ghost all = header_views(hs@);
    let ghost names = text::texts(allow@);
    let mut es: Vec<(Datum, Datum)> = Vec::new();
    let mut i: usize = 0;
    assert(msg::entries(es@) =~= Seq::empty());
    while i < allow.len()
        invariant
            i <= allow.len(),
            all == header_views(hs@),
            names == text::texts(allow@),
            msg::entries(es@) == admitted(all, names.subrange(0, i as int)),
            forall|k: int|
                0 <= k < i ==> gathered(all, #[trigger] names[k]).len() <= HDR_VALUE_MAX,
        decreases allow.len() - i,
    {
        let ghost now = names.subrange(0, i + 1);
        assert(now.drop_last() == names.subrange(0, i as int));
        assert(now.last() == allow@[i as int]@);
        assert(names[i as int] == allow@[i as int]@);
        match gather(hs, allow[i].as_str()) {
            None => {
                return None;
            },
            Some(v) => {
                if v.len() != 0 {
                    msg::put(&mut es, allow[i].as_str(), bytes_value(v.as_slice()));
                }
            },
        }
        i = i + 1;
    }
    assert(names.subrange(0, names.len() as int) == names);
    Some(es)
}

/// The allowed headers are plain values.
proof fn admitted_is_plain(hs: Seq<(Seq<char>, Seq<u8>)>, allow: Seq<Seq<char>>, i: int)
    requires
        0 <= i < admitted(hs, allow).len(),
    ensures
        msg::plain(admitted(hs, allow)[i].0, 0),
        msg::plain(admitted(hs, allow)[i].1, 0),
    decreases allow.len(),
{
    if allow.len() > 0 {
        let rest = admitted(hs, allow.drop_last());
        if i < rest.len() {
            admitted_is_plain(hs, allow.drop_last(), i);
        }
    }
}

/// What the buffer comes to, given the head that was read from it. The
/// token is taken from `tokens` exactly when the request is whole.
pub fn judge_request(head: Head, buf: &[u8], rt: &ListenerRt, tokens: &mut u32) -> (r: Result<
    Parsed,
    (u16, &'static str),
>)
    requires
        head matches Head::Complete { len, .. } ==> len <= buf@.len(),
    ensures
        answers(
            r,
            judged(
                head@,
                buf@,
                text::texts(rt.hdr_allow@),
                rt.max_body as nat,
                *old(tokens),
            ),
            *old(tokens),
            *final(tokens),
        ),
{
    let ghost start = *tokens;
    match head {
        Head::Partial => {
            if buf.len() > HDR_ROOM {
                return Err((400, "headers past this host's room\n"));
            }
            Ok(Parsed::Incomplete { headers_done: false })
        },
        Head::Malformed => Err((400, "unparseable request\n")),
        Head::Complete { len, method, path, headers } => {
            let clen: usize = match read_body_length(&headers) {
                Err(e) => return Err(e),
                Ok(n) => n,
            };
            if clen > rt.max_body {
                return Err((413, "body past the configured cap\n"));
            }
            let present = match admit_headers(&headers, &rt.hdr_allow) {
                None => return Err(
                    (431, "an allowlisted header is past this host's value bound\n"),
                ),
                Some(es) => es,
            };
            if buf.len() - len < clen {
                return Ok(Parsed::Incomplete { headers_done: true });
            }
            let body = vstd::slice::slice_to_vec(vstd::slice::slice_subrange(buf, len, len + clen));
            let token: u32 = *tokens;
            *tokens = token.wrapping_add(1);
            let ghost hs = header_views(headers@);
            let ghost allow = text::texts(rt.hdr_allow@);
            let mut es: Vec<(Datum, Datum)> = Vec::new();
            msg::put(&mut es, "conn", Datum::Uint(token as u64));
            msg::put(&mut es, "method", Datum::Text(method));
            msg::put(&mut es, "path", Datum::Text(path));
            msg::put(&mut es, "body", Datum::Binary(body));
            if rt.hdr_allow.len() != 0 {
                msg::put(&mut es, "headers", msg::table(present));
            }
            let whole = msg::table(es);
            let ghost m = request_msg(
                start,
                method@,
                path@,
                buf@.subrange(len as int, len + clen),
                hs,
                allow,
            );
            assert(allow.len() == rt.hdr_allow@.len());
            assert(whole@ == m) by {
                assert(whole@->Table_0 =~= m->Table_0);
            }
            proof {
                request_is_plain(start, method@, path@, body@, hs, allow);
            }
            let message = msg::encode(&whole);
            Ok(Parsed::Complete { token, message })
        },
    }
}

proof fn request_is_plain(
    token: u32,
    method: Seq<char>,
    path: Seq<char>,
    body: Seq<u8>,
    hs: Seq<(Seq<char>, Seq<u8>)>,
    allow: Seq<Seq<char>>,
)
    ensures
        msg::plain(request_msg(token, method, path, body, hs, allow), msg::NESTING as nat),
{
    reveal_with_fuel(msg::plain, 3);
    let es = request_msg(token, method, path, body, hs, allow)->Table_0;
    let inner = admitted(hs, allow);
    assert forall|i: int| 0 <= i < inner.len() implies msg::plain((#[trigger] inner[i]).0, 6)
        && msg::plain(inner[i].1, 6) by {
        admitted_is_plain(hs, allow, i);
    }
    assert(msg::plain(Msg::Table(inner), 7));
    assert forall|i: int| 0 <= i < es.len() implies msg::plain((#[trigger] es[i]).0, 7)
        && msg::plain(es[i].1, 7) by {}
}

/// Validates what has arrived and, once the request is whole, builds the
/// request for the queue.
pub fn parse_request(buf: &[u8], rt: &ListenerRt, tokens: &mut u32) -> (r: Result<
    Parsed,
    (u16, &'static str),
>)
    ensures
        answers(
            r,
            request_in(buf@, text::texts(rt.hdr_allow@), rt.max_body as nat, *old(tokens)),
            *old(tokens),
            *final(tokens),
        ),
        r matches Ok(Parsed::Complete { .. }) ==> forall|more: Seq<u8>, token: u32|
            #[trigger] request_in(
                buf@.subrange(0, whole(head_in(buf@)) as int) + more,
                text::texts(rt.hdr_allow@),
                rt.max_body as nat,
                token,
            ) == request_in(buf@, text::texts(rt.hdr_allow@), rt.max_body as nat, token),
        r matches Ok(Parsed::Complete { .. }) && head_in(buf@)->Complete_len <= HDR_ROOM
            ==> forall|k: int, token: u32|
            0 <= k < whole(head_in(buf@)) ==> #[trigger] request_in(
                buf@.subrange(0, k),
                text::texts(rt.hdr_allow@),
                rt.max_body as nat,
                token,
            ) == (Judged::Incomplete { headers_done: k >= head_in(buf@)->Complete_len }),
{
    let head = read_head(buf);
    let ghost h = head@;
    let ghost given = buf@;
    let ghost allow = text::texts(rt.hdr_allow@);
    let ghost cap = rt.max_body as nat;
    let r = judge_request(head, buf, rt, tokens);
    proof {
        if r matches Ok(Parsed::Complete { .. }) {
            let len = h->Complete_len as int;
            let n = whole(h) as int;
            let front = given.subrange(0, len);
            assert forall|more: Seq<u8>, token: u32| #[trigger]
                request_in(given.subrange(0, n) + more, allow, cap, token) == request_in(
                given,
                allow,
                cap,
                token,
            ) by {
                let rest = given.subrange(len, n) + more;
                assert(given.subrange(0, n) + more =~= front + rest);
                assert(head_in(front + rest) == h);
                a_request_is_whole_at_its_end(h, given, more, allow, cap, token);
            }
            if h->Complete_len <= HDR_ROOM {
                assert forall|k: int, token: u32| 0 <= k < n implies #[trigger] request_in(
                    given.subrange(0, k),
                    allow,
                    cap,
                    token,
                ) == (Judged::Incomplete { headers_done: k >= h->Complete_len }) by {
                    if k >= len {
                        let rest = given.subrange(len, k);
                        assert(given.subrange(0, k) =~= front + rest);
                        assert(head_in(front + rest) == h);
                        a_request_is_whole_at_its_end(h, given, Seq::empty(), allow, cap, token);
                    } else {
                        assert(head_in(given.subrange(0, k)) == HeadView::Partial);
                    }
                }
            }
        }
    }
    r
}

// ---- the reply side ----

/// Whether a value holds no control byte.
pub open spec fn is_clean(v: Seq<u8>) -> bool {
    forall|i: int| 0 <= i < v.len() ==> (#[trigger] v[i]) >= 0x20 && v[i] != 0x7f
}

/// Tells whether a value holds no control byte.
pub fn clean(value: &[u8]) -> (r: bool)
    ensures
        r == is_clean(value@),
{
    let mut i: usize = 0;
    while i < value.len()
        invariant
            i <= value.len(),
            forall|k: int| 0 <= k < i ==> (#[trigger] value@[k]) >= 0x20 && value@[k] != 0x7f,
        decreases value.len() - i,
    {
        if value[i] < 0x20 || value[i] == 0x7f {
            return false;
        }
        i = i + 1;
    }
    true
}

/// The token that a reply names: its `conn`, cut to 32 bits; 0 where it
/// names none.
pub open spec fn token_in(m: Msg) -> u32 {
    match msg::as_u64(msg::member(m, "conn"@)) {
        Some(n) => (n % 0x1_0000_0000) as u32,
        None => 0,
    }
}

/// What a reply is read as: `Nil` where its bytes are no value.
pub open spec fn reply_in(raw: Seq<u8>) -> Msg {
    match msg::unpacked(raw) {
        Some(m) => m,
        None => Msg::Nil,
    }
}

fn read_reply(raw: &[u8]) -> (r: Datum)
    ensures
        r@ == reply_in(raw@),
{
    match msg::decode(raw) {
        Ok(v) => v,
        Err(_) => Datum::Nil,
    }
}

/// The token that a decoded reply names.
pub fn token_of(reply: &Datum) -> (r: u32)
    ensures
        r == token_in(reply@),
{
    match msg::unsigned(msg::field(reply, "conn")) {
        Some(n) => (n % 0x1_0000_0000) as u32,
        None => 0,
    }
}

/// The token that a reply names, or 0 for a reply that names none.
pub fn reply_token(raw: &[u8]) -> (r: u32)
    ensures
        r == token_in(reply_in(raw@)),
{
    token_of(&read_reply(raw))
}

/// The status of a reply: its `status` where that is from 100 to 599, else
/// 200.
pub open spec fn status_in(m: Msg) -> u16 {
    match msg::as_i64(msg::member(m, "status"@)) {
        Some(s) => if 100 <= s <= 599 {
            s as u16
        } else {
            200
        },
        None => 200,
    }
}

/// The body of a reply, empty where it holds none.
pub open spec fn body_in(m: Msg) -> Seq<u8> {
    match msg::as_bytes(msg::member(m, "body"@)) {
        Some(b) => b,
        None => Seq::empty(),
    }
}

/// Whether bytes can be a content type: short, clean and UTF-8.
pub open spec fn is_content_type(b: Seq<u8>) -> bool {
    b.len() < 128 && is_clean(b) && vstd::utf8::valid_utf8(b)
}

/// The content type of a reply, or the default.
pub open spec fn content_type_in(m: Msg) -> Seq<char> {
    match msg::as_bytes(msg::member(m, "content_type"@)) {
        Some(b) => if is_content_type(b) {
            vstd::utf8::decode_utf8(b)
        } else {
            "application/octet-stream"@
        },
        None => "application/octet-stream"@,
    }
}

/// The first name of the allowlist, from `i` on, that a name matches.
pub open spec fn slot_of(allow: Seq<Seq<char>>, name: Seq<char>, i: int) -> Option<int>
    decreases allow.len() - i,
{
    if i < 0 || i >= allow.len() {
        None
    } else if text::same_folded(allow[i], name) {
        Some(i)
    } else {
        slot_of(allow, name, i + 1)
    }
}

/// Whether bytes can be the value of a response header.
pub open spec fn is_header_value(b: Seq<u8>) -> bool {
    b.len() <= HDR_VALUE_MAX && is_clean(b)
}

/// The value that one entry of a reply's headers gives the allowed header
/// in `slot`.
pub open spec fn offered(e: (Msg, Msg), allow: Seq<Seq<char>>, slot: int) -> Option<Seq<u8>> {
    match (msg::as_text(Some(e.0)), msg::as_bytes(Some(e.1))) {
        (Some(name), Some(b)) => if slot_of(allow, name, 0) == Some(slot) && is_header_value(b) {
            Some(b)
        } else {
            None
        },
        _ => None,
    }
}

/// The value of the allowed header in `slot`: the last that is offered.
pub open spec fn chosen(es: Seq<(Msg, Msg)>, allow: Seq<Seq<char>>, slot: int) -> Option<Seq<u8>>
    decreases es.len(),
{
    if es.len() == 0 {
        None
    } else {
        match offered(es.last(), allow, slot) {
            Some(b) => Some(b),
            None => chosen(es.drop_last(), allow, slot),
        }
    }
}

/// The response headers, in the order and the spelling of the allowlist,
/// up to slot `n`. A value that is not UTF-8 loses the header.
pub open spec fn kept(es: Seq<(Msg, Msg)>, allow: Seq<Seq<char>>, n: int) -> Seq<
    (Seq<char>, Seq<char>),
>
    decreases n,
{
    if n <= 0 {
        Seq::empty()
    } else {
        let rest = kept(es, allow, n - 1);
        match chosen(es, allow, n - 1) {
            Some(b) => if vstd::utf8::valid_utf8(b) {
                rest.push((allow[n - 1], vstd::utf8::decode_utf8(b)))
            } else {
                rest
            },
            None => rest,
        }
    }
}

/// The entries of a reply's `headers`.
pub open spec fn header_entries(m: Msg) -> Seq<(Msg, Msg)> {
    match msg::member(m, "headers"@) {
        Some(Msg::Table(es)) => es,
        _ => Seq::empty(),
    }
}

/// The headers of an outcome, as mathematics.
pub open spec fn text_pairs(hs: Seq<(String, String)>) -> Seq<(Seq<char>, Seq<char>)> {
    Seq::new(hs.len(), |i: int| (hs[i].0@, hs[i].1@))
}

/// Whether an outcome is what a reply says under an allowlist.
pub open spec fn says(o: Outcome, m: Msg, allow: Seq<Seq<char>>) -> bool {
    o matches Outcome::Reply { status, content_type, headers, body } && {
        &&& status == status_in(m)
        &&& content_type@ == content_type_in(m)
        &&& text_pairs(headers@) == kept(header_entries(m), allow, allow.len() as int)
        &&& body@ == body_in(m)
    }
}

fn find_slot(allow: &Vec<String>, name: &str) -> (r: Option<usize>)
    ensures
        r is Some <==> slot_of(text::texts(allow@), name@, 0) is Some,
        r matches Some(i) ==> slot_of(text::texts(allow@), name@, 0) == Some(i as int) && i
            < allow.len(),
{
    let ghost names = text::texts(allow@);
    let mut i: usize = 0;
    while i < allow.len()
        invariant
            i <= allow.len(),
            names == text::texts(allow@),
            slot_of(names, name@, 0) == slot_of(names, name@, i as int),
        decreases allow.len() - i,
    {
        assert(names[i as int] == allow@[i as int]@);
        if text::same_ignoring_case(allow[i].as_str(), name) {
            return Some(i);
        }
        i = i + 1;
    }
    None
}

fn value_for(es: &Vec<(Datum, Datum)>, allow: &Vec<String>, slot: usize) -> (r: Option<Vec<u8>>)
    ensures
        msg::opt_bytes(r) == chosen(msg::entries(es@), text::texts(allow@), slot as int),
{
    let ghost all = msg::entries(es@);
    let ghost names = text::texts(allow@);
    let mut n: usize = es.len();
    assert(all.subrange(0, all.len() as int) == all);
    while n > 0
        invariant
            n <= es.len(),
            all == msg::entries(es@),
            names == text::texts(allow@),
            chosen(all, names, slot as int) == chosen(
                all.subrange(0, n as int),
                names,
                slot as int,
            ),
        decreases n,
    {
        let ghost now = all.subrange(0, n as int);
        assert(now.drop_last() == all.subrange(0, n - 1));
        assert(now.last() == (es@[n - 1].0@, es@[n - 1].1@));
        if let Datum::Text(name) = &es[n - 1].0 {
            if let Some(found) = find_slot(allow, name.as_str()) {
                if found == slot {
                    if let Some(b) = msg::bytes(Some(&es[n - 1].1)) {
                        if b.len() <= HDR_VALUE_MAX && clean(b.as_slice()) {
                            return Some(b);
                        }
                    }
                }
            }
        }
        n = n - 1;
    }
    None
}

fn keep_headers(es: &Vec<(Datum, Datum)>, allow: &Vec<String>) -> (r: Vec<(String, String)>)
    ensures
        text_pairs(r@) == kept(msg::entries(es@), text::texts(allow@), allow@.len() as int),
{
    let ghost all = msg::entries(es@);
    let ghost names = text::texts(allow@);
    let mut r: Vec<(String, String)> = Vec::new();
    let mut i: usize = 0;
    assert(text_pairs(r@) =~= Seq::empty());
    while i < allow.len()
        invariant
            i <= allow.len(),
            all == msg::entries(es@),
            names == text::texts(allow@),
            text_pairs(r@) == kept(all, names, i as int),
        decreases allow.len() - i,
    {
        let ghost before = r@;
        if let Some(b) = value_for(es, allow, i) {
            if let Some(s) = text::utf8(b.as_slice()) {
                proof {
                    vstd::utf8::encode_utf8_decode_utf8(s@);
                }
                r.push((allow[i].clone(), s));
                assert(text_pairs(r@) =~= text_pairs(before).push((names[i as int], s@)));
            }
        }
        i = i + 1;
    }
    r
}

/// What a decoded reply says under the listener's allowlist.
pub fn outcome_of(reply: &Datum, owner: &ListenerRt) -> (r: Outcome)
    ensures
        says(r, reply@, text::texts(owner.resp_allow@)),
{
    let status: u16 = match msg::signed(msg::field(reply, "status")) {
        Some(s) => if 100 <= s && s <= 599 {
            s as u16
        } else {
            200
        },
        None => 200,
    };
    let body: Vec<u8> = match msg::bytes(msg::field(reply, "body")) {
        Some(b) => b,
        None => Vec::new(),
    };
    let content_type: String = match msg::bytes(msg::field(reply, "content_type")) {
        Some(b) => if b.len() < 128 && clean(b.as_slice()) {
            match text::utf8(b.as_slice()) {
                Some(s) => {
                    proof {
                        vstd::utf8::encode_utf8_decode_utf8(s@);
                    }
                    s
                },
                None => "application/octet-stream".to_owned(),
            }
        } else {
            "application/octet-stream".to_owned()
        },
        None => "application/octet-stream".to_owned(),
    };
    let none: Vec<(Datum, Datum)> = Vec::new();
    let headers = match msg::field(reply, "headers") {
        Some(Datum::Table(es)) => {
            let given = msg::field(reply, "headers");
            assert(msg::opt_ref(given) == Some(Msg::Table(header_entries(reply@))));
            assert(msg::entries(es@) =~= header_entries(reply@));
            keep_headers(es, &owner.resp_allow)
        },
        _ => {
            assert(msg::entries(none@) =~= Seq::empty());
            assert(header_entries(reply@) =~= Seq::empty());
            keep_headers(&none, &owner.resp_allow)
        },
    };
    Outcome::Reply { status, content_type, headers, body }
}

/// Reads one reply from the queue into what the connection gets. A member
/// that is missing or of the wrong kind takes its default.
pub fn parse_reply(raw: &[u8], owner: &ListenerRt) -> (r: Outcome)
    ensures
        says(r, reply_in(raw@), text::texts(owner.resp_allow@)),
{
    outcome_of(&read_reply(raw), owner)
}

// ---- the response bytes ----

/// The reason phrase of a status.
pub open spec fn reason(status: u16) -> Seq<char> {
    if status == 200 {
        "OK"@
    } else if status == 201 {
        "Created"@
    } else if status == 204 {
        "No Content"@
    } else if status == 400 {
        "Bad Request"@
    } else if status == 404 {
        "Not Found"@
    } else if status == 413 {
        "Content Too Large"@
    } else if status == 431 {
        "Request Header Fields Too Large"@
    } else if status == 500 {
        "Internal Server Error"@
    } else if status == 503 {
        "Service Unavailable"@
    } else if status == 504 {
        "Gateway Timeout"@
    } else {
        "Status"@
    }
}

/// The reason phrase of a status.
pub fn reason_for(status: u16) -> (r: &'static str)
    ensures
        r@ == reason(status),
{
    match status {
        200 => "OK",
        201 => "Created",
        204 => "No Content",
        400 => "Bad Request",
        404 => "Not Found",
        413 => "Content Too Large",
        431 => "Request Header Fields Too Large",
        500 => "Internal Server Error",
        503 => "Service Unavailable",
        504 => "Gateway Timeout",
        _ => "Status",
    }
}

/// The header lines of a response.
pub open spec fn header_lines(hs: Seq<(Seq<char>, Seq<char>)>) -> Seq<char>
    decreases hs.len(),
{
    if hs.len() == 0 {
        Seq::empty()
    } else {
        header_lines(hs.drop_last()) + hs.last().0 + ": "@ + hs.last().1 + "\r\n"@
    }
}

/// The head of a response.
pub open spec fn response_head(
    status: u16,
    content_type: Seq<char>,
    hs: Seq<(Seq<char>, Seq<char>)>,
    body_len: nat,
) -> Seq<char> {
    "HTTP/1.1 "@ + text::dec(status as nat) + " "@ + reason(status) + "\r\nContent-Type: "@
        + content_type + "\r\n"@ + header_lines(hs) + "Content-Length: "@ + text::dec(body_len)
        + "\r\nConnection: close\r\n\r\n"@
}

/// The bytes of a response: its head, then its body.
pub open spec fn response(
    status: u16,
    content_type: Seq<char>,
    hs: Seq<(Seq<char>, Seq<char>)>,
    body: Seq<u8>,
) -> Seq<u8> {
    vstd::utf8::encode_utf8(response_head(status, content_type, hs, body.len())) + body
}

/// The bytes of a response.
pub fn response_bytes(
    status: u16,
    content_type: &str,
    headers: &Vec<(String, String)>,
    body: &[u8],
) -> (r: Vec<u8>)
    ensures
        r@ == response(status, content_type@, text_pairs(headers@), body@),
{
    let mut head = text::join5(
        "HTTP/1.1 ",
        text::decimal(status as u64).as_str(),
        " ",
        reason_for(status),
        "\r\nContent-Type: ",
    );
    head.append(content_type);
    head.append("\r\n");
    let ghost top = head@;
    let ghost hs = text_pairs(headers@);
    let mut i: usize = 0;
    assert(top + header_lines(hs.subrange(0, 0)) =~= top);
    while i < headers.len()
        invariant
            i <= headers.len(),
            hs == text_pairs(headers@),
            head@ == top + header_lines(hs.subrange(0, i as int)),
        decreases headers.len() - i,
    {
        let ghost now = hs.subrange(0, i + 1);
        assert(now.drop_last() == hs.subrange(0, i as int));
        assert(now.last() == (headers@[i as int].0@, headers@[i as int].1@));
        head.append(headers[i].0.as_str());
        head.append(": ");
        head.append(headers[i].1.as_str());
        head.append("\r\n");
        assert(head@ =~= top + header_lines(now));
        i = i + 1;
    }
    assert(hs.subrange(0, hs.len() as int) == hs);
    head.append("Content-Length: ");
    head.append(text::decimal(body.len() as u64).as_str());
    head.append("\r\nConnection: close\r\n\r\n");
    assert(head@ =~= response_head(status, content_type@, hs, body@.len()));
    let mut out = vstd::slice::slice_to_vec(head.as_str().as_bytes());
    out.extend_from_slice(body);
    assert(out@ =~= response(status, content_type@, hs, body@));
    out
}

/// The bytes of a refusal.
pub open spec fn refusal(status: u16, why: Seq<char>) -> Seq<u8> {
    response(status, "text/plain"@, Seq::empty(), vstd::utf8::encode_utf8(why))
}

/// The bytes of a refusal.
pub fn refusal_bytes(status: u16, why: &str) -> (r: Vec<u8>)
    ensures
        r@ == refusal(status, why@),
{
    let none: Vec<(String, String)> = Vec::new();
    assert(text_pairs(none@) =~= Seq::empty());
    response_bytes(status, "text/plain", &none, why.as_bytes())
}

/// The bytes of an outcome.
pub open spec fn outcome_wire(o: Outcome) -> Seq<u8> {
    match o {
        Outcome::Reply { status, content_type, headers, body } => response(
            status,
            content_type@,
            text_pairs(headers@),
            body@,
        ),
        Outcome::Refused { status, text } => refusal(status, text@),
    }
}

/// The bytes of an outcome.
pub fn outcome_bytes(outcome: &Outcome) -> (r: Vec<u8>)
    ensures
        r@ == outcome_wire(*outcome),
{
    match outcome {
        Outcome::Reply { status, content_type, headers, body } => response_bytes(
            *status,
            content_type.as_str(),
            headers,
            body.as_slice(),
        ),
        Outcome::Refused { status, text } => refusal_bytes(*status, text),
    }
}

/// The refusal of a connection past the cap.
pub const CAP_TEXT: &'static str = "the listener is at its connection cap\n";

/// The refusal of a request while the deployment comes down.
pub const DOWN_TEXT: &'static str = "the deployment is shutting down\n";

/// The refusal of a request that the program did not answer in time.
pub const LATE_TEXT: &'static str = "the program did not answer within the deadline\n";

/// The bytes for a connection that waited for its answer: the outcome, or
/// the refusal where the deadline came first.
pub fn waited_bytes(outcome: Option<&Outcome>) -> (r: Vec<u8>)
    ensures
        r@ == (match outcome {
            Some(o) => outcome_wire(*o),
            None => refusal(504, LATE_TEXT@),
        }),
{
    match outcome {
        Some(o) => outcome_bytes(o),
        None => refusal_bytes(504, LATE_TEXT),
    }
}

// ---- laws ----

/// A request carries its token where a reply is asked for it: a program
/// that answers with the request's own `conn` reaches the connection that
/// the request came from.
pub proof fn a_request_names_its_connection(
    token: u32,
    method: Seq<char>,
    path: Seq<char>,
    body: Seq<u8>,
    hs: Seq<(Seq<char>, Seq<u8>)>,
    allow: Seq<Seq<char>>,
)
    ensures
        token_in(request_msg(token, method, path, body, hs, allow)) == token,
{
    let m = request_msg(token, method, path, body, hs, allow);
    let es = m->Table_0;
    assert(es[0] == (Msg::Text("conn"@), Msg::Int(token as int)));
    assert(msg::seek(es, "conn"@, 0) == Some(Msg::Int(token as int)));
}

/// A request is whole at its end and nowhere before: over one head, bytes
/// behind the body change nothing, and every byte of the body is waited for.
pub proof fn a_request_is_whole_at_its_end(
    head: HeadView,
    buf: Seq<u8>,
    more: Seq<u8>,
    allow: Seq<Seq<char>>,
    max_body: nat,
    token: u32,
)
    requires
        head matches HeadView::Complete { len, .. } && len <= buf.len(),
        judged(head, buf, allow, max_body, token) is Complete,
    ensures
        whole(head) <= buf.len(),
        judged(head, buf.subrange(0, whole(head) as int) + more, allow, max_body, token) == judged(
            head,
            buf,
            allow,
            max_body,
            token,
        ),
        forall|k: int|
            head->Complete_len <= k < whole(head) ==> #[trigger] judged(
                head,
                buf.subrange(0, k),
                allow,
                max_body,
                token,
            ) == (Judged::Incomplete { headers_done: true }),
{
    let n = whole(head) as int;
    let len = head->Complete_len as int;
    let longer = buf.subrange(0, n) + more;
    assert(longer.subrange(len, n) =~= buf.subrange(len, n));
}

proof fn gathered_without(hs: Seq<(Seq<char>, Seq<u8>)>, i: int, name: Seq<char>)
    requires
        0 <= i < hs.len(),
        !text::same_folded(hs[i].0, name),
    ensures
        gathered(hs.remove(i), name) == gathered(hs, name),
    decreases hs.len(),
{
    if i == hs.len() - 1 {
        assert(hs.remove(i) =~= hs.drop_last());
    } else {
        gathered_without(hs.drop_last(), i, name);
        assert(hs.remove(i).drop_last() =~= hs.drop_last().remove(i));
        assert(hs.remove(i).last() == hs.last());
    }
}

proof fn admitted_without(hs: Seq<(Seq<char>, Seq<u8>)>, i: int, allow: Seq<Seq<char>>)
    requires
        0 <= i < hs.len(),
        forall|k: int| 0 <= k < allow.len() ==> !text::same_folded(hs[i].0, #[trigger] allow[k]),
    ensures
        admitted(hs.remove(i), allow) == admitted(hs, allow),
    decreases allow.len(),
{
    if allow.len() > 0 {
        assert forall|k: int| 0 <= k < allow.drop_last().len() implies !text::same_folded(
            hs[i].0,
            #[trigger] allow.drop_last()[k],
        ) by {
            assert(allow.drop_last()[k] == allow[k]);
        }
        admitted_without(hs, i, allow.drop_last());
        gathered_without(hs, i, allow[allow.len() - 1]);
    }
}

proof fn body_length_without(hs: Seq<(Seq<char>, Seq<u8>)>, i: int, j: int, seen: Option<nat>)
    requires
        0 <= i < hs.len(),
        0 <= j <= hs.len(),
        !text::same_folded(hs[i].0, "content-length"@),
        !text::same_folded(hs[i].0, "transfer-encoding"@),
    ensures
        body_length(hs, j, seen) == body_length(
            hs.remove(i),
            if j <= i {
                j
            } else {
                j - 1
            },
            seen,
        ),
    decreases hs.len() - j,
{
    let less = hs.remove(i);
    if j < hs.len() {
        if j < i {
            assert(less[j] == hs[j]);
        } else if j > i {
            assert(less[j - 1] == hs[j]);
        }
        if j != i && text::same_folded(hs[j].0, "content-length"@) {
            if let Ok(n) = stated_length(hs[j].1, 0, 0) {
                body_length_without(hs, i, j + 1, Some(n));
            }
        } else {
            body_length_without(hs, i, j + 1, seen);
        }
    }
}

/// A header that the listener does not allow never reaches the program: the
/// message is the same without it.
pub proof fn a_header_not_allowed_is_not_seen(
    token: u32,
    method: Seq<char>,
    path: Seq<char>,
    body: Seq<u8>,
    hs: Seq<(Seq<char>, Seq<u8>)>,
    i: int,
    allow: Seq<Seq<char>>,
)
    requires
        0 <= i < hs.len(),
        forall|k: int| 0 <= k < allow.len() ==> !text::same_folded(hs[i].0, #[trigger] allow[k]),
    ensures
        request_msg(token, method, path, body, hs.remove(i), allow) == request_msg(
            token,
            method,
            path,
            body,
            hs,
            allow,
        ),
{
    admitted_without(hs, i, allow);
}

/// A header that the listener does not allow, and that does not say how long
/// the body is, changes nothing of what a request comes to.
pub proof fn a_header_not_allowed_decides_nothing(
    len: nat,
    method: Seq<char>,
    path: Seq<char>,
    hs: Seq<(Seq<char>, Seq<u8>)>,
    i: int,
    buf: Seq<u8>,
    allow: Seq<Seq<char>>,
    max_body: nat,
    token: u32,
)
    requires
        0 <= i < hs.len(),
        forall|k: int| 0 <= k < allow.len() ==> !text::same_folded(hs[i].0, #[trigger] allow[k]),
        !text::same_folded(hs[i].0, "content-length"@),
        !text::same_folded(hs[i].0, "transfer-encoding"@),
    ensures
        judged(
            HeadView::Complete { len, method, path, headers: hs.remove(i) },
            buf,
            allow,
            max_body,
            token,
        ) == judged(
            HeadView::Complete { len, method, path, headers: hs },
            buf,
            allow,
            max_body,
            token,
        ),
{
    body_length_without(hs, i, 0, None);
    admitted_without(hs, i, allow);
    assert forall|k: int| 0 <= k < allow.len() implies gathered(hs.remove(i), #[trigger] allow[k])
        == gathered(hs, allow[k]) by {
        gathered_without(hs, i, allow[k]);
    }
    assert(oversized(hs.remove(i), allow) == oversized(hs, allow)) by {
        if oversized(hs, allow) {
            let k = choose|k: int|
                0 <= k < allow.len() && gathered(hs, #[trigger] allow[k]).len() > HDR_VALUE_MAX;
            assert(gathered(hs.remove(i), allow[k]).len() > HDR_VALUE_MAX);
        }
        if oversized(hs.remove(i), allow) {
            let k = choose|k: int|
                0 <= k < allow.len() && gathered(hs.remove(i), #[trigger] allow[k]).len()
                    > HDR_VALUE_MAX;
            assert(gathered(hs, allow[k]).len() > HDR_VALUE_MAX);
        }
    }
}

/// Whether a text holds no control character below the letters and no
/// delete: nothing that ends or forges a header line.
pub open spec fn is_clean_text(s: Seq<char>) -> bool {
    forall|i: int| 0 <= i < s.len() ==> (#[trigger] s[i]) as u32 >= 0x20 && s[i] as u32 != 0x7f
}

proof fn clean_encoding(s: Seq<char>)
    requires
        is_clean(vstd::utf8::encode_utf8(s)),
    ensures
        is_clean_text(s),
    decreases s.len(),
{
    if s.len() > 0 {
        let b = vstd::utf8::encode_utf8(s);
        let rest = s.drop_first();
        let head = vstd::utf8::encode_scalar(s[0] as u32);
        let tail = vstd::utf8::encode_utf8(rest);
        assert(b == head + tail);
        assert forall|i: int| 0 <= i < tail.len() implies (#[trigger] tail[i]) >= 0x20 && tail[i]
            != 0x7f by {
            assert(tail[i] == b[head.len() + i]);
        }
        clean_encoding(rest);
        let c = s[0] as u32;
        if c < 0x80 {
            assert(head[0] == vstd::utf8::leading_byte_width_1(c));
            assert(c < 0x80 ==> vstd::utf8::leading_byte_width_1(c) == c) by (bit_vector);
            assert(b[0] == head[0]);
        }
        assert forall|i: int| 0 <= i < s.len() implies (#[trigger] s[i]) as u32 >= 0x20 && s[i] as u32
            != 0x7f by {
            if i > 0 {
                assert(s[i] == rest[i - 1]);
            }
        }
    }
}

/// Clean bytes are clean text.
pub proof fn clean_bytes_are_clean_text(b: Seq<u8>)
    requires
        vstd::utf8::valid_utf8(b),
        is_clean(b),
    ensures
        is_clean_text(vstd::utf8::decode_utf8(b)),
{
    vstd::utf8::decode_utf8_encode_utf8(b);
    clean_encoding(vstd::utf8::decode_utf8(b));
}

proof fn chosen_is_fit(es: Seq<(Msg, Msg)>, allow: Seq<Seq<char>>, slot: int)
    ensures
        chosen(es, allow, slot) matches Some(b) ==> is_header_value(b),
    decreases es.len(),
{
    if es.len() > 0 {
        chosen_is_fit(es.drop_last(), allow, slot);
    }
}

proof fn kept_is_clean(es: Seq<(Msg, Msg)>, allow: Seq<Seq<char>>, n: int, i: int)
    requires
        0 <= n <= allow.len(),
        0 <= i < kept(es, allow, n).len(),
    ensures
        is_clean_text(kept(es, allow, n)[i].1),
        exists|k: int| 0 <= k < n && kept(es, allow, n)[i].0 == #[trigger] allow[k],
    decreases n,
{
    let rest = kept(es, allow, n - 1);
    if i < rest.len() {
        kept_is_clean(es, allow, n - 1, i);
    } else {
        chosen_is_fit(es, allow, n - 1);
        let b = chosen(es, allow, n - 1)->0;
        clean_bytes_are_clean_text(b);
        assert(kept(es, allow, n)[i].0 == allow[n - 1]);
    }
}

/// Whatever a program replies, it cannot forge the head of its response: the
/// status has three digits, the content type and every header value are
/// free of control characters, and every header name is the allowlist's.
pub proof fn a_reply_forges_nothing(m: Msg, allow: Seq<Seq<char>>)
    ensures
        100 <= status_in(m) <= 599,
        is_clean_text(content_type_in(m)),
        forall|i: int|
            0 <= i < kept(header_entries(m), allow, allow.len() as int).len() ==> is_clean_text(
                (#[trigger] kept(header_entries(m), allow, allow.len() as int)[i]).1,
            ) && allow.contains(kept(header_entries(m), allow, allow.len() as int)[i].0),
{
    reveal_strlit("application/octet-stream");
    assert(is_clean_text("application/octet-stream"@));
    if let Some(b) = msg::as_bytes(msg::member(m, "content_type"@)) {
        if is_content_type(b) {
            clean_bytes_are_clean_text(b);
        }
    }
    let es = header_entries(m);
    assert forall|i: int| 0 <= i < kept(es, allow, allow.len() as int).len() implies is_clean_text(
        (#[trigger] kept(es, allow, allow.len() as int)[i]).1,
    ) && allow.contains(kept(es, allow, allow.len() as int)[i].0) by {
        kept_is_clean(es, allow, allow.len() as int, i);
    }
}

proof fn length_from(v: Seq<u8>, i: int, acc: nat, d: u8)
    requires
        0 <= i <= v.len(),
    ensures
        match stated_length(v, i, acc) {
            Ok(n) => stated_length(v.push(d), i, acc) == stated_length(seq![d], 0, n),
            Err(e) => stated_length(v.push(d), i, acc) == Err::<nat, RefusalView>(e),
        },
    decreases v.len() - i,
{
    let more = v.push(d);
    if i < v.len() {
        assert(more[i] == v[i]);
        if is_digit(v[i]) && acc * 10 + (v[i] - 48) <= usize::MAX {
            length_from(v, i + 1, (acc * 10 + (v[i] - 48)) as nat, d);
        }
    } else {
        assert(more[i] == d);
        reveal_with_fuel(stated_length, 3);
    }
}

/// A stated length is read in base ten: one digit more makes it ten times as
/// long and that digit longer. What is no digit is refused, and so is what no
/// buffer can hold.
pub proof fn a_digit_more_is_ten_times_as_long(v: Seq<u8>, d: u8)
    ensures
        stated_length(Seq::empty(), 0, 0) == Ok::<nat, RefusalView>(0),
        match stated_length(v, 0, 0) {
            Ok(n) => stated_length(v.push(d), 0, 0) == (if !(48 <= d <= 57) {
                Err((400u16, "Content-Length must be digits only\n"@))
            } else if n * 10 + (d - 48) > usize::MAX {
                Err((413u16, "Content-Length overflows\n"@))
            } else {
                Ok((n * 10 + (d - 48)) as nat)
            }),
            Err(e) => stated_length(v.push(d), 0, 0) == Err::<nat, RefusalView>(e),
        },
{
    length_from(v, 0, 0, d);
    reveal_with_fuel(stated_length, 3);
}

/// The digits of a number in decimal state that number.
pub proof fn a_decimal_length_is_that_number(n: nat)
    requires
        n <= usize::MAX,
    ensures
        stated_length(vstd::utf8::encode_utf8(text::dec(n)), 0, 0) == Ok::<nat, RefusalView>(n),
        vstd::utf8::encode_utf8(text::dec(n)).len() > 0,
    decreases n,
{
    broadcast use vstd::utf8::is_ascii_chars_encode_utf8;

    text::decimal_reads_back(n);
    let s = text::dec(n);
    assert forall|i: int| 0 <= i < s.len() implies 0 <= (#[trigger] s[i]) as nat && s[i] as nat
        <= 127 by {
        assert(text::is_digit(s[i]));
    }
    assert(vstd::utf8::is_ascii_chars(s));
    let v = vstd::utf8::encode_utf8(s);
    assert(v.len() == s.len());
    assert(forall|i: int| 0 <= i < s.len() ==> (#[trigger] v[i]) == s[i] as u8);
    if n < 10 {
        text::decimal_is_base_ten(0, n);
        a_digit_more_is_ten_times_as_long(Seq::empty(), v[0]);
        assert(v =~= Seq::<u8>::empty().push(v[0]));
        assert(v[0] == 48 + n);
    } else {
        let m = n / 10;
        let d = n % 10;
        a_decimal_length_is_that_number(m);
        text::decimal_is_base_ten(m, d);
        text::decimal_reads_back(m);
        let t = text::dec(m);
        assert forall|i: int| 0 <= i < t.len() implies 0 <= (#[trigger] t[i]) as nat && t[i] as nat
            <= 127 by {
            assert(text::is_digit(t[i]));
        }
        assert(vstd::utf8::is_ascii_chars(t));
        let w = vstd::utf8::encode_utf8(t);
        assert(s == t.push((48 + d) as char));
        assert(w.len() == t.len());
        assert(forall|i: int| 0 <= i < t.len() ==> (#[trigger] w[i]) == t[i] as u8);
        let last = (48 + d) as u8;
        assert(v[t.len() as int] == last);
        assert(v =~= w.push(last));
        a_digit_more_is_ten_times_as_long(w, last);
    }
}

proof fn length_at(hs: Seq<(Seq<char>, Seq<u8>)>, i: int, at: int, seen: Option<nat>)
    requires
        0 <= i <= hs.len(),
        forall|k: int|
            i <= k < hs.len() ==> !text::same_folded((#[trigger] hs[k]).0, "transfer-encoding"@),
        forall|k: int|
            i <= k < hs.len() && k != at ==> !text::same_folded(
                (#[trigger] hs[k]).0,
                "content-length"@,
            ),
        i <= at < hs.len() ==> seen is None && text::same_folded(hs[at].0, "content-length"@)
            && hs[at].1.len() > 0,
    ensures
        body_length(hs, i, seen) == (if i <= at < hs.len() {
            stated_length(hs[at].1, 0, 0)
        } else {
            Ok(
                match seen {
                    Some(n) => n,
                    None => 0,
                },
            )
        }),
    decreases hs.len() - i,
{
    if i < hs.len() {
        if i == at {
            if let Ok(n) = stated_length(hs[at].1, 0, 0) {
                length_at(hs, i + 1, at, Some(n));
            }
        } else {
            length_at(hs, i + 1, at, seen);
        }
    }
}

/// A body is as long as the one `Content-Length` states, whatever its case,
/// and there is none where no header states one: the request ends that many
/// bytes behind its head.
pub proof fn a_body_is_as_long_as_stated(
    len: nat,
    method: Seq<char>,
    path: Seq<char>,
    hs: Seq<(Seq<char>, Seq<u8>)>,
    at: int,
    n: nat,
)
    requires
        n <= usize::MAX,
        forall|k: int|
            0 <= k < hs.len() ==> !text::same_folded((#[trigger] hs[k]).0, "transfer-encoding"@),
        forall|k: int|
            0 <= k < hs.len() && k != at ==> !text::same_folded(
                (#[trigger] hs[k]).0,
                "content-length"@,
            ),
        0 <= at < hs.len() ==> text::same_folded(hs[at].0, "content-length"@) && hs[at].1
            == vstd::utf8::encode_utf8(text::dec(n)),
        !(0 <= at < hs.len()) ==> n == 0,
    ensures
        body_length(hs, 0, None) == Ok::<nat, RefusalView>(n),
        whole(HeadView::Complete { len, method, path, headers: hs }) == len + n,
{
    a_decimal_length_is_that_number(n);
    length_at(hs, 0, at, None);
}

proof fn no_second_length(hs: Seq<(Seq<char>, Seq<u8>)>, i: int, b: int, seen: nat)
    requires
        0 <= i <= b < hs.len(),
        text::same_folded(hs[b].0, "content-length"@),
    ensures
        body_length(hs, i, Some(seen)) is Err,
    decreases hs.len() - i,
{
    if i < b && !text::same_folded(hs[i].0, "content-length"@) && !text::same_folded(
        hs[i].0,
        "transfer-encoding"@,
    ) {
        no_second_length(hs, i + 1, b, seen);
    }
}

proof fn no_two_lengths(
    hs: Seq<(Seq<char>, Seq<u8>)>,
    i: int,
    a: int,
    b: int,
    seen: Option<nat>,
)
    requires
        0 <= i <= a < hs.len(),
        a <= b < hs.len(),
        text::same_folded(hs[b].0, "content-length"@) || text::same_folded(
            hs[b].0,
            "transfer-encoding"@,
        ),
        a < b ==> text::same_folded(hs[a].0, "content-length"@),
        a == b ==> text::same_folded(hs[a].0, "transfer-encoding"@),
    ensures
        body_length(hs, i, seen) is Err,
    decreases hs.len() - i,
{
    if text::same_folded(hs[i].0, "content-length"@) {
        if seen is None && hs[i].1.len() > 0 {
            if let Ok(n) = stated_length(hs[i].1, 0, 0) {
                if !text::same_folded(hs[i].0, "transfer-encoding"@) {
                    if i < a {
                        no_two_lengths(hs, i + 1, a, b, Some(n));
                    } else if text::same_folded(hs[b].0, "content-length"@) {
                        no_second_length(hs, i + 1, b, n);
                    } else {
                        no_two_lengths(hs, i + 1, b, b, Some(n));
                    }
                }
            }
        }
    } else if !text::same_folded(hs[i].0, "transfer-encoding"@) {
        no_two_lengths(hs, i + 1, a, b, seen);
    }
}

/// A request whose length is stated twice, or whose body comes in chunks, is
/// refused.
pub proof fn an_unclear_length_is_refused(hs: Seq<(Seq<char>, Seq<u8>)>, a: int, b: int)
    requires
        0 <= a <= b < hs.len(),
        a < b ==> text::same_folded(hs[a].0, "content-length"@) && text::same_folded(
            hs[b].0,
            "content-length"@,
        ),
        a == b ==> text::same_folded(hs[a].0, "transfer-encoding"@),
    ensures
        body_length(hs, 0, None) is Err,
        body_length(hs, 0, None)->Err_0.0 == 400 || body_length(hs, 0, None)->Err_0.0 == 413,
{
    no_two_lengths(hs, 0, a, b, None);
    refusals_are_of_the_client(hs, 0, None);
}

proof fn refused_digits(v: Seq<u8>, i: int, acc: nat)
    ensures
        stated_length(v, i, acc) matches Err(e) ==> e.0 == 400 || e.0 == 413,
    decreases v.len() - i,
{
    if 0 <= i < v.len() && is_digit(v[i]) && acc * 10 + (v[i] - 48) <= usize::MAX {
        refused_digits(v, i + 1, (acc * 10 + (v[i] - 48)) as nat);
    }
}

proof fn refusals_are_of_the_client(hs: Seq<(Seq<char>, Seq<u8>)>, i: int, seen: Option<nat>)
    ensures
        body_length(hs, i, seen) matches Err(e) ==> e.0 == 400 || e.0 == 413,
    decreases hs.len() - i,
{
    if 0 <= i < hs.len() {
        refused_digits(hs[i].1, 0, 0);
        if let Ok(n) = stated_length(hs[i].1, 0, 0) {
            refusals_are_of_the_client(hs, i + 1, Some(n));
        }
        refusals_are_of_the_client(hs, i + 1, seen);
    }
}

/// A request whose head and body have arrived is handed over: the program
/// finds its method, its path and exactly the bytes of its body. One that is
/// longer than it may be is refused, and one that has not all arrived is
/// waited for.
pub proof fn a_whole_request_is_handed_over(
    len: nat,
    method: Seq<char>,
    path: Seq<char>,
    hs: Seq<(Seq<char>, Seq<u8>)>,
    buf: Seq<u8>,
    allow: Seq<Seq<char>>,
    max_body: nat,
    token: u32,
    n: nat,
)
    requires
        body_length(hs, 0, None) == Ok::<nat, RefusalView>(n),
        forall|k: int| 0 <= k < allow.len() ==> gathered(hs, #[trigger] allow[k]).len() <= 4096,
        len <= buf.len(),
    ensures
        match judged(
            HeadView::Complete { len, method, path, headers: hs },
            buf,
            allow,
            max_body,
            token,
        ) {
            Judged::Refused((status, _)) => status == 413 && n > max_body,
            Judged::Incomplete { headers_done } => headers_done && n <= max_body && buf.len() < len
                + n,
            Judged::Complete(m) => {
                &&& n <= max_body
                &&& buf.len() >= len + n
                &&& msg::member(m, "conn"@) == Some(Msg::Int(token as int))
                &&& msg::member(m, "method"@) == Some(Msg::Text(method))
                &&& msg::member(m, "path"@) == Some(Msg::Text(path))
                &&& msg::member(m, "body"@) == Some(
                    Msg::Binary(buf.subrange(len as int, (len + n) as int)),
                )
                &&& allow.len() > 0 ==> msg::member(m, "headers"@) == Some(
                    Msg::Table(admitted(hs, allow)),
                )
                &&& allow.len() == 0 ==> msg::member(m, "headers"@) is None
            },
        },
{
    a_request_says_what_it_is(
        token,
        method,
        path,
        buf.subrange(len as int, (len + n) as int),
        hs,
        allow,
    );
}

proof fn a_request_says_what_it_is(
    token: u32,
    method: Seq<char>,
    path: Seq<char>,
    body: Seq<u8>,
    hs: Seq<(Seq<char>, Seq<u8>)>,
    allow: Seq<Seq<char>>,
)
    ensures
        ({
            let m = request_msg(token, method, path, body, hs, allow);
            &&& msg::member(m, "conn"@) == Some(Msg::Int(token as int))
            &&& msg::member(m, "method"@) == Some(Msg::Text(method))
            &&& msg::member(m, "path"@) == Some(Msg::Text(path))
            &&& msg::member(m, "body"@) == Some(Msg::Binary(body))
            &&& allow.len() > 0 ==> msg::member(m, "headers"@) == Some(
                Msg::Table(admitted(hs, allow)),
            )
            &&& allow.len() == 0 ==> msg::member(m, "headers"@) is None
        }),
{
    reveal_strlit("conn");
    reveal_strlit("method");
    reveal_strlit("path");
    reveal_strlit("body");
    reveal_strlit("headers");
    assert("conn"@[0] != "method"@[0] && "conn"@[0] != "path"@[0] && "conn"@[0] != "body"@[0]
        && "conn"@[0] != "headers"@[0] && "method"@[0] != "path"@[0] && "method"@[0] != "body"@[0]
        && "method"@[0] != "headers"@[0] && "path"@[0] != "body"@[0] && "path"@[0]
        != "headers"@[0] && "body"@[0] != "headers"@[0]);
    let es = request_msg(token, method, path, body, hs, allow)->Table_0;
    assert(es[0].0 == Msg::Text("conn"@));
    assert(es[1].0 == Msg::Text("method"@));
    assert(es[2].0 == Msg::Text("path"@));
    assert(es[3].0 == Msg::Text("body"@));
    if allow.len() > 0 {
        assert(es[4].0 == Msg::Text("headers"@));
    }
    reveal_with_fuel(msg::seek, 6);
}

/// What the head alone decides: bytes that are no request are refused, and so
/// is a head that has no end within its room.
pub proof fn a_head_is_waited_for_within_its_room(
    buf: Seq<u8>,
    allow: Seq<Seq<char>>,
    max_body: nat,
    token: u32,
)
    ensures
        judged(HeadView::Malformed, buf, allow, max_body, token) == Judged::Refused(
            (400, "unparseable request\n"@),
        ),
        buf.len() <= 8192 ==> judged(HeadView::Partial, buf, allow, max_body, token) == (
        Judged::Incomplete { headers_done: false }),
        buf.len() > 8192 ==> judged(HeadView::Partial, buf, allow, max_body, token)
            == Judged::Refused((400, "headers past this host's room\n"@)),
{
}

/// The values of a header are gathered in their order: a header of another
/// name, or an empty one, adds nothing; the first value stands alone and each
/// other behind a comma.
pub proof fn values_are_gathered_in_order(
    hs: Seq<(Seq<char>, Seq<u8>)>,
    name: Seq<char>,
    one: (Seq<char>, Seq<u8>),
)
    ensures
        gathered(Seq::empty(), name) == Seq::<u8>::empty(),
        gathered(hs.push(one), name) == (if !text::same_folded(one.0, name) || one.1.len() == 0 {
            gathered(hs, name)
        } else if gathered(hs, name).len() == 0 {
            one.1
        } else {
            gathered(hs, name) + seq![44u8, 32u8] + one.1
        }),
{
    assert(hs.push(one).drop_last() =~= hs);
}

/// The program sees exactly the allowed headers that arrived, each under the
/// name on the list with the values gathered for it.
pub proof fn the_allowed_headers_are_seen(
    hs: Seq<(Seq<char>, Seq<u8>)>,
    allow: Seq<Seq<char>>,
    e: (Msg, Msg),
)
    ensures
        admitted(hs, allow).contains(e) <==> exists|k: int|
            0 <= k < allow.len() && gathered(hs, #[trigger] allow[k]).len() > 0 && e == (
                Msg::Text(allow[k]),
                bytes_msg(gathered(hs, allow[k])),
            ),
    decreases allow.len(),
{
    let all = admitted(hs, allow);
    if allow.len() > 0 {
        let less = allow.drop_last();
        let rest = admitted(hs, less);
        the_allowed_headers_are_seen(hs, less, e);
        let n = allow.len() - 1;
        assert(allow.last() == allow[n]);
        assert(forall|k: int| 0 <= k < n ==> (#[trigger] allow[k]) == less[k]);
        assert(forall|k: int| 0 <= k < n ==> allow[k] == (#[trigger] less[k]));
        if rest.contains(e) {
            let i = choose|i: int| 0 <= i < rest.len() && rest[i] == e;
            assert(all[i] == e);
        }
        if gathered(hs, allow[n]).len() > 0 {
            assert(all[rest.len() as int] == (
                Msg::Text(allow[n]),
                bytes_msg(gathered(hs, allow[n])),
            ));
        }
        if all.contains(e) {
            let i = choose|i: int| 0 <= i < all.len() && all[i] == e;
            if i < rest.len() {
                assert(rest[i] == e);
            } else {
                assert(gathered(hs, allow[n]).len() > 0);
            }
        }
    }
}

/// Bytes reach the program as the text that they encode, or as they are.
pub proof fn text_arrives_as_text(s: Seq<char>, b: Seq<u8>)
    ensures
        bytes_msg(vstd::utf8::encode_utf8(s)) == Msg::Text(s),
        !vstd::utf8::valid_utf8(b) ==> bytes_msg(b) == Msg::Binary(b),
{
    vstd::utf8::encode_utf8_valid_utf8(s);
    vstd::utf8::encode_utf8_decode_utf8(s);
}

/// A reply's status is the one that it states, from 100 to 599; one that
/// states none, or none of these, is answered as 200.
pub proof fn a_status_is_as_stated(m: Msg, s: int)
    ensures
        msg::member(m, "status"@) == Some(Msg::Int(s)) && 100 <= s <= 599 ==> status_in(m) == s,
        msg::member(m, "status"@) == Some(Msg::Int(s)) && !(100 <= s <= 599) ==> status_in(m)
            == 200,
        !(msg::member(m, "status"@) matches Some(Msg::Int(_))) ==> status_in(m) == 200,
{
}

/// A reply's body is the bytes that it holds, of a text or as they are, and
/// none where it holds none.
pub proof fn a_body_is_as_stated(m: Msg, s: Seq<char>, b: Seq<u8>)
    ensures
        msg::member(m, "body"@) == Some(Msg::Text(s)) ==> body_in(m)
            == vstd::utf8::encode_utf8(s),
        msg::member(m, "body"@) == Some(Msg::Binary(b)) ==> body_in(m) == b,
        msg::member(m, "body"@) is None ==> body_in(m).len() == 0,
{
}

/// A reply's content type is the one that it states where that is short and
/// clean, and plain bytes where it is not.
pub proof fn a_content_type_is_as_stated(m: Msg, s: Seq<char>)
    ensures
        msg::member(m, "content_type"@) == Some(Msg::Text(s)) ==> content_type_in(m) == (if
        vstd::utf8::encode_utf8(s).len() < 128 && is_clean(vstd::utf8::encode_utf8(s)) {
            s
        } else {
            "application/octet-stream"@
        }),
        msg::member(m, "content_type"@) is None ==> content_type_in(m)
            == "application/octet-stream"@,
{
    vstd::utf8::encode_utf8_valid_utf8(s);
    vstd::utf8::encode_utf8_decode_utf8(s);
}

/// A reply reaches the connection that it names.
pub proof fn a_reply_names_its_connection(m: Msg, token: u32)
    ensures
        msg::member(m, "conn"@) == Some(Msg::Int(token as int)) ==> token_in(m) == token,
        msg::member(m, "conn"@) is None ==> token_in(m) == 0,
{
}

proof fn slot_is_first(allow: Seq<Seq<char>>, name: Seq<char>, from: int, k: int)
    requires
        0 <= from <= k < allow.len(),
        text::same_folded(allow[k], name),
        forall|i: int| from <= i < k ==> !text::same_folded(#[trigger] allow[i], name),
    ensures
        slot_of(allow, name, from) == Some(k),
    decreases k - from,
{
    if from < k {
        slot_is_first(allow, name, from + 1, k);
    }
}

proof fn kept_has(es: Seq<(Msg, Msg)>, allow: Seq<Seq<char>>, n: int, k: int)
    requires
        0 <= k < n <= allow.len(),
        chosen(es, allow, k) is Some,
        vstd::utf8::valid_utf8(chosen(es, allow, k)->0),
    ensures
        kept(es, allow, n).contains(
            (allow[k], vstd::utf8::decode_utf8(chosen(es, allow, k)->0)),
        ),
    decreases n,
{
    let e = (allow[k], vstd::utf8::decode_utf8(chosen(es, allow, k)->0));
    let rest = kept(es, allow, n - 1);
    let all = kept(es, allow, n);
    if k < n - 1 {
        kept_has(es, allow, n - 1, k);
        let i = choose|i: int| 0 <= i < rest.len() && rest[i] == e;
        assert(all[i] == e);
    } else {
        assert(all[rest.len() as int] == e);
    }
}

/// An allowed header that a reply gives last, of clean text within bounds,
/// goes out with its value under the name on the list, and whatever the reply
/// gave that header before does not count.
pub proof fn an_allowed_header_goes_out(
    es: Seq<(Msg, Msg)>,
    allow: Seq<Seq<char>>,
    name: Seq<char>,
    value: Seq<char>,
    k: int,
)
    requires
        0 <= k < allow.len(),
        text::same_folded(allow[k], name),
        forall|i: int| 0 <= i < k ==> !text::same_folded(#[trigger] allow[i], name),
        vstd::utf8::encode_utf8(value).len() <= 4096,
        is_clean(vstd::utf8::encode_utf8(value)),
    ensures
        chosen(es.push((Msg::Text(name), Msg::Text(value))), allow, k) == Some(
            vstd::utf8::encode_utf8(value),
        ),
        kept(
            es.push((Msg::Text(name), Msg::Text(value))),
            allow,
            allow.len() as int,
        ).contains((allow[k], value)),
{
    vstd::utf8::encode_utf8_valid_utf8(value);
    vstd::utf8::encode_utf8_decode_utf8(value);
    slot_is_first(allow, name, 0, k);
    let all = es.push((Msg::Text(name), Msg::Text(value)));
    assert(all.last() == (Msg::Text(name), Msg::Text(value)));
    assert(chosen(all, allow, k) == Some(vstd::utf8::encode_utf8(value)));
    kept_has(all, allow, allow.len() as int, k);
}

proof fn slot_is_of_its_name(allow: Seq<Seq<char>>, name: Seq<char>, from: int)
    requires
        0 <= from,
    ensures
        slot_of(allow, name, from) matches Some(k) ==> from <= k < allow.len()
            && text::same_folded(allow[k], name),
    decreases allow.len() - from,
{
    if from < allow.len() {
        slot_is_of_its_name(allow, name, from + 1);
    }
}

/// Each header that goes out was given by the reply, for that name and with
/// that value, and at most one goes out for each name on the list.
pub proof fn a_header_that_goes_out_was_given(
    es: Seq<(Msg, Msg)>,
    allow: Seq<Seq<char>>,
    slot: int,
)
    ensures
        chosen(es, allow, slot) matches Some(b) ==> exists|i: int|
            0 <= i < es.len() && ((#[trigger] es[i]).0 matches Msg::Text(name)
                && text::same_folded(allow[slot], name)) && msg::as_bytes(Some(es[i].1)) == Some(b),
        kept(es, allow, allow.len() as int).len() <= allow.len(),
    decreases es.len(),
{
    kept_is_short(es, allow, allow.len() as int);
    if es.len() > 0 {
        let rest = es.drop_last();
        a_header_that_goes_out_was_given(rest, allow, slot);
        if let Some(b) = chosen(es, allow, slot) {
            if offered(es.last(), allow, slot) is Some {
                slot_is_of_its_name(allow, es.last().0->Text_0, 0);
                assert(es[es.len() - 1].0 is Text);
            } else {
                let i = choose|i: int|
                    0 <= i < rest.len() && ((#[trigger] rest[i]).0 matches Msg::Text(name)
                        && text::same_folded(allow[slot], name)) && msg::as_bytes(Some(rest[i].1))
                        == Some(b);
                assert(es[i] == rest[i]);
            }
        }
    }
}

proof fn kept_is_short(es: Seq<(Msg, Msg)>, allow: Seq<Seq<char>>, n: int)
    requires
        0 <= n,
    ensures
        kept(es, allow, n).len() <= n,
    decreases n,
{
    if n > 0 {
        kept_is_short(es, allow, n - 1);
    }
}

/// A response says its status and its length, one line for each header, and
/// then the body as it is.
pub proof fn a_response_ends_in_its_body(
    status: u16,
    content_type: Seq<char>,
    hs: Seq<(Seq<char>, Seq<char>)>,
    one: (Seq<char>, Seq<char>),
    body: Seq<u8>,
)
    ensures
        ({
            let head = response_head(status, content_type, hs, body.len());
            &&& response(status, content_type, hs, body) == vstd::utf8::encode_utf8(head) + body
            &&& text::begins(head, "HTTP/1.1 "@ + text::dec(status as nat) + " "@)
            &&& text::ends(
                head,
                "Content-Length: "@ + text::dec(body.len()) + "\r\nConnection: close\r\n\r\n"@,
            )
        }),
        header_lines(hs.push(one)) == header_lines(hs) + one.0 + ": "@ + one.1 + "\r\n"@,
        header_lines(Seq::empty()) == Seq::<char>::empty(),
{
    assert(hs.push(one).drop_last() =~= hs);
    let head = response_head(status, content_type, hs, body.len());
    let front = "HTTP/1.1 "@ + text::dec(status as nat) + " "@;
    let back = "Content-Length: "@ + text::dec(body.len()) + "\r\nConnection: close\r\n\r\n"@;
    assert(head.subrange(0, front.len() as int) =~= front);
    assert(head.subrange(head.len() - back.len(), head.len() as int) =~= back);
}

/// Each status that the runtime itself gives has its own phrase.
pub proof fn a_status_has_its_phrase(status: u16)
    ensures
        reason(200) == "OK"@,
        reason(201) == "Created"@,
        reason(204) == "No Content"@,
        reason(400) == "Bad Request"@,
        reason(404) == "Not Found"@,
        reason(413) == "Content Too Large"@,
        reason(431) == "Request Header Fields Too Large"@,
        reason(500) == "Internal Server Error"@,
        reason(503) == "Service Unavailable"@,
        reason(504) == "Gateway Timeout"@,
        reason(status) == "Status"@ || set![
            200u16,
            201u16,
            204u16,
            400u16,
            404u16,
            413u16,
            431u16,
            500u16,
            503u16,
            504u16,
        ].contains(status),
{
}

/// A value of a header holds at most 4096 bytes, in either direction, and none
/// of them is a control character.
pub proof fn a_header_value_is_short_and_clean(
    b: Seq<u8>,
    hs: Seq<(Seq<char>, Seq<u8>)>,
    allow: Seq<Seq<char>>,
)
    ensures
        is_header_value(b) <==> b.len() <= 4096 && forall|i: int|
            0 <= i < b.len() ==> (#[trigger] b[i]) >= 32 && b[i] != 127,
        oversized(hs, allow) <==> exists|k: int|
            0 <= k < allow.len() && gathered(hs, #[trigger] allow[k]).len() > 4096,
        is_content_type(b) <==> b.len() < 128 && vstd::utf8::valid_utf8(b) && forall|i: int|
            0 <= i < b.len() ==> (#[trigger] b[i]) >= 32 && b[i] != 127,
{
}

/// What a listener bounds by itself, and what it says where it gives no
/// program's answer.
pub proof fn what_a_listener_says_by_itself()
    ensures
        MAX_ALLOWED == 16,
        POLL_TICK_MS == 1,
        CAP_TEXT@ == "the listener is at its connection cap\n"@,
        DOWN_TEXT@ == "the deployment is shutting down\n"@,
        LATE_TEXT@ == "the program did not answer within the deadline\n"@,
{
}

/// What came of a request goes out as it is: a reply with its own status,
/// type, headers and body, a refusal with its status and text.
pub proof fn an_outcome_goes_out_as_it_is(
    status: u16,
    content_type: String,
    headers: Vec<(String, String)>,
    body: Vec<u8>,
    said: &'static str,
    idx: nat,
)
    ensures
        outcome_wire(Outcome::Reply { status, content_type, headers, body }) == response(
            status,
            content_type@,
            text_pairs(headers@),
            body@,
        ),
        outcome_wire(Outcome::Refused { status, text: said }) == refusal(status, said@),
        allowlist_refusal(idx) == "listener "@ + text::dec(idx)
            + " allowlists more than 16 headers in one direction; the bound is the C host's, and a list that long is a sign the boundary is dissolving"@,
        scheme_refusal(idx, said@) == "listener "@ + text::dec(idx) + " speaks '"@ + said@
            + "', and only 'http' is served today ('ssh' lands with the control endpoint)"@,
{
}

} // verus!
