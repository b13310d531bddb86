//! Asking an edge: the URL, the request, and what the answer comes to.

use crate::addr::{IpAddr, SocketAddr};
use crate::text;
use vstd::prelude::*;

verus! {

/// The most that is read of an answer.
pub const MAX_BODY: usize = 65_536;

/// How long an edge has to answer, in seconds.
pub const TIMEOUT_SECS: u64 = 10;

// ---- the URL ----

/// What a URL is: whether it asks for TLS, the host, the port and the path.
#[verifier::ext_equal]
pub struct UrlView {
    pub tls: bool,
    pub host: Seq<char>,
    pub port: u16,
    pub path: Seq<char>,
}

/// A URL in its parts.
#[derive(Debug)]
pub struct Url {
    pub tls: bool,
    pub host: String,
    pub port: u16,
    pub path: String,
}

impl Url {
    /// The URL, as mathematics.
    pub open spec fn view(&self) -> UrlView {
        UrlView { tls: self.tls, host: self.host@, port: self.port, path: self.path@ }
    }
}

/// The scheme of a URL, and what stands behind it.
pub open spec fn scheme_of(url: Seq<char>) -> Option<(bool, Seq<char>)> {
    match text::without(url, "https://"@) {
        Some(rest) => Some((true, rest)),
        None => match text::without(url, "http://"@) {
            Some(rest) => Some((false, rest)),
            None => None,
        },
    }
}

/// The host and the port in an authority: what stands behind the last colon
/// is the port where it is all digits.
pub open spec fn host_of(authority: Seq<char>, tls: bool) -> Result<(Seq<char>, u16), Seq<char>> {
    let standard: u16 = if tls {
        443
    } else {
        80
    };
    match text::rsplit_once(authority, ':') {
        Some((h, p)) => if p.len() > 0 && text::digits(p) {
            match text::number(p, u16::MAX as nat) {
                Some(n) => Ok((h, n as u16)),
                None => Err("bad port"@),
            }
        } else {
            Ok((authority, standard))
        },
        None => Ok((authority, standard)),
    }
}

/// The parts of a URL, or why it has none.
pub open spec fn url_in(url: Seq<char>) -> Result<UrlView, Seq<char>> {
    match scheme_of(url) {
        None => Err("not an http or https url"@),
        Some((tls, rest)) => {
            let (authority, path) = match text::split_once(rest, '/') {
                Some((a, p)) => (a, "/"@ + p),
                None => (rest, "/"@),
            };
            match host_of(authority, tls) {
                Err(why) => Err(why),
                Ok((host, port)) => if host.len() == 0 {
                    Err("no host in the url"@)
                } else {
                    Ok(UrlView { tls, host, port, path })
                },
            }
        },
    }
}

fn only_digits(s: &str) -> (r: bool)
    ensures
        r == (s@.len() > 0 && text::digits(s@)),
{
    let cs = text::chars(s);
    if cs.len() == 0 {
        return false;
    }
    let mut i: usize = 0;
    while i < cs.len()
        invariant
            i <= cs.len(),
            cs@ == s@,
            forall|k: int| 0 <= k < i ==> text::is_digit(#[trigger] s@[k]),
        decreases cs.len() - i,
    {
        if !('0' <= cs[i] && cs[i] <= '9') {
            assert(!text::is_digit(s@[i as int]));
            return false;
        }
        i = i + 1;
    }
    true
}

/// Takes a URL apart.
pub fn split(url: &str) -> (r: Result<Url, String>)
    ensures
        match url_in(url@) {
            Ok(v) => r matches Ok(u) && u@ == v,
            Err(what) => r matches Err(why) && why@ == what,
        },
{
    let (tls, rest): (bool, String) = match text::strip(url, "https://") {
        Some(rest) => (true, rest),
        None => match text::strip(url, "http://") {
            Some(rest) => (false, rest),
            None => return Err("not an http or https url".to_owned()),
        },
    };
    let (authority, path): (String, String) = match text::cut_at_first(rest.as_str(), '/') {
        Some((a, p)) => (a, text::join2("/", p.as_str())),
        None => (rest, "/".to_owned()),
    };
    let standard: u16 = if tls {
        443
    } else {
        80
    };
    let (host, port): (String, u16) = match text::cut_at_last(authority.as_str(), ':') {
        Some((h, p)) => {
            if only_digits(p.as_str()) {
                match text::parse(p.as_str(), u16::MAX as u64) {
                    Some(n) => (h, n as u16),
                    None => return Err("bad port".to_owned()),
                }
            } else {
                (authority, standard)
            }
        },
        None => (authority, standard),
    };
    if host.as_str().is_empty() {
        return Err("no host in the url".to_owned());
    }
    Ok(Url { tls, host, port, path })
}

/// The addresses of a URL's host, given what looking its name up came to. A
/// name that gives none is refused.
pub fn addresses(url: &str, found: Result<Vec<SocketAddr>, String>) -> (r: Result<
    Vec<SocketAddr>,
    String,
>)
    ensures
        match url_in(url@) {
            Err(what) => r matches Err(why) && why@ == what,
            Ok(u) => match found {
                Err(e) => r matches Err(why) && why@ == "dns: "@ + e@,
                Ok(v) => if v@.len() == 0 {
                    r matches Err(why) && why@ == "dns: '"@ + u.host + "' resolved to nothing"@
                } else {
                    r == Ok::<Vec<SocketAddr>, String>(v)
                },
            },
        },
{
    let u = match split(url) {
        Ok(u) => u,
        Err(why) => return Err(why),
    };
    match found {
        Err(e) => Err(text::join2("dns: ", e.as_str())),
        Ok(v) => if v.len() == 0 {
            Err(text::join3("dns: '", u.host.as_str(), "' resolved to nothing"))
        } else {
            Ok(v)
        },
    }
}

/// The addresses that were named for a URL, each with the URL's port. Each
/// is the address as it was written, and as it reads.
pub fn addresses_at(url: &str, at: &Vec<(String, Option<IpAddr>)>) -> (r: Result<
    Vec<SocketAddr>,
    String,
>)
    ensures
        match url_in(url@) {
            Err(what) => r matches Err(why) && why@ == what,
            Ok(u) => match unread(at@, 0) {
                Some(i) => r matches Err(why) && why@ == "'"@ + at@[i].0@ + "' is not an address"@,
                None => r matches Ok(v) && v@.len() == at@.len() && forall|i: int|
                    0 <= i < v@.len() ==> (#[trigger] v@[i]) == (SocketAddr {
                        ip: at@[i].1->0,
                        port: u.port,
                    }),
            },
        },
{
    let u = match split(url) {
        Ok(u) => u,
        Err(why) => return Err(why),
    };
    let mut v: Vec<SocketAddr> = Vec::new();
    let mut i: usize = 0;
    while i < at.len()
        invariant
            i <= at.len(),
            url_in(url@) == Ok::<UrlView, Seq<char>>(u@),
            unread(at@, 0) == unread(at@, i as int),
            v@.len() == i,
            forall|k: int|
                0 <= k < i ==> (#[trigger] v@[k]) == (SocketAddr {
                    ip: at@[k].1->0,
                    port: u.port,
                }),
        decreases at.len() - i,
    {
        match at[i].1 {
            Some(ip) => {
                v.push(SocketAddr { ip, port: u.port });
            },
            None => return Err(text::join3("'", at[i].0.as_str(), "' is not an address")),
        }
        i = i + 1;
    }
    Ok(v)
}

/// The first of the named addresses, from `i` on, that does not read.
pub open spec fn unread(at: Seq<(String, Option<IpAddr>)>, i: int) -> Option<int>
    decreases at.len() - i,
{
    if i < 0 || i >= at.len() {
        None
    } else if at[i].1 is None {
        Some(i)
    } else {
        unread(at, i + 1)
    }
}

/// The request for a URL.
pub open spec fn request_text(u: UrlView) -> Seq<char> {
    "GET "@ + u.path + " HTTP/1.1\r\nhost: "@ + u.host
        + "\r\nuser-agent: drt-netcheck\r\naccept: application/json\r\nconnection: close\r\n\r\n"@
}

/// The request for a URL.
pub fn request(u: &Url) -> (r: String)
    ensures
        r@ == request_text(u@),
{
    text::join5(
        "GET ",
        u.path.as_str(),
        " HTTP/1.1\r\nhost: ",
        u.host.as_str(),
        "\r\nuser-agent: drt-netcheck\r\naccept: application/json\r\nconnection: close\r\n\r\n",
    )
}

/// Whether a text is a name that `rustls` can check a certificate against.
pub uninterp spec fn is_server_name(host: Seq<char>) -> bool;

/// `ServerName::try_from` on a host: whether it takes it depends on the text
/// alone.
#[verifier::external_body]
fn names_a_server(host: &str) -> (r: bool)
    ensures
        r == is_server_name(host@),
{
    tokio_rustls::rustls::pki_types::ServerName::try_from(host).is_ok()
}

/// Tells whether the certificate of the edge can be checked, where the URL
/// asks for TLS.
pub fn checkable(u: &Url) -> (r: Result<(), String>)
    ensures
        r is Ok <==> !u.tls || is_server_name(u.host@),
        r matches Err(why) ==> why@
            == "the url's host is not a name a certificate can be checked against"@,
{
    if u.tls && !names_a_server(u.host.as_str()) {
        Err("the url's host is not a name a certificate can be checked against".to_owned())
    } else {
        Ok(())
    }
}

// ---- the answer ----

/// The first place of a pair of bytes, from `i` on.
pub open spec fn crlf(raw: Seq<u8>, i: int) -> Option<int>
    decreases raw.len() - i,
{
    if i < 0 || i + 1 >= raw.len() {
        None
    } else if raw[i] == 13 && raw[i + 1] == 10 {
        Some(i)
    } else {
        crlf(raw, i + 1)
    }
}

/// Where the pair stands, both bytes are there, and nothing before is such
/// a pair.
pub proof fn crlf_is_inside(raw: Seq<u8>, from: int)
    requires
        0 <= from,
    ensures
        crlf(raw, from) matches Some(i) ==> from <= i && i + 2 <= raw.len() && raw[i] == 13
            && raw[i + 1] == 10 && forall|k: int|
            from <= k < i ==> !((#[trigger] raw[k]) == 13 && raw[k + 1] == 10),
    decreases raw.len() - from,
{
    if from + 1 < raw.len() && !(raw[from] == 13 && raw[from + 1] == 10) {
        crlf_is_inside(raw, from + 1);
    }
}

fn find_crlf(raw: &[u8]) -> (r: Option<usize>)
    ensures
        r is Some <==> crlf(raw@, 0) is Some,
        r matches Some(i) ==> crlf(raw@, 0) == Some(i as int) && i + 2 <= raw@.len(),
{
    let mut i: usize = 0;
    while i < raw.len() && raw.len() - i >= 2
        invariant
            i <= raw.len(),
            crlf(raw@, 0) == crlf(raw@, i as int),
        decreases raw.len() - i,
    {
        if raw[i] == 13 && raw[i + 1] == 10 {
            return Some(i);
        }
        i = i + 1;
    }
    None
}

/// The first place of the empty line that ends a head, from `i` on.
pub open spec fn head_end(raw: Seq<u8>, i: int) -> Option<int>
    decreases raw.len() - i,
{
    if i < 0 || i + 3 >= raw.len() {
        None
    } else if raw[i] == 13 && raw[i + 1] == 10 && raw[i + 2] == 13 && raw[i + 3] == 10 {
        Some(i)
    } else {
        head_end(raw, i + 1)
    }
}

fn find_head_end(raw: &[u8]) -> (r: Option<usize>)
    ensures
        r is Some <==> head_end(raw@, 0) is Some,
        r matches Some(i) ==> head_end(raw@, 0) == Some(i as int) && i + 4 <= raw@.len(),
{
    let mut i: usize = 0;
    while i < raw.len() && raw.len() - i >= 4
        invariant
            i <= raw.len(),
            head_end(raw@, 0) == head_end(raw@, i as int),
        decreases raw.len() - i,
    {
        if raw[i] == 13 && raw[i + 1] == 10 && raw[i + 2] == 13 && raw[i + 3] == 10 {
            return Some(i);
        }
        i = i + 1;
    }
    None
}

/// The value of a hexadecimal digit.
pub open spec fn hex_value(c: char) -> Option<nat> {
    if '0' <= c && c <= '9' {
        Some((c as nat - 48) as nat)
    } else if 'a' <= c && c <= 'f' {
        Some((c as nat - 87) as nat)
    } else if 'A' <= c && c <= 'F' {
        Some((c as nat - 55) as nat)
    } else {
        None
    }
}

/// The number that hexadecimal digits write, from place `i` on, with `acc`
/// read so far; `None` where one is no digit or the number is past `usize`.
pub open spec fn hex_from(s: Seq<char>, i: int, acc: nat) -> Option<nat>
    decreases s.len() - i,
{
    if i < 0 || i >= s.len() {
        Some(acc)
    } else {
        match hex_value(s[i]) {
            None => None,
            Some(d) => if acc * 16 + d > usize::MAX {
                None
            } else {
                hex_from(s, i + 1, acc * 16 + d)
            },
        }
    }
}

/// A size in hexadecimal, behind an optional plus sign.
pub open spec fn hex_number(s: Seq<char>) -> Option<nat> {
    let d = text::unsigned_part(s);
    if d.len() == 0 {
        None
    } else {
        hex_from(d, 0, 0)
    }
}

fn read_digit(c: char) -> (r: Option<usize>)
    ensures
        match hex_value(c) {
            Some(d) => r matches Some(n) && n == d && d < 16,
            None => r is None,
        },
{
    let n: u32 = c as u32;
    if '0' <= c && c <= '9' {
        Some((n - 48) as usize)
    } else if 'a' <= c && c <= 'f' {
        Some((n - 87) as usize)
    } else if 'A' <= c && c <= 'F' {
        Some((n - 55) as usize)
    } else {
        None
    }
}

fn read_hex(s: &str) -> (r: Option<usize>)
    ensures
        match hex_number(s@) {
            Some(n) => r matches Some(m) && m == n,
            None => r is None,
        },
{
    let cs = text::chars(s);
    let from: usize = if cs.len() > 0 && cs[0] == '+' {
        1
    } else {
        0
    };
    let ghost d = text::unsigned_part(s@);
    assert(d =~= s@.subrange(from as int, s@.len() as int));
    if from == cs.len() {
        return None;
    }
    let mut acc: usize = 0;
    let mut i: usize = from;
    while i < cs.len()
        invariant
            from <= i <= cs.len(),
            from < cs.len(),
            cs@ == s@,
            d == text::unsigned_part(s@),
            d == s@.subrange(from as int, s@.len() as int),
            hex_number(s@) == hex_from(d, i - from, acc as nat),
        decreases cs.len() - i,
    {
        assert(d[i - from] == cs@[i as int]);
        match read_digit(cs[i]) {
            None => return None,
            Some(v) => match acc.checked_mul(16) {
                None => return None,
                Some(m) => match m.checked_add(v) {
                    None => return None,
                    Some(next) => {
                        acc = next;
                    },
                },
            },
        }
        i = i + 1;
    }
    Some(acc)
}

/// The size that a chunk's header states: what stands before a semicolon,
/// as a number in hexadecimal.
pub open spec fn chunk_size(head: Seq<u8>) -> Option<nat> {
    let t = size_text(head);
    if vstd::utf8::valid_utf8(t) {
        hex_number(text::trimmed(vstd::utf8::decode_utf8(t)))
    } else {
        None
    }
}

/// The first place of a semicolon, from `i` on.
pub open spec fn semicolon(head: Seq<u8>, i: int) -> Option<int>
    decreases head.len() - i,
{
    if i < 0 || i >= head.len() {
        None
    } else if head[i] == 59 {
        Some(i)
    } else {
        semicolon(head, i + 1)
    }
}

/// What stands before the semicolon of a chunk's header.
pub open spec fn size_text(head: Seq<u8>) -> Seq<u8> {
    match semicolon(head, 0) {
        Some(i) => head.subrange(0, i),
        None => head,
    }
}

fn read_chunk_size(head: &[u8]) -> (r: Option<usize>)
    ensures
        match chunk_size(head@) {
            Some(n) => r matches Some(m) && m == n,
            None => r is None,
        },
{
    let mut i: usize = 0;
    while i < head.len() && head[i] != 59
        invariant
            i <= head.len(),
            semicolon(head@, 0) == semicolon(head@, i as int),
        decreases head.len() - i,
    {
        i = i + 1;
    }
    let t = vstd::slice::slice_subrange(head, 0, i);
    assert(t@ == size_text(head@)) by {
        if i == head@.len() {
            assert(head@.subrange(0, i as int) =~= head@);
        }
    }
    match text::utf8(t) {
        None => None,
        Some(s) => {
            proof {
                vstd::utf8::encode_utf8_decode_utf8(s@);
            }
            read_hex(text::trim(s.as_str()).as_str())
        },
    }
}

/// The bytes in chunks, with `out` read so far. Strict: a frame that cannot
/// be read is an error.
pub open spec fn dechunked(raw: Seq<u8>, out: Seq<u8>) -> Result<Seq<u8>, Seq<char>>
    decreases raw.len(),
{
    match crlf(raw, 0) {
        None => Err("chunked: a chunk header never ended"@),
        Some(at) => match chunk_size(raw.subrange(0, at)) {
            None => Err("chunked: not a chunk size"@),
            Some(size) => {
                let rest = raw.subrange(at + 2, raw.len() as int);
                if size == 0 {
                    Ok(out)
                } else if out.len() + size > MAX_BODY || rest.len() < size + 2 {
                    Err("chunked: a chunk was shorter than its size"@)
                } else {
                    proof {
                        crlf_is_inside(raw, 0);
                    }
                    dechunked(
                        rest.subrange((size + 2) as int, rest.len() as int),
                        out + rest.subrange(0, size as int),
                    )
                }
            },
        },
    }
}

/// Puts the chunks of a body together.
pub fn dechunk(raw: &[u8]) -> (r: Result<Vec<u8>, String>)
    ensures
        match dechunked(raw@, Seq::empty()) {
            Ok(b) => r matches Ok(v) && v@ == b,
            Err(what) => r matches Err(why) && why@ == what,
        },
{
    let mut out: Vec<u8> = Vec::new();
    let mut left: usize = 0;
    let ghost want = dechunked(raw@, Seq::empty());
    assert(raw@.subrange(0, raw@.len() as int) =~= raw@);
    loop
        invariant
            left <= raw.len(),
            out.len() <= MAX_BODY,
            want == dechunked(raw@, Seq::empty()),
            want == dechunked(raw@.subrange(left as int, raw@.len() as int), out@),
        decreases raw.len() - left,
    {
        let now = vstd::slice::slice_subrange(raw, left, raw.len());
        let at: usize = match find_crlf(now) {
            None => return Err("chunked: a chunk header never ended".to_owned()),
            Some(i) => i,
        };
        let size: usize = match read_chunk_size(vstd::slice::slice_subrange(now, 0, at)) {
            None => return Err("chunked: not a chunk size".to_owned()),
            Some(n) => n,
        };
        if size == 0 {
            return Ok(out);
        }
        let rest_len: usize = now.len() - at - 2;
        if size > MAX_BODY - out.len() || rest_len < 2 || rest_len - 2 < size {
            return Err("chunked: a chunk was shorter than its size".to_owned());
        }
        let ghost had = out@;
        let ghost tail = now@.subrange(at + 2, now@.len() as int);
        out.extend_from_slice(vstd::slice::slice_subrange(now, at + 2, at + 2 + size));
        proof {
            assert(tail.subrange(0, size as int) =~= now@.subrange(at + 2, at + 2 + size));
            assert(out@ =~= had + tail.subrange(0, size as int));
            assert(tail.subrange(size + 2, tail.len() as int) =~= raw@.subrange(
                left + at + 2 + size + 2,
                raw@.len() as int,
            ));
        }
        left = left + at + 2 + size + 2;
    }
}

/// The status in the first line of a head.
pub open spec fn status_in(lines: Seq<Seq<char>>) -> Option<nat> {
    if lines.len() == 0 {
        None
    } else {
        match text::second_word(lines[0]) {
            Some(w) => text::number(w, u16::MAX as nat),
            None => None,
        }
    }
}

/// Whether a header line says that the body is in chunks.
pub open spec fn says_chunked(line: Seq<char>) -> bool {
    match text::split_once(line, ':') {
        Some((n, v)) => text::same_folded(text::trimmed(n), "transfer-encoding"@)
            && text::contains(text::folded(v), "chunked"@),
        None => false,
    }
}

/// Whether the header lines, from line `i` on, say that the body is in
/// chunks.
pub open spec fn is_chunked(lines: Seq<Seq<char>>, i: int) -> bool
    decreases lines.len() - i,
{
    if i < 0 || i >= lines.len() {
        false
    } else {
        says_chunked(lines[i]) || is_chunked(lines, i + 1)
    }
}

/// What the lines of a head allow: whether the body is in chunks, or why the
/// answer is none.
pub open spec fn head_in(lines: Seq<Seq<char>>) -> Result<bool, Seq<char>> {
    match status_in(lines) {
        None => Err("the edge answered something that is not a response"@),
        Some(s) => if s == 429 {
            Err("rate limited by the edge"@)
        } else if !(200 <= s < 300) {
            Err("the edge answered "@ + text::dec(s))
        } else {
            Ok(is_chunked(lines, 1))
        },
    }
}

/// Reads the lines of a head.
pub fn read_head(lines: &Vec<String>) -> (r: Result<bool, String>)
    ensures
        match head_in(text::texts(lines@)) {
            Ok(c) => r matches Ok(b) && b == c,
            Err(what) => r matches Err(why) && why@ == what,
        },
{
    let ghost all = text::texts(lines@);
    if lines.len() == 0 {
        return Err("the edge answered something that is not a response".to_owned());
    }
    assert(all[0] == lines@[0]@);
    let status: u64 = match text::word_two(lines[0].as_str()) {
        None => return Err("the edge answered something that is not a response".to_owned()),
        Some(w) => match text::parse(w.as_str(), u16::MAX as u64) {
            None => return Err("the edge answered something that is not a response".to_owned()),
            Some(n) => n,
        },
    };
    if status == 429 {
        return Err("rate limited by the edge".to_owned());
    }
    if !(200 <= status && status < 300) {
        return Err(text::join2("the edge answered ", text::decimal(status).as_str()));
    }
    let mut i: usize = 1;
    while i < lines.len()
        invariant
            1 <= i <= lines.len(),
            all == text::texts(lines@),
            is_chunked(all, 1) == is_chunked(all, i as int),
            head_in(all) == Ok::<bool, Seq<char>>(is_chunked(all, 1)),
        decreases lines.len() - i,
    {
        assert(all[i as int] == lines@[i as int]@);
        if let Some((n, v)) = text::cut_at_first(lines[i].as_str(), ':') {
            if text::same_ignoring_case(text::trim(n.as_str()).as_str(), "transfer-encoding")
                && text::holds(text::fold(v.as_str()).as_str(), "chunked") {
                return Ok(true);
            }
        }
        i = i + 1;
    }
    Ok(false)
}

/// The text of a body.
pub open spec fn body_in(raw: Seq<u8>, chunked: bool) -> Result<Seq<char>, Seq<char>> {
    let whole = if chunked {
        dechunked(raw, Seq::empty())
    } else {
        Ok(raw)
    };
    match whole {
        Err(why) => Err(why),
        Ok(b) => if vstd::utf8::valid_utf8(b) {
            Ok(vstd::utf8::decode_utf8(b))
        } else {
            Err("the edge answered bytes that are not text"@)
        },
    }
}

/// The body of an answer, or why there is none.
pub open spec fn answer_in(buf: Seq<u8>) -> Result<Seq<char>, Seq<char>> {
    if buf.len() > MAX_BODY {
        Err("the edge answered more than this reads"@)
    } else {
        match head_end(buf, 0) {
            None => Err("the response head never completed"@),
            Some(at) => match head_in(text::lines_of(text::lossy(buf.subrange(0, at)))) {
                Err(why) => Err(why),
                Ok(chunked) => body_in(buf.subrange(at + 4, buf.len() as int), chunked),
            },
        }
    }
}

/// Reads the text of a body.
pub fn read_body(raw: &[u8], chunked: bool) -> (r: Result<String, String>)
    ensures
        match body_in(raw@, chunked) {
            Ok(s) => r matches Ok(t) && t@ == s,
            Err(what) => r matches Err(why) && why@ == what,
        },
{
    let body: Vec<u8> = if chunked {
        match dechunk(raw) {
            Ok(b) => b,
            Err(why) => return Err(why),
        }
    } else {
        vstd::slice::slice_to_vec(raw)
    };
    match text::utf8(body.as_slice()) {
        Some(s) => {
            proof {
                vstd::utf8::encode_utf8_decode_utf8(s@);
            }
            Ok(s)
        },
        None => Err("the edge answered bytes that are not text".to_owned()),
    }
}

/// Reads the answer in everything that an edge sent.
pub fn answer(buf: &[u8]) -> (r: Result<String, String>)
    ensures
        match answer_in(buf@) {
            Ok(s) => r matches Ok(t) && t@ == s,
            Err(what) => r matches Err(why) && why@ == what,
        },
{
    if buf.len() > MAX_BODY {
        return Err("the edge answered more than this reads".to_owned());
    }
    let at: usize = match find_head_end(buf) {
        None => return Err("the response head never completed".to_owned()),
        Some(i) => i,
    };
    let head = text::read_lossy(vstd::slice::slice_subrange(buf, 0, at));
    let lines = text::lines(head.as_str());
    match read_head(&lines) {
        Err(why) => Err(why),
        Ok(chunked) => read_body(
            vstd::slice::slice_subrange(buf, at + 4, buf.len()),
            chunked,
        ),
    }
}

/// What asking an edge came to: the text of its answer and the port that the
/// request left from. `heard` is everything that the edge sent and that port,
/// or what went wrong first, or `None` once the time was up.
pub fn get(heard: Option<Result<(Vec<u8>, u16), String>>) -> (r: Result<(String, u16), String>)
    ensures
        match heard {
            None => r matches Err(why) && why@ == "no answer within "@ + text::dec(
                TIMEOUT_SECS as nat,
            ) + "s"@,
            Some(Err(e)) => r matches Err(why) && why@ == e@,
            Some(Ok((buf, port))) => match answer_in(buf@) {
                Ok(s) => r matches Ok(t) && t.0@ == s && t.1 == port,
                Err(what) => r matches Err(why) && why@ == what,
            },
        },
{
    match heard {
        None => {
            let secs = text::decimal(TIMEOUT_SECS);
            Err(text::join3("no answer within ", secs.as_str(), "s"))
        },
        Some(Err(e)) => Err(e),
        Some(Ok((buf, port))) => match answer(buf.as_slice()) {
            Ok(body) => Ok((body, port)),
            Err(why) => Err(why),
        },
    }
}

// ---- laws ----

/// What is put together from chunks is never more than is read.
pub proof fn chunks_stay_bounded(raw: Seq<u8>, out: Seq<u8>)
    requires
        out.len() <= MAX_BODY,
    ensures
        dechunked(raw, out) matches Ok(b) ==> b.len() <= MAX_BODY,
    decreases raw.len(),
{
    if let Some(at) = crlf(raw, 0) {
        crlf_is_inside(raw, 0);
        if let Some(size) = chunk_size(raw.subrange(0, at)) {
            let rest = raw.subrange(at + 2, raw.len() as int);
            if size != 0 && out.len() + size <= MAX_BODY && rest.len() >= size + 2 {
                chunks_stay_bounded(
                    rest.subrange((size + 2) as int, rest.len() as int),
                    out + rest.subrange(0, size as int),
                );
            }
        }
    }
}

/// A number in hexadecimal, in small letters.
pub open spec fn hex(n: nat) -> Seq<u8>
    decreases n,
{
    if n < 16 {
        seq![hex_byte(n)]
    } else {
        hex(n / 16).push(hex_byte(n % 16))
    }
}

/// The byte of a hexadecimal digit.
pub open spec fn hex_byte(d: nat) -> u8 {
    if d < 10 {
        (48 + d) as u8
    } else {
        (87 + d) as u8
    }
}

/// One chunk: its size, and its bytes.
pub open spec fn chunk(data: Seq<u8>) -> Seq<u8> {
    hex(data.len()) + seq![13u8, 10u8] + data + seq![13u8, 10u8]
}

/// Whether every byte is a hexadecimal digit in small letters.
pub open spec fn hex_bytes(b: Seq<u8>) -> bool {
    forall|i: int| 0 <= i < b.len() ==> (48 <= #[trigger] b[i] <= 57) || (97 <= b[i] <= 102)
}

proof fn hex_is_digits(n: nat)
    ensures
        hex(n).len() > 0,
        hex_bytes(hex(n)),
    decreases n,
{
    if n >= 16 {
        hex_is_digits(n / 16);
        assert forall|i: int| 0 <= i < hex(n).len() implies (48 <= #[trigger] hex(n)[i] <= 57) || (97
            <= hex(n)[i] <= 102) by {
            if i < hex(n / 16).len() {
                assert(hex(n)[i] == hex(n / 16)[i]);
            }
        }
    }
}

/// The text of ASCII bytes.
pub open spec fn ascii(b: Seq<u8>) -> Seq<char> {
    Seq::new(b.len(), |i: int| b[i] as char)
}

proof fn ascii_decodes(b: Seq<u8>)
    requires
        forall|i: int| 0 <= i < b.len() ==> (#[trigger] b[i]) < 0x80,
    ensures
        vstd::utf8::valid_utf8(b),
        vstd::utf8::decode_utf8(b) == ascii(b),
{
    let s = ascii(b);
    assert forall|i: int| 0 <= i < s.len() implies (0 as char) <= #[trigger] s[i] <= (127 as char) by {
        assert(b[i] < 0x80);
    }
    assert(vstd::utf8::is_ascii_chars(s));
    vstd::utf8::is_ascii_chars_encode_utf8(s);
    let e = vstd::utf8::encode_utf8(s);
    assert(e =~= b);
    vstd::utf8::encode_utf8_valid_utf8(s);
    vstd::utf8::encode_utf8_decode_utf8(s);
}

proof fn no_white_trims_nothing(s: Seq<char>)
    requires
        s.len() > 0,
        !text::blank(s[0]),
        !text::blank(s.last()),
    ensures
        text::trimmed(s) == s,
{
    assert(text::skip_white(s, 0) == 0);
    assert(text::drop_white(s, 0, s.len() as int) == s.len());
    assert(s.subrange(0, s.len() as int) =~= s);
}

proof fn hex_reads_on(s: Seq<char>, t: Seq<char>, i: int, acc: nat)
    requires
        0 <= i <= s.len(),
    ensures
        hex_from(s + t, i, acc) == (match hex_from(s, i, acc) {
            Some(n) => hex_from(s + t, s.len() as int, n),
            None => None,
        }),
    decreases s.len() - i,
{
    if i < s.len() {
        assert((s + t)[i] == s[i]);
        match hex_value(s[i]) {
            None => {},
            Some(d) => {
                if acc * 16 + d <= usize::MAX {
                    hex_reads_on(s, t, i + 1, acc * 16 + d);
                }
            },
        }
    }
}

proof fn hex_reads_back(n: nat)
    requires
        n <= usize::MAX,
    ensures
        hex_from(ascii(hex(n)), 0, 0) == Some(n),
    decreases n,
{
    let s = ascii(hex(n));
    if n < 16 {
        assert(s =~= seq![hex_byte(n) as char]);
        reveal_with_fuel(hex_from, 2);
        assert(hex_value(s[0]) == Some(n));
    } else {
        hex_reads_back(n / 16);
        let head = ascii(hex(n / 16));
        let tail = seq![hex_byte(n % 16) as char];
        assert(s =~= head + tail);
        hex_reads_on(head, tail, 0, 0);
        reveal_with_fuel(hex_from, 2);
        assert(s[head.len() as int] == tail[0]);
        assert(hex_value(tail[0]) == Some(n % 16));
        assert((n / 16) * 16 + n % 16 == n);
    }
}

proof fn no_semicolon(b: Seq<u8>, i: int)
    requires
        0 <= i <= b.len(),
        hex_bytes(b),
    ensures
        semicolon(b, i) is None,
    decreases b.len() - i,
{
    if i < b.len() {
        no_semicolon(b, i + 1);
    }
}

proof fn size_reads_back(n: nat)
    requires
        n <= usize::MAX,
    ensures
        chunk_size(hex(n)) == Some(n),
{
    hex_is_digits(n);
    no_semicolon(hex(n), 0);
    ascii_decodes(hex(n));
    let s = ascii(hex(n));
    assert(hex(n)[0] >= 48 && hex(n).last() >= 48);
    assert(48 <= s[0] as u32 <= 102);
    assert(s.last() == hex(n).last() as char);
    assert(48 <= s.last() as u32 <= 102);
    no_white_trims_nothing(s);
    assert(text::unsigned_part(s) == s);
    hex_reads_back(n);
}

proof fn crlf_behind_digits(b: Seq<u8>, rest: Seq<u8>, i: int)
    requires
        hex_bytes(b),
        0 <= i <= b.len(),
    ensures
        crlf(b + seq![13u8, 10u8] + rest, i) == Some(b.len() as int),
    decreases b.len() - i,
{
    let all = b + seq![13u8, 10u8] + rest;
    if i < b.len() {
        assert(all[i] == b[i]);
        crlf_behind_digits(b, rest, i + 1);
    } else {
        assert(all[i] == 13 && all[i + 1] == 10);
    }
}

/// Reading undoes framing: a chunk in front is read as its bytes, whatever
/// follows it.
pub proof fn a_chunk_reads_back(data: Seq<u8>, rest: Seq<u8>, out: Seq<u8>)
    requires
        data.len() > 0,
        out.len() + data.len() <= MAX_BODY,
    ensures
        dechunked(chunk(data) + rest, out) == dechunked(rest, out + data),
{
    let raw = chunk(data) + rest;
    let digits = hex(data.len());
    let tail = data + seq![13u8, 10u8] + rest;
    assert(raw =~= digits + seq![13u8, 10u8] + tail);
    hex_is_digits(data.len());
    crlf_behind_digits(digits, tail, 0);
    let at = digits.len() as int;
    assert(raw.subrange(0, at) =~= digits);
    size_reads_back(data.len());
    let behind = raw.subrange(at + 2, raw.len() as int);
    assert(behind =~= tail);
    assert(behind.subrange(0, data.len() as int) =~= data);
    assert(behind.subrange((data.len() + 2) as int, behind.len() as int) =~= rest);
}

/// The last chunk ends the body.
pub proof fn the_last_chunk_ends_the_body(rest: Seq<u8>, out: Seq<u8>)
    ensures
        dechunked(seq![48u8, 13u8, 10u8] + rest, out) == Ok::<Seq<u8>, Seq<char>>(out),
{
    let raw = seq![48u8, 13u8, 10u8] + rest;
    assert(hex(0) =~= seq![48u8]);
    assert(raw =~= hex(0) + seq![13u8, 10u8] + rest);
    hex_is_digits(0);
    crlf_behind_digits(hex(0), rest, 0);
    assert(raw.subrange(0, 1) =~= hex(0));
    size_reads_back(0);
}

proof fn parted_at_the_first(a: Seq<char>, c: char, b: Seq<char>)
    requires
        !a.contains(c),
    ensures
        text::split_once(a + seq![c] + b, c) == Some((a, b)),
{
    let s = a + seq![c] + b;
    let n = a.len() as int;
    text::first_is_earliest(s, c, 0);
    assert(s[n] == c);
    assert forall|k: int| 0 <= k < n implies s[k] != c by {
        assert(s[k] == a[k]);
        assert(a.contains(a[k]));
    }
    assert(s.subrange(0, n) =~= a);
    assert(s.subrange(n + 1, s.len() as int) =~= b);
}

proof fn parted_at_the_last(a: Seq<char>, c: char, b: Seq<char>)
    requires
        !b.contains(c),
    ensures
        text::rsplit_once(a + seq![c] + b, c) == Some((a, b)),
{
    let s = a + seq![c] + b;
    let n = a.len() as int;
    text::last_is_latest(s, c);
    assert(s[n] == c);
    assert forall|k: int| n < k < s.len() implies s[k] != c by {
        assert(s[k] == b[k - n - 1]);
        assert(b.contains(b[k - n - 1]));
    }
    assert(s.subrange(0, n) =~= a);
    assert(s.subrange(n + 1, s.len() as int) =~= b);
}

proof fn schemes_differ(rest: Seq<char>)
    ensures
        scheme_of("https://"@ + rest) == Some((true, rest)),
        scheme_of("http://"@ + rest) == Some((false, rest)),
{
    reveal_strlit("https://");
    reveal_strlit("http://");
    let a = "https://"@ + rest;
    let b = "http://"@ + rest;
    text::what_is_stripped_is_the_beginning("https://"@, rest, a);
    text::what_is_stripped_is_the_beginning("http://"@, rest, b);
    if text::begins(b, "https://"@) {
        assert(b.subrange(0, 8)[4] == "https://"@[4]);
        assert(b[4] == ':');
    }
}

/// A host with a port has that port, in decimal, and one without has its
/// scheme's.
pub proof fn a_host_has_its_port(host: Seq<char>, port: u16, tls: bool)
    ensures
        host_of(host + ":"@ + text::dec(port as nat), tls) == Ok::<(Seq<char>, u16), Seq<char>>(
            (host, port),
        ),
        !host.contains(':') ==> host_of(host, tls) == Ok::<(Seq<char>, u16), Seq<char>>(
            (
                host,
                if tls {
                    443u16
                } else {
                    80u16
                },
            ),
        ),
{
    reveal_strlit(":");
    let p = text::dec(port as nat);
    text::decimal_reads_back(port as nat);
    assert(":"@ =~= seq![':']);
    assert(!p.contains(':')) by {
        if p.contains(':') {
            let k = choose|k: int| 0 <= k < p.len() && p[k] == ':';
            assert(text::is_digit(p[k]));
        }
    }
    parted_at_the_last(host, ':', p);
    assert(text::unsigned_part(p) == p) by {
        assert(text::is_digit(p[0]));
    }
    text::a_cut_loses_the_character_alone(host, ':');
}

/// A URL is taken apart as it is put together: its scheme, its host, its port
/// and its path, which is the root where it has none.
pub proof fn a_url_is_its_parts(host: Seq<char>, port: u16, path: Seq<char>)
    requires
        host.len() > 0,
        !host.contains('/'),
    ensures
        url_in("https://"@ + (host + ":"@ + text::dec(port as nat)) + "/"@ + path) == Ok::<
            UrlView,
            Seq<char>,
        >(UrlView { tls: true, host, port, path: "/"@ + path }),
        url_in("http://"@ + (host + ":"@ + text::dec(port as nat)) + "/"@ + path) == Ok::<
            UrlView,
            Seq<char>,
        >(UrlView { tls: false, host, port, path: "/"@ + path }),
        !host.contains(':') ==> url_in("https://"@ + host) == Ok::<UrlView, Seq<char>>(
            UrlView { tls: true, host, port: 443, path: "/"@ },
        ),
        !host.contains(':') ==> url_in("http://"@ + host) == Ok::<UrlView, Seq<char>>(
            UrlView { tls: false, host, port: 80, path: "/"@ },
        ),
{
    reveal_strlit("/");
    reveal_strlit(":");
    let p = text::dec(port as nat);
    let authority = host + ":"@ + p;
    text::decimal_reads_back(port as nat);
    assert(!authority.contains('/')) by {
        if authority.contains('/') {
            let k = choose|k: int| 0 <= k < authority.len() && authority[k] == '/';
            if k < host.len() {
                assert(host[k] == '/');
            } else if k > host.len() {
                assert(p[k - host.len() - 1] == '/');
                assert(text::is_digit(p[k - host.len() - 1]));
            }
        }
    }
    let rest = authority + seq!['/'] + path;
    parted_at_the_first(authority, '/', path);
    schemes_differ(rest);
    assert("https://"@ + (host + ":"@ + p) + "/"@ + path =~= "https://"@ + rest);
    assert("http://"@ + (host + ":"@ + p) + "/"@ + path =~= "http://"@ + rest);
    a_host_has_its_port(host, port, true);
    a_host_has_its_port(host, port, false);
    schemes_differ(host);
    text::a_cut_loses_the_character_alone(host, '/');
}

/// Only a URL of one of the two schemes, with a host, is taken.
pub proof fn only_a_web_url_is_taken(url: Seq<char>)
    ensures
        url_in(url) is Ok ==> text::begins(url, "http://"@) || text::begins(url, "https://"@),
        url_in(url) matches Ok(u) ==> u.host.len() > 0 && u.tls == text::begins(url, "https://"@),
{
}

/// A request asks the URL's host for its path.
pub proof fn a_request_asks_for_the_path(u: UrlView)
    ensures
        text::begins(
            request_text(u),
            "GET "@ + u.path + " HTTP/1.1\r\nhost: "@ + u.host + "\r\n"@,
        ),
        text::ends(request_text(u), "\r\n\r\n"@),
{
    reveal_strlit("\r\n");
    reveal_strlit("\r\n\r\n");
    reveal_strlit(
        "\r\nuser-agent: drt-netcheck\r\naccept: application/json\r\nconnection: close\r\n\r\n",
    );
    let r = request_text(u);
    let front = "GET "@ + u.path + " HTTP/1.1\r\nhost: "@ + u.host + "\r\n"@;
    assert(r.subrange(0, front.len() as int) =~= front);
    assert(r.subrange(r.len() - 4, r.len() as int) =~= "\r\n\r\n"@);
}

/// The first address that does not read is named, and where all read none is.
pub proof fn the_first_unread_address_is_named(at: Seq<(String, Option<IpAddr>)>, from: int)
    requires
        0 <= from <= at.len(),
    ensures
        match unread(at, from) {
            Some(i) => from <= i < at.len() && at[i].1 is None && forall|k: int|
                from <= k < i ==> (#[trigger] at[k]).1 is Some,
            None => forall|k: int| from <= k < at.len() ==> (#[trigger] at[k]).1 is Some,
        },
    decreases at.len() - from,
{
    if from < at.len() && at[from].1 is Some {
        the_first_unread_address_is_named(at, from + 1);
    }
}

/// A head ends at its first empty line.
pub proof fn a_head_ends_at_the_empty_line(raw: Seq<u8>, from: int)
    requires
        0 <= from,
    ensures
        match head_end(raw, from) {
            Some(i) => {
                &&& from <= i
                &&& i + 4 <= raw.len()
                &&& raw.subrange(i, i + 4) == seq![13u8, 10u8, 13u8, 10u8]
                &&& forall|k: int|
                    from <= k < i ==> #[trigger] raw.subrange(k, k + 4) != seq![
                        13u8,
                        10u8,
                        13u8,
                        10u8,
                    ]
            },
            None => forall|k: int|
                from <= k && k + 4 <= raw.len() ==> #[trigger] raw.subrange(k, k + 4) != seq![
                    13u8,
                    10u8,
                    13u8,
                    10u8,
                ],
        },
    decreases raw.len() - from,
{
    let end = seq![13u8, 10u8, 13u8, 10u8];
    if from + 3 < raw.len() {
        let four = raw.subrange(from, from + 4);
        assert(four[0] == raw[from] && four[1] == raw[from + 1] && four[2] == raw[from + 2]
            && four[3] == raw[from + 3]);
        if raw[from] == 13 && raw[from + 1] == 10 && raw[from + 2] == 13 && raw[from + 3] == 10 {
            assert(four =~= end);
        } else {
            assert(four != end) by {
                if four == end {
                    assert(end[0] == 13 && end[1] == 10 && end[2] == 13 && end[3] == 10);
                }
            }
            a_head_ends_at_the_empty_line(raw, from + 1);
        }
    }
}

/// A response is read only where its status is one of success; the edge's
/// refusal to answer so often is told as such.
pub proof fn only_success_is_read(lines: Seq<Seq<char>>)
    ensures
        match status_in(lines) {
            None => head_in(lines) is Err,
            Some(s) => {
                &&& head_in(lines) is Ok <==> 200 <= s <= 299
                &&& s == 429 ==> head_in(lines) == Err::<bool, Seq<char>>(
                    "rate limited by the edge"@,
                )
                &&& s != 429 && !(200 <= s <= 299) ==> head_in(lines) == Err::<bool, Seq<char>>(
                    "the edge answered "@ + text::dec(s),
                )
            },
        },
{
}

/// A body is in chunks where one of the header lines says so, in whatever
/// case, and nowhere else.
pub proof fn a_header_says_that_it_is_chunked(lines: Seq<Seq<char>>, from: int)
    requires
        0 <= from,
    ensures
        is_chunked(lines, from) <==> exists|i: int|
            from <= i < lines.len() && says_chunked(#[trigger] lines[i]),
    decreases lines.len() - from,
{
    if from < lines.len() {
        a_header_says_that_it_is_chunked(lines, from + 1);
        if is_chunked(lines, from + 1) && !says_chunked(lines[from]) {
            let i = choose|i: int|
                from + 1 <= i < lines.len() && says_chunked(#[trigger] lines[i]);
            assert(says_chunked(lines[i]));
        }
    }
}

/// A header line says that the body is in chunks by its name and by what
/// stands behind the first colon.
pub proof fn a_line_says_chunked(name: Seq<char>, value: Seq<char>)
    requires
        !name.contains(':'),
    ensures
        says_chunked(name + seq![':'] + value) <==> text::same_folded(
            text::trimmed(name),
            "transfer-encoding"@,
        ) && text::contains(text::folded(value), "chunked"@),
        !says_chunked(name),
{
    parted_at_the_first(name, ':', value);
    text::a_cut_loses_the_character_alone(name, ':');
}

/// The body of an answer is what stands behind its head, put together where it
/// is in chunks, and it is text.
pub proof fn an_answer_is_its_body(buf: Seq<u8>, at: int, s: Seq<char>)
    requires
        head_end(buf, 0) == Some(at),
        buf.len() <= 65_536,
    ensures
        ({
            let lines = text::lines_of(text::lossy(buf.subrange(0, at)));
            let body = buf.subrange(at + 4, buf.len() as int);
            match head_in(lines) {
                Err(why) => answer_in(buf) == Err::<Seq<char>, Seq<char>>(why),
                Ok(false) => body == vstd::utf8::encode_utf8(s) ==> answer_in(buf) == Ok::<
                    Seq<char>,
                    Seq<char>,
                >(s),
                Ok(true) => dechunked(body, Seq::empty()) == Ok::<Seq<u8>, Seq<char>>(
                    vstd::utf8::encode_utf8(s),
                ) ==> answer_in(buf) == Ok::<Seq<char>, Seq<char>>(s),
            }
        }),
{
    vstd::utf8::encode_utf8_valid_utf8(s);
    vstd::utf8::encode_utf8_decode_utf8(s);
}

/// More than is read is no answer, nor is a head without an end.
pub proof fn too_much_is_no_answer(buf: Seq<u8>)
    ensures
        buf.len() > 65_536 ==> answer_in(buf) is Err,
        head_end(buf, 0) is None ==> answer_in(buf) is Err,
{
}

/// A hexadecimal digit counts as much in a capital letter as in a small one.
pub proof fn a_hexadecimal_digit_counts(d: nat)
    ensures
        d < 10 ==> hex_value((48 + d) as char) == Some(d),
        10 <= d < 16 ==> hex_value((87 + d) as char) == Some(d),
        10 <= d < 16 ==> hex_value((55 + d) as char) == Some(d),
        forall|c: char| (#[trigger] hex_value(c)) matches Some(v) ==> v < 16,
{
}

/// An edge has ten seconds to answer.
pub proof fn an_edge_has_its_time()
    ensures
        TIMEOUT_SECS == 10,
{
}

proof fn no_semicolon_before(a: Seq<u8>, b: Seq<u8>, i: int)
    requires
        0 <= i <= a.len(),
        forall|k: int| 0 <= k < a.len() ==> (#[trigger] a[k]) != 59,
    ensures
        semicolon(a + seq![59u8] + b, i) == Some(a.len() as int),
    decreases a.len() - i,
{
    let all = a + seq![59u8] + b;
    if i < a.len() {
        assert(all[i] == a[i]);
        no_semicolon_before(a, b, i + 1);
    } else {
        assert(all[i] == 59);
    }
}

proof fn without_semicolon(a: Seq<u8>, i: int)
    requires
        0 <= i <= a.len(),
        forall|k: int| 0 <= k < a.len() ==> (#[trigger] a[k]) != 59,
    ensures
        semicolon(a, i) is None,
    decreases a.len() - i,
{
    if i < a.len() {
        without_semicolon(a, i + 1);
    }
}

/// The size of a chunk is what stands before the first semicolon of its head,
/// and the whole head where there is none.
pub proof fn a_size_ends_at_the_semicolon(a: Seq<u8>, b: Seq<u8>)
    requires
        forall|k: int| 0 <= k < a.len() ==> (#[trigger] a[k]) != 59,
    ensures
        size_text(a) == a,
        size_text(a + seq![59u8] + b) == a,
        chunk_size(a + seq![59u8] + b) == chunk_size(a),
{
    without_semicolon(a, 0);
    no_semicolon_before(a, b, 0);
    assert((a + seq![59u8] + b).subrange(0, a.len() as int) =~= a);
}

/// Chunks that cannot be read are refused for what is wrong with them.
pub proof fn a_bad_chunk_says_what_is_wrong(raw: Seq<u8>, out: Seq<u8>)
    ensures
        crlf(raw, 0) is None ==> dechunked(raw, out) == Err::<Seq<u8>, Seq<char>>(
            "chunked: a chunk header never ended"@,
        ),
        crlf(raw, 0) matches Some(at) ==> chunk_size(raw.subrange(0, at)) is None ==> dechunked(
            raw,
            out,
        ) == Err::<Seq<u8>, Seq<char>>("chunked: not a chunk size"@),
        crlf(raw, 0) matches Some(at) ==> (chunk_size(raw.subrange(0, at)) matches Some(size)
            ==> size > 0 && raw.len() - (at + 2) < size + 2 ==> dechunked(raw, out) == Err::<
            Seq<u8>,
            Seq<char>,
        >("chunked: a chunk was shorter than its size"@)),
        crlf(raw, 0) matches Some(at) ==> (chunk_size(raw.subrange(0, at)) matches Some(size)
            ==> size > 0 && out.len() + size > 65_536 ==> dechunked(raw, out) is Err),
        !vstd::utf8::valid_utf8(raw) ==> body_in(raw, false) == Err::<Seq<char>, Seq<char>>(
            "the edge answered bytes that are not text"@,
        ),
        vstd::utf8::valid_utf8(raw) ==> body_in(raw, false) == Ok::<Seq<char>, Seq<char>>(
            vstd::utf8::decode_utf8(raw),
        ),
        raw.len() <= 65_536 && head_end(raw, 0) is None ==> answer_in(raw) == Err::<
            Seq<char>,
            Seq<char>,
        >("the response head never completed"@),
        raw.len() > 65_536 ==> answer_in(raw) == Err::<Seq<char>, Seq<char>>(
            "the edge answered more than this reads"@,
        ),
{
    crlf_is_inside(raw, 0);
}

/// What stands behind the last colon is a port only where it is digits; else
/// the whole is the host, at the standard port. Digits past 65535 are no port.
pub proof fn only_digits_are_a_port(host: Seq<char>, behind: Seq<char>, tls: bool)
    requires
        !behind.contains(':'),
    ensures
        behind.len() == 0 || (exists|i: int|
            0 <= i < behind.len() && !('0' <= (#[trigger] behind[i]) && behind[i] <= '9'))
            ==> host_of(host + seq![':'] + behind, tls) == Ok::<(Seq<char>, u16), Seq<char>>(
            (
                host + seq![':'] + behind,
                if tls {
                    443u16
                } else {
                    80u16
                },
            ),
        ),
        behind.len() > 0 && text::digits(behind) && text::number(behind, 65_535) is None ==> host_of(
            host + seq![':'] + behind,
            tls,
        ) == Err::<(Seq<char>, u16), Seq<char>>("bad port"@),
{
    parted_at_the_last(host, ':', behind);
    if behind.len() > 0 && text::digits(behind) {
        assert forall|i: int| 0 <= i < behind.len() implies '0' <= (#[trigger] behind[i]) && behind[i]
            <= '9' by {
            assert(text::is_digit(behind[i]));
        }
    }
}

} // verus!
