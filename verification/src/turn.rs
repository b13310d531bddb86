//! The relay of last resort: its secret, the address it hands out, and what
//! it reports.
//!
//! Times are in nanoseconds on the host's clock.

use crate::addr::{IpAddr, SocketAddr};
use crate::msg;
use crate::msg::{Datum, Msg};
use crate::text;
use vstd::prelude::*;

verus! {

/// The shortest secret that is accepted, in bytes.
pub const KEY_MIN: usize = 16;

// ---- the secret ----

/// Where the secret comes from, and what reading it there came to: a file, a
/// variable of the environment, the block itself. The first that is named
/// counts.
#[derive(Debug)]
pub struct Keys {
    pub key_file: Option<(String, Result<Vec<u8>, String>)>,
    pub key_env: Option<(String, Option<String>)>,
    pub key: Option<String>,
}

/// The bytes without one line feed at their end.
pub open spec fn unended(b: Seq<u8>) -> Seq<u8> {
    if b.len() > 0 && b.last() == 10 {
        b.drop_last()
    } else {
        b
    }
}

/// The bytes of the secret, or why they cannot be had.
pub open spec fn key_bytes(keys: Keys) -> Result<Seq<u8>, Seq<char>> {
    match keys.key_file {
        Some((path, Err(e))) => Err("turn: cannot read key_file '"@ + path@ + "': "@ + e@),
        Some((_, Ok(b))) => Ok(unended(b@)),
        None => match keys.key_env {
            Some((var, None)) => Err("turn: env var '"@ + var@ + "' (key_env) is not set"@),
            Some((_, Some(v))) => Ok(vstd::utf8::encode_utf8(v@)),
            None => match keys.key {
                Some(k) => Ok(vstd::utf8::encode_utf8(k@)),
                None => Ok(Seq::empty()),
            },
        },
    }
}

/// The secret, or why there is none.
pub open spec fn secret_in(bytes: Result<Seq<u8>, Seq<char>>) -> Result<Seq<char>, Seq<char>> {
    match bytes {
        Err(why) => Err(why),
        Ok(b) => if b.len() < KEY_MIN {
            Err(
                "turn: the key is missing or shorter than 16 bytes (set one of key_file, key_env, key); a relay with nothing to verify against is an open relay, and is refused"@,
            )
        } else if !vstd::utf8::valid_utf8(b) {
            Err("turn: the key must be text (coturn's static-auth-secret is)"@)
        } else {
            Ok(vstd::utf8::decode_utf8(b))
        },
    }
}

fn bytes_of(s: &str) -> (r: Vec<u8>)
    ensures
        r@ == vstd::utf8::encode_utf8(s@),
{
    vstd::slice::slice_to_vec(s.as_bytes())
}

/// The secret that credentials are verified against. A relay without one is
/// refused.
pub fn secret(keys: Keys) -> (r: Result<String, String>)
    ensures
        match secret_in(key_bytes(keys)) {
            Ok(s) => r matches Ok(t) && t@ == s,
            Err(what) => r matches Err(why) && why@ == what,
        },
{
    let bytes: Vec<u8> = match keys.key_file {
        Some((path, Err(e))) => {
            return Err(
                text::join4("turn: cannot read key_file '", path.as_str(), "': ", e.as_str()),
            );
        },
        Some((_, Ok(mut b))) => {
            if b.len() > 0 && b[b.len() - 1] == 10 {
                let _ = b.pop();
            }
            b
        },
        None => match keys.key_env {
            Some((var, None)) => {
                return Err(
                    text::join3("turn: env var '", var.as_str(), "' (key_env) is not set"),
                );
            },
            Some((_, Some(v))) => bytes_of(v.as_str()),
            None => match keys.key {
                Some(k) => bytes_of(k.as_str()),
                None => Vec::new(),
            },
        },
    };
    assert(key_bytes(keys) matches Ok(b) && b =~= bytes@);
    if bytes.len() < KEY_MIN {
        return Err(
            "turn: the key is missing or shorter than 16 bytes (set one of key_file, key_env, key); a relay with nothing to verify against is an open relay, and is refused".to_owned(),
        );
    }
    match text::utf8(bytes.as_slice()) {
        Some(s) => {
            proof {
                vstd::utf8::encode_utf8_decode_utf8(s@);
            }
            Ok(s)
        },
        None => Err("turn: the key must be text (coturn's static-auth-secret is)".to_owned()),
    }
}

// ---- the address ----

/// The address that peers are told to send to. `named` is how the block's
/// own address reads, where it names one, and `bound` how `bind` reads.
pub fn relay_address(
    address: &str,
    named: Result<IpAddr, String>,
    bind: &str,
    bound: Option<SocketAddr>,
) -> (r: Result<IpAddr, String>)
    ensures
        if address@.len() > 0 {
            match named {
                Ok(ip) => r == Ok::<IpAddr, String>(ip),
                Err(e) => r matches Err(why) && why@ == "turn.relay_address '"@ + address@
                    + "' is not an IP address: "@ + e@,
            }
        } else {
            match bound {
                None => r matches Err(why) && why@ == "turn needs relay_address: bind '"@ + bind@
                    + "' is not a literal address to derive it from"@,
                Some(a) => if a.ip.spec_unspecified() {
                    r matches Err(why) && why@ == "turn needs relay_address: bind '"@ + bind@
                        + "' is a wildcard, and peers must be told an address they can reach"@
                } else {
                    r == Ok::<IpAddr, String>(a.ip)
                },
            }
        },
{
    if !address.is_empty() {
        return match named {
            Ok(ip) => Ok(ip),
            Err(e) => Err(
                text::join4(
                    "turn.relay_address '",
                    address,
                    "' is not an IP address: ",
                    e.as_str(),
                ),
            ),
        };
    }
    match bound {
        None => Err(
            text::join3(
                "turn needs relay_address: bind '",
                bind,
                "' is not a literal address to derive it from",
            ),
        ),
        Some(a) => if a.ip.is_unspecified() {
            Err(
                text::join3(
                    "turn needs relay_address: bind '",
                    bind,
                    "' is a wildcard, and peers must be told an address they can reach",
                ),
            )
        } else {
            Ok(a.ip)
        },
    }
}

// ---- reports ----

/// An allocation that was closed.
#[derive(Debug)]
pub struct ClosedAllocation {
    pub username: String,
    pub principal: Option<String>,
    pub relay_addr: SocketAddr,
    pub client_addr: SocketAddr,
    pub relayed_bytes: u64,
}

/// What a relay has counted.
#[derive(Clone, Copy, Debug, PartialEq, Eq, Structural)]
pub struct TurnSnapshot {
    pub live_allocations: usize,
    pub max_allocations: usize,
    pub allocations_granted: u64,
    pub allocations_refused: u64,
    pub allocations_closed: u64,
    pub relayed_bytes_closed: u64,
    pub auth_ok: u64,
    pub auth_refused: u64,
    pub last_activity_ms: u64,
}

/// The entries of the report of an allocation that was closed.
pub open spec fn closed_entries(c: ClosedAllocation) -> Seq<(Msg, Msg)> {
    seq![
        (Msg::Text("event"@), Msg::Text("turn_closed"@)),
        (Msg::Text("username"@), Msg::Text(c.username@)),
        (
            Msg::Text("principal"@),
            match c.principal {
                Some(p) => Msg::Text(p@),
                None => Msg::Nil,
            },
        ),
        (Msg::Text("relay_addr"@), Msg::Text(c.relay_addr.text())),
        (Msg::Text("client_addr"@), Msg::Text(c.client_addr.text())),
        (Msg::Text("relayed_bytes"@), Msg::Int(c.relayed_bytes as int)),
    ]
}

/// The report of an allocation that was closed, as a value.
pub fn closed_value(c: &ClosedAllocation) -> (r: Datum)
    ensures
        r@ == Msg::Table(closed_entries(*c)),
{
    let principal: Datum = match &c.principal {
        Some(p) => msg::say(p.as_str()),
        None => Datum::Nil,
    };
    let mut es: Vec<(Datum, Datum)> = Vec::new();
    assert(msg::entries(es@) =~= Seq::empty());
    msg::put(&mut es, "event", msg::say("turn_closed"));
    msg::put(&mut es, "username", msg::say(c.username.as_str()));
    msg::put(&mut es, "principal", principal);
    msg::put(&mut es, "relay_addr", msg::say(c.relay_addr.show().as_str()));
    msg::put(&mut es, "client_addr", msg::say(c.client_addr.show().as_str()));
    msg::put(&mut es, "relayed_bytes", Datum::Uint(c.relayed_bytes));
    assert(msg::entries(es@) =~= closed_entries(*c));
    msg::table(es)
}

/// The message of an allocation that was closed. Each is pushed as it comes,
/// whatever the interval.
pub fn closed_message(c: &ClosedAllocation) -> (r: Vec<u8>)
    ensures
        r@ == msg::packed(Msg::Table(closed_entries(*c))),
{
    let v = closed_value(c);
    proof {
        let es = closed_entries(*c);
        assert forall|i: int| 0 <= i < es.len() implies msg::plain((#[trigger] es[i]).0, 7)
            && msg::plain(es[i].1, 7) by {}
        msg::plain_table(es, 7);
    }
    msg::encode(&v)
}

/// The entries of a report.
pub open spec fn snapshot_entries(addr: SocketAddr, relay: IpAddr, s: TurnSnapshot) -> Seq<
    (Msg, Msg),
> {
    seq![
        (Msg::Text("event"@), Msg::Text("turn"@)),
        (Msg::Text("addr"@), Msg::Text(addr.text())),
        (Msg::Text("relay_address"@), Msg::Text(relay.text())),
        (Msg::Text("live_allocations"@), Msg::Int(s.live_allocations as int)),
        (Msg::Text("max_allocations"@), Msg::Int(s.max_allocations as int)),
        (Msg::Text("allocations_granted"@), Msg::Int(s.allocations_granted as int)),
        (Msg::Text("allocations_refused"@), Msg::Int(s.allocations_refused as int)),
        (Msg::Text("allocations_closed"@), Msg::Int(s.allocations_closed as int)),
        (Msg::Text("relayed_bytes_closed"@), Msg::Int(s.relayed_bytes_closed as int)),
        (Msg::Text("auth_ok"@), Msg::Int(s.auth_ok as int)),
        (Msg::Text("auth_refused"@), Msg::Int(s.auth_refused as int)),
        (Msg::Text("last_activity_ms"@), Msg::Int(s.last_activity_ms as int)),
    ]
}

/// A report as a value.
pub fn snapshot_value(addr: &SocketAddr, relay_address: &IpAddr, s: &TurnSnapshot) -> (r: Datum)
    ensures
        r@ == Msg::Table(snapshot_entries(*addr, *relay_address, *s)),
{
    let mut es: Vec<(Datum, Datum)> = Vec::new();
    assert(msg::entries(es@) =~= Seq::empty());
    msg::put(&mut es, "event", msg::say("turn"));
    msg::put(&mut es, "addr", msg::say(addr.show().as_str()));
    msg::put(&mut es, "relay_address", msg::say(relay_address.show().as_str()));
    msg::put(&mut es, "live_allocations", Datum::Uint(s.live_allocations as u64));
    msg::put(&mut es, "max_allocations", Datum::Uint(s.max_allocations as u64));
    msg::put(&mut es, "allocations_granted", Datum::Uint(s.allocations_granted));
    msg::put(&mut es, "allocations_refused", Datum::Uint(s.allocations_refused));
    msg::put(&mut es, "allocations_closed", Datum::Uint(s.allocations_closed));
    msg::put(&mut es, "relayed_bytes_closed", Datum::Uint(s.relayed_bytes_closed));
    msg::put(&mut es, "auth_ok", Datum::Uint(s.auth_ok));
    msg::put(&mut es, "auth_refused", Datum::Uint(s.auth_refused));
    msg::put(&mut es, "last_activity_ms", Datum::Uint(s.last_activity_ms));
    assert(msg::entries(es@) =~= snapshot_entries(*addr, *relay_address, *s));
    msg::table(es)
}

/// The deployment's end of a relay.
#[derive(Debug)]
pub struct TurnBridge {
    pub addr: SocketAddr,
    pub relay_address: IpAddr,
    pub every: u128,
    pub next_report: u128,
    pub last: Option<TurnSnapshot>,
}

impl TurnBridge {
    /// A relay that was bound now. It reports on the first pass.
    pub fn start(addr: SocketAddr, relay_address: IpAddr, report_ms: u64, now: u128) -> (r:
        TurnBridge)
        ensures
            r.addr == addr,
            r.relay_address == relay_address,
            r.every == report_ms * 1_000_000,
            r.next_report == now,
            r.last is None,
    {
        TurnBridge {
            addr,
            relay_address,
            every: report_ms as u128 * 1_000_000,
            next_report: now,
            last: None,
        }
    }

    /// The message to push, if one is due: when the interval is over and
    /// something has changed.
    pub fn report(&mut self, snapshot: TurnSnapshot, now: u128) -> (r: Option<Vec<u8>>)
        requires
            now + old(self).every <= u128::MAX,
        ensures
            final(self).addr == old(self).addr,
            final(self).relay_address == old(self).relay_address,
            final(self).every == old(self).every,
            if now < old(self).next_report {
                *final(self) == *old(self) && r is None
            } else {
                &&& final(self).next_report == now + old(self).every
                &&& final(self).last == Some(snapshot)
                &&& if old(self).last == Some(snapshot) {
                    r is None
                } else {
                    r matches Some(m) && m@ == msg::packed(
                        Msg::Table(
                            snapshot_entries(old(self).addr, old(self).relay_address, snapshot),
                        ),
                    )
                }
            },
    {
        if now < self.next_report {
            return None;
        }
        self.next_report = now + self.every;
        if let Some(last) = self.last {
            if last == snapshot {
                return None;
            }
        }
        self.last = Some(snapshot);
        let v = snapshot_value(&self.addr, &self.relay_address, &snapshot);
        proof {
            let es = snapshot_entries(self.addr, self.relay_address, snapshot);
            assert forall|i: int| 0 <= i < es.len() implies msg::plain((#[trigger] es[i]).0, 7)
                && msg::plain(es[i].1, 7) by {}
            msg::plain_table(es, 7);
        }
        Some(msg::encode(&v))
    }
}

// ---- laws ----

/// There is no open relay: what is accepted as a secret is never shorter
/// than the shortest.
pub proof fn a_secret_is_long_enough(keys: Keys)
    ensures
        secret_in(key_bytes(keys)) is Ok ==> key_bytes(keys)->Ok_0.len() >= KEY_MIN,
{
}

/// A secret that is text in the block or in the environment, and long
/// enough, is taken as it stands.
pub proof fn a_text_secret_is_taken_as_it_is(s: Seq<char>)
    requires
        vstd::utf8::encode_utf8(s).len() >= KEY_MIN,
    ensures
        secret_in(Ok(vstd::utf8::encode_utf8(s))) == Ok::<Seq<char>, Seq<char>>(s),
{
    vstd::utf8::encode_utf8_valid_utf8(s);
    vstd::utf8::encode_utf8_decode_utf8(s);
}

/// The first source that is named gives the secret: a file, without the line
/// feed at its end, then the environment, then the block itself.
pub proof fn the_first_named_source_counts(keys: Keys)
    ensures
        match keys.key_file {
            Some((_, Ok(b))) => key_bytes(keys) == Ok::<Seq<u8>, Seq<char>>(unended(b@)),
            Some((_, Err(_))) => key_bytes(keys) is Err,
            None => match keys.key_env {
                Some((_, Some(v))) => key_bytes(keys) == Ok::<Seq<u8>, Seq<char>>(
                    vstd::utf8::encode_utf8(v@),
                ),
                Some((_, None)) => key_bytes(keys) is Err,
                None => match keys.key {
                    Some(k) => key_bytes(keys) == Ok::<Seq<u8>, Seq<char>>(
                        vstd::utf8::encode_utf8(k@),
                    ),
                    None => key_bytes(keys) == Ok::<Seq<u8>, Seq<char>>(Seq::empty()),
                },
            },
        },
{
}

/// One line feed is taken off the end of a key file, and nothing else.
pub proof fn one_line_feed_is_taken_off(b: Seq<u8>)
    ensures
        unended(b.push(10)) == b,
        b.len() == 0 || b.last() != 10 ==> unended(b) == b,
{
    assert(b.push(10).drop_last() =~= b);
}

/// A secret of fewer than sixteen bytes, or none, is refused, and so is one
/// that is not text.
pub proof fn a_short_secret_is_refused(b: Seq<u8>)
    ensures
        secret_in(Ok(b)) is Ok <==> b.len() >= 16 && vstd::utf8::valid_utf8(b),
        secret_in(Ok(b)) is Ok ==> vstd::utf8::encode_utf8(secret_in(Ok(b))->Ok_0) == b,
        forall|why: Seq<char>| #[trigger] secret_in(Err(why)) == Err::<Seq<char>, Seq<char>>(why),
{
    if vstd::utf8::valid_utf8(b) {
        vstd::utf8::decode_utf8_encode_utf8(b);
    }
}

/// The report of a closed allocation says whose it was, where it was and how
/// much passed.
pub proof fn a_closed_allocation_is_reported(c: ClosedAllocation)
    ensures
        ({
            let es = closed_entries(c);
            &&& es.len() == 6
            &&& es.contains((Msg::Text("event"@), Msg::Text("turn_closed"@)))
            &&& es.contains((Msg::Text("username"@), Msg::Text(c.username@)))
            &&& c.principal matches Some(p) ==> es.contains(
                (Msg::Text("principal"@), Msg::Text(p@)),
            )
            &&& c.principal is None ==> es.contains((Msg::Text("principal"@), Msg::Nil))
            &&& es.contains((Msg::Text("relay_addr"@), Msg::Text(c.relay_addr.text())))
            &&& es.contains((Msg::Text("client_addr"@), Msg::Text(c.client_addr.text())))
            &&& es.contains((Msg::Text("relayed_bytes"@), Msg::Int(c.relayed_bytes as int)))
        }),
{
    let es = closed_entries(c);
    assert(es[0] == es[0] && es[1] == es[1] && es[2] == es[2]);
    assert(es[3] == es[3] && es[4] == es[4] && es[5] == es[5]);
}

/// A report holds each count under its own name.
pub proof fn a_report_holds_each_count(addr: SocketAddr, relay: IpAddr, s: TurnSnapshot)
    ensures
        ({
            let es = snapshot_entries(addr, relay, s);
            &&& es.len() == 12
            &&& es.contains((Msg::Text("event"@), Msg::Text("turn"@)))
            &&& es.contains((Msg::Text("addr"@), Msg::Text(addr.text())))
            &&& es.contains((Msg::Text("relay_address"@), Msg::Text(relay.text())))
            &&& es.contains((Msg::Text("live_allocations"@), Msg::Int(s.live_allocations as int)))
            &&& es.contains((Msg::Text("max_allocations"@), Msg::Int(s.max_allocations as int)))
            &&& es.contains(
                (Msg::Text("allocations_granted"@), Msg::Int(s.allocations_granted as int)),
            )
            &&& es.contains(
                (Msg::Text("allocations_refused"@), Msg::Int(s.allocations_refused as int)),
            )
            &&& es.contains(
                (Msg::Text("allocations_closed"@), Msg::Int(s.allocations_closed as int)),
            )
            &&& es.contains(
                (Msg::Text("relayed_bytes_closed"@), Msg::Int(s.relayed_bytes_closed as int)),
            )
            &&& es.contains((Msg::Text("auth_ok"@), Msg::Int(s.auth_ok as int)))
            &&& es.contains((Msg::Text("auth_refused"@), Msg::Int(s.auth_refused as int)))
            &&& es.contains((Msg::Text("last_activity_ms"@), Msg::Int(s.last_activity_ms as int)))
        }),
{
    let es = snapshot_entries(addr, relay, s);
    assert(es[0] == es[0] && es[1] == es[1] && es[2] == es[2] && es[3] == es[3]);
    assert(es[4] == es[4] && es[5] == es[5] && es[6] == es[6] && es[7] == es[7]);
    assert(es[8] == es[8] && es[9] == es[9] && es[10] == es[10] && es[11] == es[11]);
}

/// A source of the key that gives none is named in the refusal, as is what is
/// wrong with a key that was given.
pub proof fn a_missing_key_is_named(path: String, e: String, var: String, keys: Keys, b: Seq<u8>)
    ensures
        keys.key_file == Some((path, Err::<Vec<u8>, String>(e))) ==> key_bytes(keys) == Err::<
            Seq<u8>,
            Seq<char>,
        >("turn: cannot read key_file '"@ + path@ + "': "@ + e@),
        keys.key_file is None && keys.key_env == Some((var, None::<String>)) ==> key_bytes(keys)
            == Err::<Seq<u8>, Seq<char>>("turn: env var '"@ + var@ + "' (key_env) is not set"@),
        b.len() < 16 ==> secret_in(Ok(b)) == Err::<Seq<char>, Seq<char>>(
            "turn: the key is missing or shorter than 16 bytes (set one of key_file, key_env, key); a relay with nothing to verify against is an open relay, and is refused"@,
        ),
        b.len() >= 16 && !vstd::utf8::valid_utf8(b) ==> secret_in(Ok(b)) == Err::<
            Seq<char>,
            Seq<char>,
        >("turn: the key must be text (coturn's static-auth-secret is)"@),
{
}

} // verus!
