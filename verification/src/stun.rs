//! The reports of a binding server: what it counted, at most once an
//! interval, and only when something changed.
//!
//! Times are in nanoseconds on the host's clock.

use crate::addr::SocketAddr;
use crate::msg;
use crate::msg::{Datum, Msg};
use vstd::prelude::*;

verus! {

/// What a binding server has counted.
#[derive(Clone, Copy, Debug, PartialEq, Eq, Structural)]
pub struct StunServerSnapshot {
    pub requests: u64,
    pub responses: u64,
    pub dropped: u64,
    pub bytes_in: u64,
    pub bytes_out: u64,
    pub last_activity_ms: u64,
}

/// The entries of a report.
pub open spec fn snapshot_entries(addr: SocketAddr, s: StunServerSnapshot) -> Seq<(Msg, Msg)> {
    seq![
        (Msg::Text("event"@), Msg::Text("stun"@)),
        (Msg::Text("addr"@), Msg::Text(addr.text())),
        (Msg::Text("requests"@), Msg::Int(s.requests as int)),
        (Msg::Text("responses"@), Msg::Int(s.responses as int)),
        (Msg::Text("dropped"@), Msg::Int(s.dropped as int)),
        (Msg::Text("bytes_in"@), Msg::Int(s.bytes_in as int)),
        (Msg::Text("bytes_out"@), Msg::Int(s.bytes_out as int)),
        (Msg::Text("last_activity_ms"@), Msg::Int(s.last_activity_ms as int)),
    ]
}

/// A report as a value.
pub fn snapshot_value(addr: &SocketAddr, s: &StunServerSnapshot) -> (r: Datum)
    ensures
        r@ == Msg::Table(snapshot_entries(*addr, *s)),
{
    let mut es: Vec<(Datum, Datum)> = Vec::new();
    assert(msg::entries(es@) =~= Seq::empty());
    msg::put(&mut es, "event", msg::say("stun"));
    msg::put(&mut es, "addr", msg::say(addr.show().as_str()));
    msg::put(&mut es, "requests", Datum::Uint(s.requests));
    msg::put(&mut es, "responses", Datum::Uint(s.responses));
    msg::put(&mut es, "dropped", Datum::Uint(s.dropped));
    msg::put(&mut es, "bytes_in", Datum::Uint(s.bytes_in));
    msg::put(&mut es, "bytes_out", Datum::Uint(s.bytes_out));
    msg::put(&mut es, "last_activity_ms", Datum::Uint(s.last_activity_ms));
    assert(msg::entries(es@) =~= snapshot_entries(*addr, *s));
    msg::table(es)
}

/// The deployment's end of a binding server.
#[derive(Debug)]
pub struct StunBridge {
    pub addr: SocketAddr,
    pub every: u128,
    pub next_report: u128,
    pub last: Option<StunServerSnapshot>,
}

impl StunBridge {
    /// A server that was bound now. It reports on the first pass.
    pub fn start(addr: SocketAddr, report_ms: u64, now: u128) -> (r: StunBridge)
        ensures
            r.addr == addr,
            r.every == report_ms * 1_000_000,
            r.next_report == now,
            r.last is None,
    {
        StunBridge { addr, every: report_ms as u128 * 1_000_000, next_report: now, last: None }
    }

    /// The message to push, if one is due: when the interval is over and
    /// something has changed.
    pub fn report(&mut self, snapshot: StunServerSnapshot, now: u128) -> (r: Option<Vec<u8>>)
        requires
            now + old(self).every <= u128::MAX,
        ensures
            final(self).addr == old(self).addr,
            final(self).every == old(self).every,
            if now < old(self).next_report {
                *final(self) == *old(self) && r is None
            } else {
                &&& final(self).next_report == now + old(self).every
                &&& final(self).last == Some(snapshot)
                &&& if old(self).last == Some(snapshot) {
                    r is None
                } else {
                    r matches Some(m) && m@ == msg::packed(
                        Msg::Table(snapshot_entries(old(self).addr, snapshot)),
                    )
                }
            },
    {
        if now < self.next_report {
            return None;
        }
        self.next_report = now + self.every;
        if let Some(last) = self.last {
            if last == snapshot {
                return None;
            }
        }
        self.last = Some(snapshot);
        let v = snapshot_value(&self.addr, &snapshot);
        proof {
            let es = snapshot_entries(self.addr, snapshot);
            assert forall|i: int| 0 <= i < es.len() implies msg::plain((#[trigger] es[i]).0, 7)
                && msg::plain(es[i].1, 7) by {}
            msg::plain_table(es, 7);
        }
        Some(msg::encode(&v))
    }
}

// ---- laws ----

/// A report holds each count under its own name.
pub proof fn a_report_holds_each_count(addr: SocketAddr, s: StunServerSnapshot)
    ensures
        ({
            let es = snapshot_entries(addr, s);
            &&& es.len() == 8
            &&& es.contains((Msg::Text("event"@), Msg::Text("stun"@)))
            &&& es.contains((Msg::Text("addr"@), Msg::Text(addr.text())))
            &&& es.contains((Msg::Text("requests"@), Msg::Int(s.requests as int)))
            &&& es.contains((Msg::Text("responses"@), Msg::Int(s.responses as int)))
            &&& es.contains((Msg::Text("dropped"@), Msg::Int(s.dropped as int)))
            &&& es.contains((Msg::Text("bytes_in"@), Msg::Int(s.bytes_in as int)))
            &&& es.contains((Msg::Text("bytes_out"@), Msg::Int(s.bytes_out as int)))
            &&& es.contains((Msg::Text("last_activity_ms"@), Msg::Int(s.last_activity_ms as int)))
        }),
{
    let es = snapshot_entries(addr, s);
    assert(es[0] == es[0] && es[1] == es[1] && es[2] == es[2] && es[3] == es[3]);
    assert(es[4] == es[4] && es[5] == es[5] && es[6] == es[6] && es[7] == es[7]);
}

} // verus!
