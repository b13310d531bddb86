//! The rendezvous relay: who may park or claim a leg, which leg a caller
//! gets, and what is counted.

use crate::config::RelayConfig;
use crate::text;
use vstd::prelude::*;

verus! {

/// How long a leg stays parked without a caller, in seconds.
pub const PARK_IDLE_SECS: u64 = 300;

/// How often a parked leg is pinged, in seconds.
pub const PARK_PING_SECS: u64 = 25;

/// What happened on the relay.
#[derive(Debug)]
pub enum RelayEvent {
    Parked { label: String },
    Claimed { label: String, session: u64 },
    Closed { label: String, session: u64, bytes: u64 },
}

/// Which end of a session a connection is.
#[derive(Clone, Copy, Debug, PartialEq, Eq, Structural)]
pub enum Leg {
    Park,
    Caller,
}

impl Leg {
    /// The name of the leg, for the deployment's policy.
    pub fn name(self) -> (r: &'static str)
        ensures
            r@ == (match self {
                Leg::Park => "park"@,
                Leg::Caller => "caller"@,
            }),
    {
        match self {
            Leg::Park => "park",
            Leg::Caller => "caller",
        }
    }
}

/// What a request's path asks for.
#[derive(Debug)]
pub struct Route {
    pub label: String,
    pub leg: Leg,
}

/// The route in a path: `/park/<label>` or `/s/<label>`.
pub open spec fn route_in(path: Seq<char>) -> Option<(Seq<char>, Leg)> {
    match text::without(path, "/"@) {
        None => None,
        Some(rest) => match text::split_once(rest, '/') {
            None => None,
            Some((kind, label)) => if label.len() == 0 || text::first(label, '/', 0) is Some {
                None
            } else if kind == "park"@ {
                Some((label, Leg::Park))
            } else if kind == "s"@ {
                Some((label, Leg::Caller))
            } else {
                None
            },
        },
    }
}

/// The view of an optional route.
pub open spec fn opt_route(r: Option<Route>) -> Option<(Seq<char>, Leg)> {
    match r {
        Some(r) => Some((r.label@, r.leg)),
        None => None,
    }
}

impl Route {
    /// Reads the route in a path.
    pub fn parse(path: &str) -> (r: Option<Route>)
        ensures
            opt_route(r) == route_in(path@),
    {
        let rest = match text::strip(path, "/") {
            None => return None,
            Some(s) => s,
        };
        let (kind, label) = match text::cut_at_first(rest.as_str(), '/') {
            None => return None,
            Some(p) => p,
        };
        let cs = text::chars(label.as_str());
        if cs.len() == 0 || text::find(&cs, '/', 0).is_some() {
            return None;
        }
        if text::same(kind.as_str(), "park") {
            Some(Route { label, leg: Leg::Park })
        } else if text::same(kind.as_str(), "s") {
            Some(Route { label, leg: Leg::Caller })
        } else {
            None
        }
    }
}

/// The key in a query: the value of its first part that is `k=...`.
pub open spec fn key_in(query: Seq<char>) -> Option<Seq<char>>
    decreases query.len(),
{
    match text::split_once(query, '&') {
        Some((part, rest)) => match text::without(part, "k="@) {
            Some(key) => Some(key),
            None => {
                proof {
                    text::first_is_earliest(query, '&', 0);
                }
                key_in(rest)
            },
        },
        None => text::without(query, "k="@),
    }
}

/// Reads the key in a query.
pub fn query_key(query: &str) -> (r: Option<String>)
    ensures
        text::opt(r) == key_in(query@),
{
    let mut left: String = query.to_owned();
    loop
        invariant
            key_in(query@) == key_in(left@),
        decreases left@.len(),
    {
        match text::cut_at_first(left.as_str(), '&') {
            Some((part, rest)) => {
                proof {
                    text::first_is_earliest(left@, '&', 0);
                }
                if let Some(key) = text::strip(part.as_str(), "k=") {
                    return Some(key);
                }
                left = rest;
            },
            None => return text::strip(left.as_str(), "k="),
        }
    }
}

/// Whether two byte strings are equal, in a time that does not depend on
/// where they differ.
pub fn constant_time_eq(a: &[u8], b: &[u8]) -> (r: bool)
    ensures
        r == (a@ == b@),
{
    if a.len() != b.len() {
        return false;
    }
    let mut diff: u8 = 0;
    let mut i: usize = 0;
    while i < a.len()
        invariant
            i <= a.len(),
            a.len() == b.len(),
            diff == 0 <==> forall|k: int| 0 <= k < i ==> (#[trigger] a@[k]) == b@[k],
        decreases a.len() - i,
    {
        let x: u8 = a[i];
        let y: u8 = b[i];
        let next: u8 = diff | (x ^ y);
        assert(next == 0 <==> diff == 0 && x == y) by (bit_vector)
            requires
                next == diff | (x ^ y),
        ;
        proof {
            if next == 0 {
                assert forall|k: int| 0 <= k < i + 1 implies (#[trigger] a@[k]) == b@[k] by {}
            } else if diff != 0 {
                let k = choose|k: int| 0 <= k < i && a@[k] != b@[k];
                assert(a@[k] != b@[k]);
            } else {
                assert(a@[i as int] != b@[i as int]);
            }
        }
        diff = next;
        i = i + 1;
    }
    proof {
        if diff == 0 {
            assert(a@ =~= b@);
        } else {
            let k = choose|k: int| 0 <= k < i && a@[k] != b@[k];
            assert(a@[k] != b@[k]);
        }
    }
    diff == 0
}

/// The place of a label, from `i` on.
pub open spec fn label_at(config: &RelayConfig, label: Seq<char>, i: int) -> Option<int>
    decreases config.labels@.len() - i,
{
    if i < 0 || i >= config.labels@.len() {
        None
    } else if config.labels@[i].0@ == label {
        Some(i)
    } else {
        label_at(config, label, i + 1)
    }
}

/// The key that a leg of a label has to present.
pub open spec fn key_wanted(config: &RelayConfig, label: Seq<char>, leg: Leg) -> Option<Seq<char>> {
    match label_at(config, label, 0) {
        None => None,
        Some(i) => Some(
            match leg {
                Leg::Park => config.labels@[i].1.park_key@,
                Leg::Caller => config.labels@[i].1.caller_key@,
            },
        ),
    }
}

/// Whether a leg presents the key it has to. A label that is not configured,
/// an empty key and a missing one all fail.
pub open spec fn authorized(
    config: &RelayConfig,
    label: Seq<char>,
    leg: Leg,
    presented: Option<Seq<char>>,
) -> bool {
    match (key_wanted(config, label, leg), presented) {
        (Some(want), Some(k)) => want.len() > 0 && k == want,
        _ => false,
    }
}

/// Two texts whose bytes are equal are equal.
proof fn bytes_decide(a: Seq<char>, b: Seq<char>)
    ensures
        vstd::utf8::encode_utf8(a) == vstd::utf8::encode_utf8(b) <==> a == b,
{
    vstd::utf8::encode_utf8_decode_utf8(a);
    vstd::utf8::encode_utf8_decode_utf8(b);
}

/// Tells whether a leg presents the key it has to.
pub fn verify_key(config: &RelayConfig, label: &str, leg: Leg, presented: &Option<String>) -> (r:
    bool)
    ensures
        r == authorized(config, label@, leg, text::opt(*presented)),
{
    let mut i: usize = 0;
    while i < config.labels.len()
        invariant
            i <= config.labels.len(),
            label_at(config, label@, 0) == label_at(config, label@, i as int),
        decreases config.labels.len() - i,
    {
        if text::same(config.labels[i].0.as_str(), label) {
            let want: &String = match leg {
                Leg::Park => &config.labels[i].1.park_key,
                Leg::Caller => &config.labels[i].1.caller_key,
            };
            if want.as_str().is_empty() {
                return false;
            }
            return match presented {
                Some(k) => {
                    proof {
                        bytes_decide(k@, want@);
                    }
                    constant_time_eq(k.as_str().as_bytes(), want.as_str().as_bytes())
                },
                None => false,
            };
        }
        i = i + 1;
    }
    false
}

/// What a connection that is not let in is answered with, before it becomes
/// a session.
pub const UNAUTHORIZED: &'static str = "relay: unauthorized or unknown route\n";

/// The route that a request is let in on: it names one, and its key is the
/// leg's. Anything else is refused with status 403.
pub fn admitted_route(config: &RelayConfig, path: &str, query: &str) -> (r: Option<Route>)
    ensures
        opt_route(r) == (match route_in(path@) {
            Some((label, leg)) => if authorized(config, label, leg, key_in(query@)) {
                Some((label, leg))
            } else {
                None
            },
            None => None,
        }),
{
    match Route::parse(path) {
        None => None,
        Some(route) => {
            let key = query_key(query);
            if verify_key(config, route.label.as_str(), route.leg, &key) {
                Some(route)
            } else {
                None
            }
        },
    }
}

/// What asking the deployment's policy came to.
#[derive(Clone, Copy, Debug, PartialEq, Eq, Structural)]
pub enum Policy {
    /// There is no policy to ask.
    Unset,
    /// The deployment is gone, or gave no answer in time.
    Silent,
    /// It answered.
    Said(bool),
}

/// Tells whether a leg with the right key is let in: the policy decides
/// where there is one, and its silence is a no.
pub fn admitted(policy: Policy) -> (r: bool)
    ensures
        r == (policy == Policy::Unset || policy == Policy::Said(true)),
{
    match policy {
        Policy::Unset => true,
        Policy::Silent => false,
        Policy::Said(yes) => yes,
    }
}

/// How a connection is closed: a code and a reason.
pub fn refused_by_policy() -> (r: (u16, &'static str))
    ensures
        r.0 == 1008,
        r.1@ == "refused by the deployment"@,
{
    (1008, "refused by the deployment")
}

/// How a caller is closed where no leg is parked.
pub fn not_home() -> (r: (u16, &'static str))
    ensures
        r.0 == 1013,
        r.1@ == "no parked leg: the device is not home"@,
{
    (1013, "no parked leg: the device is not home")
}

// ---- the parked legs ----

/// The legs that are parked, by label, and what was counted. A leg is known
/// by a number that the caller gives it.
#[derive(Debug)]
pub struct Board {
    /// The parked legs, oldest first.
    pub parked: Vec<(String, u64)>,
    pub sessions: u64,
    pub bytes_relayed: u64,
}

/// The legs parked under a label, oldest first.
pub open spec fn legs_of(parked: Seq<(String, u64)>, label: Seq<char>) -> Seq<u64>
    decreases parked.len(),
{
    if parked.len() == 0 {
        Seq::empty()
    } else if parked.last().0@ == label {
        legs_of(parked.drop_last(), label).push(parked.last().1)
    } else {
        legs_of(parked.drop_last(), label)
    }
}

proof fn legs_after_other(parked: Seq<(String, u64)>, label: Seq<char>, i: int)
    requires
        0 <= i < parked.len(),
        parked[i].0@ != label,
    ensures
        legs_of(parked.remove(i), label) == legs_of(parked, label),
    decreases parked.len(),
{
    let rest = parked.remove(i);
    if i == parked.len() - 1 {
        assert(rest =~= parked.drop_last());
    } else {
        assert(rest.drop_last() =~= parked.drop_last().remove(i));
        assert(rest.last() == parked.last());
        legs_after_other(parked.drop_last(), label, i);
    }
}

proof fn legs_after_first(parked: Seq<(String, u64)>, label: Seq<char>, i: int)
    requires
        0 <= i < parked.len(),
        parked[i].0@ == label,
        forall|k: int| 0 <= k < i ==> (#[trigger] parked[k]).0@ != label,
    ensures
        legs_of(parked, label).len() > 0,
        legs_of(parked, label)[0] == parked[i].1,
        legs_of(parked.remove(i), label) == legs_of(parked, label).subrange(
            1,
            legs_of(parked, label).len() as int,
        ),
    decreases parked.len(),
{
    let rest = parked.remove(i);
    if i == parked.len() - 1 {
        assert(rest =~= parked.drop_last());
        no_legs(parked.drop_last(), label);
        let one = legs_of(parked, label);
        assert(one =~= seq![parked[i].1]);
        assert(one.subrange(1, 1) =~= Seq::empty());
    } else {
        assert(rest.drop_last() =~= parked.drop_last().remove(i));
        assert(rest.last() == parked.last());
        let head = parked.drop_last();
        assert forall|k: int| 0 <= k < i implies (#[trigger] head[k]).0@ != label by {
            assert(head[k] == parked[k]);
        }
        legs_after_first(head, label, i);
        let before = legs_of(head, label);
        if parked.last().0@ == label {
            assert(before.push(parked.last().1).subrange(1, (before.len() + 1) as int) =~= before.subrange(
                1,
                before.len() as int,
            ).push(parked.last().1));
        }
    }
}

proof fn no_legs(parked: Seq<(String, u64)>, label: Seq<char>)
    requires
        forall|k: int| 0 <= k < parked.len() ==> (#[trigger] parked[k]).0@ != label,
    ensures
        legs_of(parked, label) == Seq::<u64>::empty(),
    decreases parked.len(),
{
    if parked.len() > 0 {
        let head = parked.drop_last();
        assert forall|k: int| 0 <= k < head.len() implies (#[trigger] head[k]).0@ != label by {
            assert(head[k] == parked[k]);
        }
        no_legs(head, label);
    }
}

/// The parked legs without those that are closed, in order.
pub open spec fn open_legs(parked: Seq<(String, u64)>, label: Seq<char>, closed: Seq<u64>) -> Seq<
    (String, u64),
>
    decreases parked.len(),
{
    if parked.len() == 0 {
        Seq::empty()
    } else if parked.last().0@ == label && closed.contains(parked.last().1) {
        open_legs(parked.drop_last(), label, closed)
    } else {
        open_legs(parked.drop_last(), label, closed).push(parked.last())
    }
}

impl Board {
    /// A relay on which nothing has happened.
    pub fn new() -> (r: Board)
        ensures
            r.parked@.len() == 0,
            r.sessions == 0,
            r.bytes_relayed == 0,
    {
        Board { parked: Vec::new(), sessions: 0, bytes_relayed: 0 }
    }

    /// Parks a leg under a label, behind those that are parked already.
    pub fn park(&mut self, label: &str, leg: u64) -> (r: RelayEvent)
        ensures
            r matches RelayEvent::Parked { label: l } && l@ == label@,
            final(self).parked@.len() == old(self).parked@.len() + 1,
            final(self).parked@.drop_last() == old(self).parked@,
            final(self).parked@.last().0@ == label@,
            final(self).parked@.last().1 == leg,
            legs_of(final(self).parked@, label@) == legs_of(old(self).parked@, label@).push(leg),
            forall|other: Seq<char>|
                other != label@ ==> legs_of(final(self).parked@, other) == legs_of(
                    old(self).parked@,
                    other,
                ),
            final(self).sessions == old(self).sessions,
            final(self).bytes_relayed == old(self).bytes_relayed,
    {
        self.parked.push((label.to_owned(), leg));
        assert(self.parked@.drop_last() =~= old(self).parked@);
        RelayEvent::Parked { label: label.to_owned() }
    }

    /// Gives a caller the oldest leg parked under a label, and the session
    /// its number. Where none is parked the device is not home.
    pub fn claim(&mut self, label: &str) -> (r: Option<(u64, u64)>)
        requires
            old(self).sessions < u64::MAX,
        ensures
            final(self).bytes_relayed == old(self).bytes_relayed,
            match r {
                Some((leg, session)) => {
                    let legs = legs_of(old(self).parked@, label@);
                    &&& legs.len() > 0
                    &&& leg == legs[0]
                    &&& session == old(self).sessions + 1
                    &&& final(self).sessions == session
                    &&& legs_of(final(self).parked@, label@) == legs.subrange(1, legs.len() as int)
                    &&& forall|other: Seq<char>|
                        other != label@ ==> legs_of(final(self).parked@, other) == legs_of(
                            old(self).parked@,
                            other,
                        )
                },
                None => {
                    &&& legs_of(old(self).parked@, label@).len() == 0
                    &&& *final(self) == *old(self)
                },
            },
    {
        let ghost all = self.parked@;
        let mut i: usize = 0;
        while i < self.parked.len()
            invariant
                i <= self.parked.len(),
                *self == *old(self),
                all == self.parked@,
                forall|k: int| 0 <= k < i ==> (#[trigger] all[k]).0@ != label@,
            ensures
                i < self.parked.len() ==> all[i as int].0@ == label@,
            decreases self.parked.len() - i,
        {
            if text::same(self.parked[i].0.as_str(), label) {
                break;
            }
            i = i + 1;
        }
        if i >= self.parked.len() {
            proof {
                no_legs(all, label@);
            }
            return None;
        }
        proof {
            legs_after_first(all, label@, i as int);
            assert forall|other: Seq<char>| other != label@ implies legs_of(
                all.remove(i as int),
                other,
            ) == legs_of(all, other) by {
                legs_after_other(all, other, i as int);
            }
        }
        let (_, leg) = self.parked.remove(i);
        self.sessions = self.sessions + 1;
        Some((leg, self.sessions))
    }

    /// Drops the legs of a label that are closed; the others keep their
    /// order.
    pub fn forget(&mut self, label: &str, closed: &Vec<u64>)
        ensures
            final(self).parked@ == open_legs(old(self).parked@, label@, closed@),
            final(self).sessions == old(self).sessions,
            final(self).bytes_relayed == old(self).bytes_relayed,
    {
        let ghost all = self.parked@;
        let mut kept: Vec<(String, u64)> = Vec::new();
        let mut done: Ghost<int> = Ghost(0);
        assert(all.subrange(0, 0) =~= Seq::empty());
        while self.parked.len() > 0
            invariant
                0 <= done@ <= all.len(),
                self.parked@ == all.subrange(done@, all.len() as int),
                kept@ == open_legs(all.subrange(0, done@), label@, closed@),
                self.sessions == old(self).sessions,
                self.bytes_relayed == old(self).bytes_relayed,
            decreases self.parked.len(),
        {
            let ghost now = all.subrange(0, done@ + 1);
            assert(now.drop_last() == all.subrange(0, done@));
            let one = self.parked.remove(0);
            assert(one == all[done@]);
            assert(self.parked@ =~= all.subrange(done@ + 1, all.len() as int));
            let mut gone: bool = false;
            if text::same(one.0.as_str(), label) {
                let mut k: usize = 0;
                while k < closed.len()
                    invariant
                        k <= closed.len(),
                        gone <==> exists|j: int| 0 <= j < k && closed@[j] == one.1,
                    decreases closed.len() - k,
                {
                    if closed[k] == one.1 {
                        gone = true;
                    }
                    k = k + 1;
                }
            }
            if !gone {
                kept.push(one);
            }
            proof {
                done@ = done@ + 1;
            }
        }
        assert(all.subrange(0, all.len() as int) == all);
        self.parked = kept;
    }

    /// Counts bytes that passed, for the relay and for a session. Returns
    /// what the session has passed so far.
    pub fn count(&mut self, session_bytes: u64, n: u64) -> (r: u64)
        requires
            old(self).bytes_relayed + n <= u64::MAX,
            session_bytes + n <= u64::MAX,
        ensures
            r == session_bytes + n,
            final(self).bytes_relayed == old(self).bytes_relayed + n,
            final(self).parked == old(self).parked,
            final(self).sessions == old(self).sessions,
    {
        self.bytes_relayed = self.bytes_relayed + n;
        session_bytes + n
    }

    /// How many bytes the relay has passed.
    pub fn bytes_relayed(&self) -> (r: u64)
        ensures
            r == self.bytes_relayed,
    {
        self.bytes_relayed
    }
}

// ---- the two ends of a session ----

/// What happened to a parked leg.
#[derive(Clone, Copy, Debug, PartialEq, Eq, Structural)]
pub enum ParkEvent {
    /// The device sent bytes.
    FromDevice,
    /// The device sent a ping.
    DevicePing,
    /// The device sent something else.
    DeviceOther,
    /// The device's connection is over.
    DeviceGone,
    /// The caller sent bytes.
    FromCaller,
    /// The caller hung up.
    CallerGone,
    /// It is time for a ping.
    PingDue,
    /// It has been parked for as long as it may be.
    IdleOut,
}

/// What is done with a leg.
#[derive(Clone, Copy, Debug, PartialEq, Eq, Structural)]
pub enum LegAct {
    /// Hand the bytes to the caller.
    ToCaller,
    /// Hand the bytes to the device.
    ToDevice,
    /// Answer the ping.
    Pong,
    /// Send a ping.
    Ping,
    /// Nothing.
    Wait,
    /// End it.
    End,
}

/// What is done with a parked leg, and whether a session is live on it
/// afterwards: the first byte either way makes it so, and then it is neither
/// pinged nor idled out.
pub open spec fn parked_next(claimed: bool, e: ParkEvent) -> (bool, LegAct) {
    match e {
        ParkEvent::FromDevice => (true, LegAct::ToCaller),
        ParkEvent::DevicePing => (claimed, LegAct::Pong),
        ParkEvent::DeviceOther => (claimed, LegAct::Wait),
        ParkEvent::DeviceGone => (claimed, LegAct::End),
        ParkEvent::FromCaller => (true, LegAct::ToDevice),
        ParkEvent::CallerGone => (claimed, LegAct::End),
        ParkEvent::PingDue => (
            claimed,
            if claimed {
                LegAct::Wait
            } else {
                LegAct::Ping
            },
        ),
        ParkEvent::IdleOut => (
            claimed,
            if claimed {
                LegAct::Wait
            } else {
                LegAct::End
            },
        ),
    }
}

/// What is done with a parked leg.
pub fn park_step(claimed: bool, e: ParkEvent) -> (r: (bool, LegAct))
    ensures
        r == parked_next(claimed, e),
{
    match e {
        ParkEvent::FromDevice => (true, LegAct::ToCaller),
        ParkEvent::DevicePing => (claimed, LegAct::Pong),
        ParkEvent::DeviceOther => (claimed, LegAct::Wait),
        ParkEvent::DeviceGone => (claimed, LegAct::End),
        ParkEvent::FromCaller => (true, LegAct::ToDevice),
        ParkEvent::CallerGone => (claimed, LegAct::End),
        ParkEvent::PingDue => if claimed {
            (true, LegAct::Wait)
        } else {
            (false, LegAct::Ping)
        },
        ParkEvent::IdleOut => if claimed {
            (true, LegAct::Wait)
        } else {
            (false, LegAct::End)
        },
    }
}

/// What happened to a claimed leg.
#[derive(Clone, Copy, Debug, PartialEq, Eq, Structural)]
pub enum ClaimEvent {
    /// The caller sent so many bytes.
    FromCaller(u64),
    /// The caller sent a ping.
    CallerPing,
    /// The caller sent something else.
    CallerOther,
    /// The caller's connection is over.
    CallerGone,
    /// The device sent so many bytes.
    FromDevice(u64),
    /// The device's leg closed.
    DeviceGone,
}

/// What is done with a claimed leg, and how many bytes are counted: those of
/// either direction, once each.
pub open spec fn claimed_next(e: ClaimEvent) -> (u64, LegAct) {
    match e {
        ClaimEvent::FromCaller(n) => (n, LegAct::ToDevice),
        ClaimEvent::CallerPing => (0, LegAct::Pong),
        ClaimEvent::CallerOther => (0, LegAct::Wait),
        ClaimEvent::CallerGone => (0, LegAct::End),
        ClaimEvent::FromDevice(n) => (n, LegAct::ToCaller),
        ClaimEvent::DeviceGone => (0, LegAct::End),
    }
}

/// What is done with a claimed leg.
pub fn claim_step(e: ClaimEvent) -> (r: (u64, LegAct))
    ensures
        r == claimed_next(e),
{
    match e {
        ClaimEvent::FromCaller(n) => (n, LegAct::ToDevice),
        ClaimEvent::CallerPing => (0, LegAct::Pong),
        ClaimEvent::CallerOther => (0, LegAct::Wait),
        ClaimEvent::CallerGone => (0, LegAct::End),
        ClaimEvent::FromDevice(n) => (n, LegAct::ToCaller),
        ClaimEvent::DeviceGone => (0, LegAct::End),
    }
}

// ---- laws ----

/// A configured empty key is a closed door: whatever is presented, it never
/// opens.
pub proof fn an_empty_key_never_opens(
    config: &RelayConfig,
    label: Seq<char>,
    leg: Leg,
    presented: Option<Seq<char>>,
)
    requires
        key_wanted(config, label, leg) == Some(Seq::<char>::empty()),
    ensures
        !authorized(config, label, leg, presented),
{
}

/// A label that is not configured, or a key that is not presented, opens
/// nothing.
pub proof fn nothing_opens_unasked(config: &RelayConfig, label: Seq<char>, leg: Leg)
    ensures
        !authorized(config, label, leg, None),
        key_wanted(config, label, leg) is None ==> forall|p: Option<Seq<char>>|
            !authorized(config, label, leg, p),
{
}

/// The path of a label's leg is read back as that leg, for every label that
/// can stand in a path.
pub proof fn a_route_reads_back(label: Seq<char>)
    requires
        label.len() > 0,
        text::first(label, '/', 0) is None,
    ensures
        route_in("/park/"@ + label) == Some((label, Leg::Park)),
        route_in("/s/"@ + label) == Some((label, Leg::Caller)),
{
    reveal_strlit("/park/");
    reveal_strlit("/s/");
    reveal_strlit("/");
    reveal_strlit("park");
    reveal_strlit("s");
    reveal_with_fuel(text::first, 6);
    let p = "/park/"@ + label;
    assert(p.subrange(0, 1) =~= "/"@);
    let rest = p.subrange(1, p.len() as int);
    assert(rest.subrange(0, 4) =~= "park"@);
    assert(rest.subrange(5, rest.len() as int) =~= label);
    assert(rest[0] == 'p' && rest[1] == 'a' && rest[2] == 'r' && rest[3] == 'k' && rest[4] == '/');
    assert(text::first(rest, '/', 0) == Some(4int));
    let q = "/s/"@ + label;
    assert(q.subrange(0, 1) =~= "/"@);
    let tail = q.subrange(1, q.len() as int);
    assert(tail.subrange(0, 1) =~= "s"@);
    assert(tail.subrange(2, tail.len() as int) =~= label);
    assert(tail[0] == 's' && tail[1] == '/');
    assert(text::first(tail, '/', 0) == Some(1int));
    assert("park"@.len() != "s"@.len());
}

/// Once a session is live on a leg, it is never pinged nor idled out.
pub proof fn a_live_leg_is_left_alone(e: ParkEvent)
    ensures
        parked_next(true, e).0,
        parked_next(true, e).1 != LegAct::Ping,
        e == ParkEvent::IdleOut ==> parked_next(true, e).1 == LegAct::Wait,
{
}

proof fn label_is_first(config: &RelayConfig, label: Seq<char>, from: int)
    requires
        0 <= from <= config.labels@.len(),
    ensures
        match label_at(config, label, from) {
            Some(i) => from <= i < config.labels@.len() && config.labels@[i].0@ == label
                && forall|k: int| from <= k < i ==> (#[trigger] config.labels@[k]).0@ != label,
            None => forall|k: int|
                from <= k < config.labels@.len() ==> (#[trigger] config.labels@[k]).0@ != label,
        },
    decreases config.labels@.len() - from,
{
    if from < config.labels@.len() && config.labels@[from].0@ != label {
        label_is_first(config, label, from + 1);
    }
}

/// A leg is let in by its own key and by no other: the device by the label's
/// park key, the caller by its caller key.
pub proof fn a_leg_is_let_in_by_its_own_key(
    config: &RelayConfig,
    label: Seq<char>,
    presented: Option<Seq<char>>,
    i: int,
)
    requires
        0 <= i < config.labels@.len(),
        config.labels@[i].0@ == label,
        forall|k: int| 0 <= k < i ==> (#[trigger] config.labels@[k]).0@ != label,
    ensures
        authorized(config, label, Leg::Park, presented) <==> presented == Some(
            config.labels@[i].1.park_key@,
        ) && config.labels@[i].1.park_key@.len() > 0,
        authorized(config, label, Leg::Caller, presented) <==> presented == Some(
            config.labels@[i].1.caller_key@,
        ) && config.labels@[i].1.caller_key@.len() > 0,
{
    label_is_first(config, label, 0);
}

/// Nobody is let in under a label that is not configured.
pub proof fn an_unknown_label_lets_nobody_in(
    config: &RelayConfig,
    label: Seq<char>,
    leg: Leg,
    presented: Option<Seq<char>>,
)
    requires
        forall|k: int| 0 <= k < config.labels@.len() ==> (#[trigger] config.labels@[k]).0@ != label,
    ensures
        !authorized(config, label, leg, presented),
{
    label_is_first(config, label, 0);
}

/// Only the path of a leg is one: the two ways to write it, with a label that
/// holds no slash.
pub proof fn only_the_path_of_a_leg_is_a_route(path: Seq<char>)
    ensures
        route_in(path) matches Some((label, leg)) ==> label.len() > 0 && !label.contains('/')
            && path == (match leg {
            Leg::Park => "/park/"@,
            Leg::Caller => "/s/"@,
        }) + label,
{
    if let Some((label, leg)) = route_in(path) {
        reveal_strlit("/");
        reveal_strlit("/park/");
        reveal_strlit("/s/");
        reveal_strlit("park");
        reveal_strlit("s");
        let rest = text::without(path, "/"@)->0;
        text::what_is_stripped_is_the_beginning("/"@, rest, path);
        text::a_cut_loses_the_character_alone(rest, '/');
        text::first_is_earliest(label, '/', 0);
        assert(path =~= (match leg {
            Leg::Park => "/park/"@,
            Leg::Caller => "/s/"@,
        }) + label);
    }
}

/// The key of a query is the first that is presented, up to the next part;
/// parts before it that are none are passed over.
pub proof fn the_first_key_is_the_key(key: Seq<char>, part: Seq<char>, rest: Seq<char>)
    requires
        !key.contains('&'),
        !part.contains('&'),
        !text::begins(part, "k="@),
    ensures
        key_in("k="@ + key) == Some(key),
        key_in("k="@ + key + "&"@ + rest) == Some(key),
        key_in(part + "&"@ + rest) == key_in(rest),
        key_in(part) is None,
{
    reveal_strlit("k=");
    reveal_strlit("&");
    let one = "k="@ + key;
    assert(!one.contains('&')) by {
        if one.contains('&') {
            let i = choose|i: int| 0 <= i < one.len() && one[i] == '&';
            assert(i >= 2);
            assert(key[i - 2] == '&');
        }
    }
    text::what_is_stripped_is_the_beginning("k="@, key, one);
    text::a_cut_loses_the_character_alone(one, '&');
    text::a_cut_loses_the_character_alone(part, '&');
    let a = one + "&"@ + rest;
    parted(one, rest);
    let b = part + "&"@ + rest;
    parted(part, rest);
    assert(a =~= one + seq!['&'] + rest);
    assert(b =~= part + seq!['&'] + rest);
    reveal_with_fuel(key_in, 2);
}

proof fn parted(a: Seq<char>, b: Seq<char>)
    requires
        !a.contains('&'),
    ensures
        text::split_once(a + seq!['&'] + b, '&') == Some((a, b)),
{
    let s = a + seq!['&'] + b;
    let n = a.len() as int;
    text::first_is_earliest(s, '&', 0);
    assert(s[n] == '&');
    assert forall|k: int| 0 <= k < n implies s[k] != '&' by {
        assert(s[k] == a[k]);
        assert(a.contains(a[k]));
    }
    assert(s.subrange(0, n) =~= a);
    assert(s.subrange(n + 1, s.len() as int) =~= b);
}

/// The legs of a label are exactly those parked under it, oldest first.
pub proof fn a_label_has_its_own_legs(parked: Seq<(String, u64)>, label: Seq<char>)
    ensures
        legs_of(parked, label) == parked.filter(|p: (String, u64)| p.0@ == label).map_values(
            |p: (String, u64)| p.1,
        ),
    decreases parked.len(),
{
    reveal(Seq::filter);
    let f = |p: (String, u64)| p.0@ == label;
    let g = |p: (String, u64)| p.1;
    if parked.len() > 0 {
        let rest = parked.drop_last();
        a_label_has_its_own_legs(rest, label);
        if parked.last().0@ == label {
            assert(parked.filter(f).map_values(g) =~= rest.filter(f).map_values(g).push(
                parked.last().1,
            ));
        }
    } else {
        assert(parked.filter(f).map_values(g) =~= Seq::empty());
    }
}

/// A leg that closed is dropped from its label, and no other leg is.
pub proof fn only_a_closed_leg_is_dropped(
    parked: Seq<(String, u64)>,
    label: Seq<char>,
    closed: Seq<u64>,
)
    ensures
        open_legs(parked, label, closed) == parked.filter(
            |p: (String, u64)| p.0@ != label || !closed.contains(p.1),
        ),
    decreases parked.len(),
{
    reveal(Seq::filter);
    if parked.len() > 0 {
        only_a_closed_leg_is_dropped(parked.drop_last(), label, closed);
    }
}

/// Bytes go to the other end and make a session live; a ping is answered; an
/// end that is gone ends the leg; and a leg that nobody has claimed is pinged,
/// and let go when it has been idle for long.
pub proof fn bytes_go_to_the_other_end(claimed: bool, n: u64)
    ensures
        parked_next(claimed, ParkEvent::FromDevice) == (true, LegAct::ToCaller),
        parked_next(claimed, ParkEvent::FromCaller) == (true, LegAct::ToDevice),
        parked_next(claimed, ParkEvent::DevicePing) == (claimed, LegAct::Pong),
        parked_next(claimed, ParkEvent::DeviceGone).1 == LegAct::End,
        parked_next(claimed, ParkEvent::CallerGone).1 == LegAct::End,
        parked_next(claimed, ParkEvent::DeviceOther) == (claimed, LegAct::Wait),
        parked_next(false, ParkEvent::PingDue) == (false, LegAct::Ping),
        parked_next(false, ParkEvent::IdleOut) == (false, LegAct::End),
        claimed_next(ClaimEvent::FromCaller(n)) == (n, LegAct::ToDevice),
        claimed_next(ClaimEvent::FromDevice(n)) == (n, LegAct::ToCaller),
        claimed_next(ClaimEvent::CallerPing) == (0u64, LegAct::Pong),
        claimed_next(ClaimEvent::CallerOther) == (0u64, LegAct::Wait),
        claimed_next(ClaimEvent::CallerGone) == (0u64, LegAct::End),
        claimed_next(ClaimEvent::DeviceGone) == (0u64, LegAct::End),
{
}

/// A parked leg is asked for a sign of life every 25 seconds and given up
/// after 300, and a leg that is not let in is told the same whether its key is
/// wrong or its route unknown.
pub proof fn how_long_a_leg_is_parked()
    ensures
        PARK_PING_SECS == 25,
        PARK_IDLE_SECS == 300,
        UNAUTHORIZED@ == "relay: unauthorized or unknown route\n"@,
{
}

} // verus!
