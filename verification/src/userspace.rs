//! The stack inside this process: its address, what it binds and exposes,
//! the ports it connects from, and what becomes of each connection.

use crate::addr::{IpAddr, SocketAddr};
use crate::text;
use ipnetwork::IpNetwork;
use vstd::prelude::*;

verus! {

/// The send and the receive buffer of a socket, and the most that one read
/// moves.
pub const BUFFER: usize = 65_536;

/// The first port that a connection is made from.
pub const FIRST_PORT: u16 = 49_152;

/// How long the driver sleeps when the stack names no moment, in seconds.
pub const IDLE_SECS: u64 = 60;

/// An address, and the length of its network's prefix.
#[derive(Clone, Copy, Debug, PartialEq, Eq, Structural)]
pub struct Network {
    pub ip: IpAddr,
    pub prefix: u8,
}

/// The octets of the address and the length of the prefix that `ipnetwork`
/// reads from a text, `None` where it reads none.
pub uninterp spec fn network_in(s: Seq<char>) -> Option<(Seq<u8>, u8)>;

/// `IpNetwork::from_str`: what it reads depends on the text alone, an address
/// has four octets or sixteen, a prefix is never longer than the address, and
/// the error names the text.
#[verifier::external_body]
fn read_network(s: &str) -> (r: Result<(Vec<u8>, u8), String>)
    ensures
        match network_in(s@) {
            Some((octets, prefix)) => r matches Ok((v, p)) && v@ == octets && p == prefix,
            None => r matches Err(why) && why@ == "invalid address: "@ + s@,
        },
        r matches Ok((v, p)) ==> (v@.len() == 4 && p <= 32) || (v@.len() == 16 && p <= 128),
{
    match s.parse::<IpNetwork>() {
        Ok(IpNetwork::V4(n)) => Ok((n.ip().octets().to_vec(), n.prefix())),
        Ok(IpNetwork::V6(n)) => Ok((n.ip().octets().to_vec(), n.prefix())),
        Err(e) => Err(e.to_string()),
    }
}

/// The number that two octets make, the higher one first.
pub open spec fn group(octets: Seq<u8>, i: int) -> u16 {
    (octets[2 * i] * 256 + octets[2 * i + 1]) as u16
}

/// The address that four or sixteen octets make.
pub open spec fn address(octets: Seq<u8>) -> IpAddr {
    if octets.len() == 4 {
        IpAddr::V4(octets[0], octets[1], octets[2], octets[3])
    } else {
        IpAddr::V6(
            group(octets, 0),
            group(octets, 1),
            group(octets, 2),
            group(octets, 3),
            group(octets, 4),
            group(octets, 5),
            group(octets, 6),
            group(octets, 7),
        )
    }
}

fn group_at(octets: &Vec<u8>, i: usize) -> (r: u16)
    requires
        octets@.len() == 16,
        i < 8,
    ensures
        r == group(octets@, i as int),
{
    octets[2 * i] as u16 * 256 + octets[2 * i + 1] as u16
}

fn address_of(octets: &Vec<u8>) -> (r: IpAddr)
    requires
        octets@.len() == 4 || octets@.len() == 16,
    ensures
        r == address(octets@),
{
    if octets.len() == 4 {
        IpAddr::V4(octets[0], octets[1], octets[2], octets[3])
    } else {
        IpAddr::V6(
            group_at(octets, 0),
            group_at(octets, 1),
            group_at(octets, 2),
            group_at(octets, 3),
            group_at(octets, 4),
            group_at(octets, 5),
            group_at(octets, 6),
            group_at(octets, 7),
        )
    }
}

/// The address of the stack, from the block. A block for a stack in this
/// process has to name one.
pub fn own_network(given: Option<&str>) -> (r: Result<Network, String>)
    ensures
        match given {
            None => r matches Err(why) && why@
                == "wireguard: mode = \"userspace\" needs an `address`"@,
            Some(s) => match network_in(s@) {
                Some((octets, prefix)) => r == Ok::<Network, String>(
                    Network { ip: address(octets), prefix },
                ),
                None => r matches Err(why) && why@ == "wireguard.address: invalid address: "@ + s@,
            },
        },
{
    let s: &str = match given {
        None => return Err("wireguard: mode = \"userspace\" needs an `address`".to_owned()),
        Some(s) => s,
    };
    proof {
        reveal_strlit("wireguard.address: ");
        reveal_strlit("invalid address: ");
        reveal_strlit("wireguard.address: invalid address: ");
    }
    match read_network(s) {
        Ok((octets, prefix)) => Ok(Network { ip: address_of(&octets), prefix }),
        Err(e) => {
            let why = text::join2("wireguard.address: ", e.as_str());
            assert(why@ =~= "wireguard.address: invalid address: "@ + s@);
            Err(why)
        },
    }
}

// ---- what is bound and exposed ----

/// A local address that is forwarded into the tunnel, as the block has it.
#[derive(Debug)]
pub struct Forward {
    pub bind: String,
    /// The target, where it reads as an address and a port.
    pub to: Option<SocketAddr>,
}

/// An address of the tunnel that is exposed, as the block has it.
#[derive(Debug)]
pub struct Expose {
    /// The address in the tunnel, where it reads as an address and a port.
    pub tunnel: Option<SocketAddr>,
    pub to: String,
}

/// What binding and reading entry `i` of the forwards comes to. The address
/// is bound first.
pub fn forward_at(i: usize, entry: &Forward, bound: &Result<(), String>) -> (r: Result<
    SocketAddr,
    String,
>)
    ensures
        match bound {
            Err(e) => r matches Err(why) && why@ == "wireguard.forward["@ + text::dec(i as nat)
                + "].bind: cannot bind "@ + entry.bind@ + ": "@ + e@,
            Ok(_) => match entry.to {
                Some(to) => r == Ok::<SocketAddr, String>(to),
                None => r matches Err(why) && why@ == "wireguard.forward["@ + text::dec(i as nat)
                    + "].to: not an ip:port"@,
            },
        },
{
    let n = text::decimal(i as u64);
    if let Err(e) = bound {
        let mut why = text::join4(
            "wireguard.forward[",
            n.as_str(),
            "].bind: cannot bind ",
            entry.bind.as_str(),
        );
        why.append(": ");
        why.append(e.as_str());
        return Err(why);
    }
    match entry.to {
        Some(to) => Ok(to),
        None => Err(text::join3("wireguard.forward[", n.as_str(), "].to: not an ip:port")),
    }
}

/// The place of the first entry of the exposes, from `i` on, whose address
/// does not read.
pub open spec fn unread(exposes: Seq<Expose>, i: int) -> Option<int>
    decreases exposes.len() - i,
{
    if i < 0 || i >= exposes.len() {
        None
    } else if exposes[i].tunnel is None {
        Some(i)
    } else {
        unread(exposes, i + 1)
    }
}

/// Reads every entry of the exposes.
pub fn read_exposes(exposes: &Vec<Expose>) -> (r: Result<Vec<SocketAddr>, String>)
    ensures
        match unread(exposes@, 0) {
            Some(i) => r matches Err(why) && why@ == "wireguard.expose["@ + text::dec(i as nat)
                + "].tunnel: not an ip:port"@,
            None => r matches Ok(all) && all@.len() == exposes@.len() && forall|i: int|
                0 <= i < all@.len() ==> Some(#[trigger] all@[i]) == exposes@[i].tunnel,
        },
{
    let mut all: Vec<SocketAddr> = Vec::new();
    let mut i: usize = 0;
    while i < exposes.len()
        invariant
            i <= exposes.len(),
            all@.len() == i,
            unread(exposes@, 0) == unread(exposes@, i as int),
            forall|k: int| 0 <= k < i ==> Some(#[trigger] all@[k]) == exposes@[k].tunnel,
        decreases exposes.len() - i,
    {
        match exposes[i].tunnel {
            Some(a) => all.push(a),
            None => {
                return Err(
                    text::join3(
                        "wireguard.expose[",
                        text::decimal(i as u64).as_str(),
                        "].tunnel: not an ip:port",
                    ),
                );
            },
        }
        i = i + 1;
    }
    Ok(all)
}

// ---- ports ----

/// A number that differs from one start to the next.
pub fn seed(nanos: u64, process: u32) -> (r: u64)
    ensures
        r == nanos ^ ((process as u64) << 32),
{
    nanos ^ ((process as u64) << 32)
}

/// The ports that connections are made from.
#[derive(Debug)]
pub struct Ports {
    pub next: u16,
}

impl Ports {
    /// Whether the next port is one of those that connections are made from.
    pub open spec fn wf(&self) -> bool {
        FIRST_PORT <= self.next
    }

    /// Begins at a port that the seed chooses.
    pub fn new(seed: u64) -> (r: Ports)
        ensures
            r.wf(),
            r.next == FIRST_PORT + seed % 16_384,
    {
        Ports { next: FIRST_PORT + (seed % 16_384) as u16 }
    }

    /// Takes the next port. Behind the last comes the first again.
    pub fn take(&mut self) -> (r: u16)
        requires
            old(self).wf(),
        ensures
            final(self).wf(),
            r == old(self).next,
            final(self).next == (if old(self).next == u16::MAX {
                FIRST_PORT as int
            } else {
                old(self).next + 1
            }),
    {
        let port: u16 = self.next;
        self.next =
        if port == u16::MAX {
            FIRST_PORT
        } else {
            port + 1
        };
        port
    }
}

// ---- sockets ----

/// Where a socket stands.
#[derive(Clone, Copy, Debug, PartialEq, Eq, Structural)]
pub enum Tcp {
    Closed,
    Listen,
    SynSent,
    SynReceived,
    Established,
    FinWait1,
    FinWait2,
    CloseWait,
    Closing,
    LastAck,
    TimeWait,
}

/// What a handshake has come to: `None` while it goes on.
pub fn established(state: Tcp) -> (r: Option<Result<(), &'static str>>)
    ensures
        match state {
            Tcp::Established => r matches Some(Ok(_)),
            Tcp::SynSent | Tcp::SynReceived => r is None,
            Tcp::Listen => r matches Some(Err(why)) && why@
                == "the handshake was reset before it completed"@,
            _ => r matches Some(Err(why)) && why@ == "refused"@,
        },
{
    match state {
        Tcp::Established => Some(Ok(())),
        Tcp::SynSent => None,
        Tcp::SynReceived => None,
        Tcp::Listen => Some(Err("the handshake was reset before it completed")),
        _ => Some(Err("refused")),
    }
}

/// What a leg does with a socket now.
#[derive(Clone, Copy, Debug, PartialEq, Eq, Structural)]
pub enum Turn {
    /// Move bytes.
    Move,
    /// Nothing will be moved any more.
    Over,
    /// Wait until the socket changes.
    Wait,
}

/// Whether bytes go out now: only where the socket takes them.
pub fn may_send(may: bool, can: bool) -> (r: Turn)
    ensures
        r == (if !may {
            Turn::Over
        } else if can {
            Turn::Move
        } else {
            Turn::Wait
        }),
{
    if !may {
        Turn::Over
    } else if can {
        Turn::Move
    } else {
        Turn::Wait
    }
}

/// Whether bytes come in now: what has come is taken before the end is
/// seen.
pub fn may_receive(may: bool, can: bool) -> (r: Turn)
    ensures
        r == (if can {
            Turn::Move
        } else if !may {
            Turn::Over
        } else {
            Turn::Wait
        }),
{
    if can {
        Turn::Move
    } else if !may {
        Turn::Over
    } else {
        Turn::Wait
    }
}

/// Whether a released socket has nothing left to say. `remote` is whether it
/// still knows its far end.
pub open spec fn is_done(state: Tcp, remote: bool) -> bool {
    state == Tcp::TimeWait || (state == Tcp::Closed && !remote)
}

/// A released socket, and where it stands.
#[derive(Clone, Copy, Debug, PartialEq, Eq, Structural)]
pub struct Released {
    pub handle: u64,
    pub state: Tcp,
    pub remote: bool,
}

/// The handles of the released sockets that are done, or those that are not,
/// in order.
pub open spec fn handles(all: Seq<Released>, done: bool) -> Seq<u64>
    decreases all.len(),
{
    if all.len() == 0 {
        Seq::empty()
    } else if is_done(all.last().state, all.last().remote) == done {
        handles(all.drop_last(), done).push(all.last().handle)
    } else {
        handles(all.drop_last(), done)
    }
}

/// Parts the released sockets into those that are kept and those that are
/// removed. One with something still to send is kept.
pub fn sweep(all: &Vec<Released>) -> (r: (Vec<u64>, Vec<u64>))
    ensures
        r.0@ == handles(all@, false),
        r.1@ == handles(all@, true),
{
    let mut kept: Vec<u64> = Vec::new();
    let mut removed: Vec<u64> = Vec::new();
    let mut i: usize = 0;
    assert(all@.subrange(0, all@.len() as int) =~= all@);
    while i < all.len()
        invariant
            i <= all.len(),
            kept@ == handles(all@.subrange(0, i as int), false),
            removed@ == handles(all@.subrange(0, i as int), true),
            all@.subrange(0, all@.len() as int) == all@,
        decreases all.len() - i,
    {
        let one = all[i];
        let ghost now = all@.subrange(0, i + 1);
        assert(now.drop_last() =~= all@.subrange(0, i as int));
        let done: bool = one.state == Tcp::TimeWait || (one.state == Tcp::Closed && !one.remote);
        if done {
            removed.push(one.handle);
        } else {
            kept.push(one.handle);
        }
        i = i + 1;
    }
    (kept, removed)
}

// ---- legs ----

/// What dialing came to.
#[derive(Debug)]
pub enum Dialed {
    /// The handshake was made.
    Made,
    /// It could not be begun.
    Unopened(String),
    /// It was answered with a refusal.
    Refused(&'static str),
    /// It was not answered in time.
    Silent,
}

/// What a leg does next.
#[derive(Debug)]
pub enum LegAct {
    /// Move bytes both ways.
    Pump,
    /// End the connection, reset first where `abort` says so, released where
    /// there is a socket, and reported where there is a reason.
    End { abort: bool, release: bool, reason: Option<String> },
}

/// What a connection from the local side does once its dial has come to
/// something. The local side sees it closed at once, never half open.
pub fn forward_leg(dialed: Dialed, to: &str, timeout_secs: u64) -> (r: LegAct)
    ensures
        match dialed {
            Dialed::Made => r is Pump,
            Dialed::Unopened(e) => r matches LegAct::End { abort, release, reason } && !abort
                && !release && (reason matches Some(why) && why@ == e@),
            Dialed::Refused(w) => r matches LegAct::End { abort, release, reason } && !abort
                && release && (reason matches Some(why) && why@ == w@ + " by "@ + to@
                + ": a peer answered, and nothing listens there"@),
            Dialed::Silent => r matches LegAct::End { abort, release, reason } && abort && release
                && (reason matches Some(why) && why@ == "no answer from "@ + to@ + " in "@
                + text::dec(timeout_secs as nat)
                + "s: no peer is allowed it, or its tunnel is down"@),
        },
{
    match dialed {
        Dialed::Made => LegAct::Pump,
        Dialed::Unopened(e) => LegAct::End { abort: false, release: false, reason: Some(e) },
        Dialed::Refused(w) => LegAct::End {
            abort: false,
            release: true,
            reason: Some(
                text::join4(w, " by ", to, ": a peer answered, and nothing listens there"),
            ),
        },
        Dialed::Silent => LegAct::End {
            abort: true,
            release: true,
            reason: Some(
                text::join5(
                    "no answer from ",
                    to,
                    " in ",
                    text::decimal(timeout_secs).as_str(),
                    "s: no peer is allowed it, or its tunnel is down",
                ),
            ),
        },
    }
}

/// What a connection from the tunnel does: where its handshake was made, its
/// target has been dialed, and `local` is what that came to.
pub fn expose_leg(made: bool, local: Option<Result<(), String>>, to: &str) -> (r: LegAct)
    requires
        made ==> local is Some,
    ensures
        if !made {
            r == (LegAct::End { abort: true, release: true, reason: None })
        } else {
            match local {
                Some(Err(e)) => r matches LegAct::End { abort, release, reason } && abort
                    && release && (reason matches Some(why) && why@ == "cannot dial "@ + to@
                    + ": "@ + e@),
                _ => r is Pump,
            }
        },
{
    if !made {
        return LegAct::End { abort: true, release: true, reason: None };
    }
    match local {
        Some(Err(e)) => LegAct::End {
            abort: true,
            release: true,
            reason: Some(text::join4("cannot dial ", to, ": ", e.as_str())),
        },
        _ => LegAct::Pump,
    }
}

/// What the device reports of the stack.
#[derive(Debug)]
pub enum Report {
    /// Something is forwarded or exposed.
    Forward { kind: &'static str, from: String, to: String },
    /// Something could not be done.
    Refused { command: String, reason: String },
}

/// The line and the report of a leg that failed.
pub fn error(kind: &str, from: &str, to: &str, reason: &str) -> (r: (String, Report))
    ensures
        r.0@ == "drt wg: "@ + kind@ + " "@ + from@ + " -> "@ + to@ + ": "@ + reason@,
        r.1 matches Report::Refused { command, reason: said } && command@ == kind@ && said@
            == from@ + " -> "@ + to@ + ": "@ + reason@,
{
    let mut line = text::join5("drt wg: ", kind, " ", from, " -> ");
    line.append(to);
    line.append(": ");
    line.append(reason);
    (
        line,
        Report::Refused {
            command: kind.to_owned(),
            reason: text::join5(from, " -> ", to, ": ", reason),
        },
    )
}

/// The reports of what is forwarded, then of what is exposed, each in order:
/// the two ends of each.
pub fn bound_reports(forwards: &Vec<(String, String)>, exposes: &Vec<(String, String)>) -> (r: Vec<
    Report,
>)
    ensures
        r@.len() == forwards@.len() + exposes@.len(),
        forall|i: int|
            0 <= i < r@.len() ==> says(
                #[trigger] r@[i],
                if i < forwards@.len() {
                    "forward"@
                } else {
                    "expose"@
                },
                if i < forwards@.len() {
                    forwards@[i]
                } else {
                    exposes@[i - forwards@.len()]
                },
            ),
{
    let mut r: Vec<Report> = Vec::new();
    let mut i: usize = 0;
    while i < forwards.len()
        invariant
            i <= forwards.len(),
            r@.len() == i,
            forall|k: int| 0 <= k < i ==> says(#[trigger] r@[k], "forward"@, forwards@[k]),
        decreases forwards.len() - i,
    {
        r.push(
            Report::Forward {
                kind: "forward",
                from: forwards[i].0.clone(),
                to: forwards[i].1.clone(),
            },
        );
        i = i + 1;
    }
    let mut j: usize = 0;
    while j < exposes.len()
        invariant
            j <= exposes.len(),
            r@.len() == forwards@.len() + j,
            forall|k: int|
                0 <= k < forwards@.len() ==> says(#[trigger] r@[k], "forward"@, forwards@[k]),
            forall|k: int|
                forwards@.len() <= k < r@.len() ==> says(
                    #[trigger] r@[k],
                    "expose"@,
                    exposes@[k - forwards@.len()],
                ),
        decreases exposes.len() - j,
    {
        r.push(
            Report::Forward { kind: "expose", from: exposes[j].0.clone(), to: exposes[j].1.clone() },
        );
        j = j + 1;
    }
    r
}

/// Whether a report says of which kind a route is, and its two ends.
pub open spec fn says(r: Report, kind: Seq<char>, ends: (String, String)) -> bool {
    r matches Report::Forward { kind: k, from, to } && k@ == kind && from@ == ends.0@ && to@
        == ends.1@
}

// ---- the pump ----

/// What happened on the way into the tunnel.
#[derive(Clone, Copy, Debug, PartialEq, Eq, Structural)]
pub enum In {
    /// The local side sent so many bytes.
    Read(usize),
    /// The local side is at its end.
    End,
    /// The local side failed.
    Lost,
    /// The socket took so many bytes.
    Took(usize),
    /// The socket takes nothing any more.
    Shut,
}

/// What the way into the tunnel does next.
#[derive(Clone, Copy, Debug, PartialEq, Eq, Structural)]
pub enum InAct {
    /// Read from the local side.
    Read,
    /// Offer the bytes from `from` to `to` of what was read.
    Offer { from: usize, to: usize },
    /// Close this side of the socket, and end cleanly.
    Close,
    /// End, and not cleanly.
    Fail,
}

/// The way into the tunnel: how much was read, and how much of that the
/// socket has taken.
#[derive(Clone, Copy, Debug, PartialEq, Eq, Structural)]
pub struct Inbound {
    pub read: usize,
    pub sent: usize,
}

impl Inbound {
    /// Whether no more was taken than was read, nor read than fits.
    pub open spec fn wf(&self) -> bool {
        self.sent <= self.read <= BUFFER
    }

    /// Whether the event can happen in this state.
    pub open spec fn possible(&self, event: In) -> bool {
        match event {
            In::Read(n) => self.sent == self.read && n <= BUFFER,
            In::End | In::Lost => self.sent == self.read,
            In::Took(n) => self.sent < self.read && n <= self.read - self.sent,
            In::Shut => self.sent < self.read,
        }
    }

    /// Takes in an event. Everything that was read is offered before more is
    /// read.
    pub fn step(&mut self, event: In) -> (r: InAct)
        requires
            old(self).wf(),
            old(self).possible(event),
        ensures
            final(self).wf(),
            match event {
                In::Read(n) => {
                    &&& final(self).read == n
                    &&& final(self).sent == 0
                    &&& r == (if n == 0 {
                        InAct::Read
                    } else {
                        InAct::Offer { from: 0, to: n }
                    })
                },
                In::End => r == InAct::Close && *final(self) == *old(self),
                In::Lost | In::Shut => r == InAct::Fail && *final(self) == *old(self),
                In::Took(n) => {
                    &&& final(self).read == old(self).read
                    &&& final(self).sent == old(self).sent + n
                    &&& r == (if old(self).sent + n < old(self).read {
                        InAct::Offer { from: final(self).sent, to: old(self).read }
                    } else {
                        InAct::Read
                    })
                },
            },
    {
        match event {
            In::Read(n) => {
                self.read = n;
                self.sent = 0;
                if n == 0 {
                    InAct::Read
                } else {
                    InAct::Offer { from: 0, to: n }
                }
            },
            In::End => InAct::Close,
            In::Lost => InAct::Fail,
            In::Shut => InAct::Fail,
            In::Took(n) => {
                self.sent = self.sent + n;
                if self.sent < self.read {
                    InAct::Offer { from: self.sent, to: self.read }
                } else {
                    InAct::Read
                }
            },
        }
    }
}

/// What the way out of the tunnel does with what it received: an end shuts
/// the local side down.
#[derive(Clone, Copy, Debug, PartialEq, Eq, Structural)]
pub enum OutAct {
    /// Write so many bytes.
    Write(usize),
    /// Shut the local side down, and end cleanly.
    Shut,
}

/// What the way out of the tunnel does next.
pub fn outbound(received: usize) -> (r: OutAct)
    ensures
        r == (if received == 0 {
            OutAct::Shut
        } else {
            OutAct::Write(received)
        }),
{
    if received == 0 {
        OutAct::Shut
    } else {
        OutAct::Write(received)
    }
}

/// Whether the socket is reset once both ways have ended: unless both ended
/// cleanly, so that the far side is not told of an end over bytes that it
/// will never see.
pub fn resets(in_clean: bool, out_clean: bool) -> (r: bool)
    ensures
        r == !(in_clean && out_clean),
{
    !(in_clean && out_clean)
}

// ---- laws ----

/// Connections are made from one port after the other, and after as many as
/// there are the first comes again.
pub open spec fn after(port: u16) -> u16 {
    if port == u16::MAX {
        FIRST_PORT
    } else {
        (port + 1) as u16
    }
}

/// The port that follows is another one, and again one of those that
/// connections are made from.
pub proof fn ports_stay_in_range(port: u16)
    requires
        FIRST_PORT <= port,
    ensures
        FIRST_PORT <= after(port),
        after(port) != port,
{
}

/// No released socket is lost: each is either kept or removed.
pub proof fn a_released_socket_is_kept_or_removed(all: Seq<Released>)
    ensures
        handles(all, true).len() + handles(all, false).len() == all.len(),
    decreases all.len(),
{
    if all.len() > 0 {
        a_released_socket_is_kept_or_removed(all.drop_last());
    }
}

/// Four octets are an address of version 4 in their order, and sixteen are one
/// of version 6, each two a segment with the higher octet first.
pub proof fn octets_make_the_address(o: Seq<u8>)
    ensures
        o.len() == 4 ==> address(o) == IpAddr::V4(o[0], o[1], o[2], o[3]),
        o.len() == 16 ==> address(o) == IpAddr::V6(
            group(o, 0),
            group(o, 1),
            group(o, 2),
            group(o, 3),
            group(o, 4),
            group(o, 5),
            group(o, 6),
            group(o, 7),
        ),
        forall|i: int|
            0 <= i < 8 && o.len() == 16 ==> (#[trigger] group(o, i)) as int == o[2 * i] as int * 256
                + o[2 * i + 1] as int,
{
}

/// The sockets that are removed are exactly those that wait out their time, or
/// are closed and know no far end; the others are kept, in order.
pub proof fn only_a_done_socket_is_removed(all: Seq<Released>)
    ensures
        handles(all, true) == all.filter(
            |r: Released| r.state == Tcp::TimeWait || (r.state == Tcp::Closed && !r.remote),
        ).map_values(|r: Released| r.handle),
        handles(all, false) == all.filter(
            |r: Released| !(r.state == Tcp::TimeWait || (r.state == Tcp::Closed && !r.remote)),
        ).map_values(|r: Released| r.handle),
    decreases all.len(),
{
    reveal(Seq::filter);
    let done = |r: Released| r.state == Tcp::TimeWait || (r.state == Tcp::Closed && !r.remote);
    let kept = |r: Released| !(r.state == Tcp::TimeWait || (r.state == Tcp::Closed && !r.remote));
    let f = |r: Released| r.handle;
    if all.len() > 0 {
        let rest = all.drop_last();
        only_a_done_socket_is_removed(rest);
        if is_done(all.last().state, all.last().remote) {
            assert(all.filter(done).map_values(f) =~= rest.filter(done).map_values(f).push(
                all.last().handle,
            ));
        } else {
            assert(all.filter(kept).map_values(f) =~= rest.filter(kept).map_values(f).push(
                all.last().handle,
            ));
        }
    } else {
        assert(all.filter(done).map_values(f) =~= Seq::empty());
        assert(all.filter(kept).map_values(f) =~= Seq::empty());
    }
}

/// The first entry whose address does not read is named, and where all read
/// none is.
pub proof fn the_first_unread_entry_is_named(exposes: Seq<Expose>, from: int)
    requires
        0 <= from <= exposes.len(),
    ensures
        match unread(exposes, from) {
            Some(i) => from <= i < exposes.len() && exposes[i].tunnel is None && forall|k: int|
                from <= k < i ==> (#[trigger] exposes[k]).tunnel is Some,
            None => forall|k: int|
                from <= k < exposes.len() ==> (#[trigger] exposes[k]).tunnel is Some,
        },
    decreases exposes.len() - from,
{
    if from < exposes.len() && exposes[from].tunnel is Some {
        the_first_unread_entry_is_named(exposes, from + 1);
    }
}

/// The ports of connections are the upper quarter of all, one behind the
/// other, and behind the last comes the first.
pub proof fn ports_go_round(port: u16)
    ensures
        port == 65_535 ==> after(port) == 49_152,
        port < 65_535 ==> after(port) == port + 1,
        (Ports { next: port }).wf() <==> port >= 49_152,
{
}

/// A report names its kind and the two ends of its route.
pub proof fn a_report_names_both_ends(r: Report, kind: Seq<char>, ends: (String, String))
    requires
        says(r, kind, ends),
    ensures
        r is Forward,
        r->Forward_kind@ == kind,
        r->Forward_from@ == ends.0@,
        r->Forward_to@ == ends.1@,
{
}

/// No more is taken than was read, and no more is read than one buffer holds.
/// Bytes are read only once those before them were taken.
pub proof fn a_buffer_is_filled_once(s: Inbound, n: usize)
    ensures
        s.wf() <==> s.sent <= s.read && s.read <= 65_536,
        s.possible(In::Read(n)) <==> s.sent == s.read && n <= 65_536,
        s.wf() && s.possible(In::Took(n)) ==> s.sent + n <= s.read,
        s.possible(In::Shut) <==> s.sent < s.read,
        s.possible(In::End) <==> s.sent == s.read,
        s.possible(In::Lost) <==> s.sent == s.read,
        IDLE_SECS == 60,
{
}

} // verus!
