//! How this network can be reached: what was measured, the verdict that
//! follows from it, and the report.

use crate::addr::{IpAddr, SocketAddr};
use crate::json;
use crate::text;
use vstd::prelude::*;

verus! {

/// How peers get to this machine.
#[derive(Clone, Copy, Debug, PartialEq, Eq, Structural)]
pub enum Verdict {
    Direct,
    V6Direct,
    Punchable,
    Relay,
}

impl Verdict {
    /// The name of the verdict.
    pub open spec fn spec_name(self) -> Seq<char> {
        match self {
            Verdict::Direct => "direct"@,
            Verdict::V6Direct => "v6-direct"@,
            Verdict::Punchable => "punchable"@,
            Verdict::Relay => "relay"@,
        }
    }

    /// The name that scripts match on.
    pub fn name(self) -> (r: &'static str)
        ensures
            r@ == self.spec_name(),
    {
        match self {
            Verdict::Direct => "direct",
            Verdict::V6Direct => "v6-direct",
            Verdict::Punchable => "punchable",
            Verdict::Relay => "relay",
        }
    }

    /// The advice that goes with the verdict.
    pub open spec fn spec_advice(self) -> Seq<char> {
        match self {
            Verdict::Direct => "point a name at this address and forward the port"@,
            Verdict::V6Direct => "use the IPv6 address; this network's IPv4 has no inbound path"@,
            Verdict::Punchable => "use a rendezvous; peers will connect to you directly"@,
            Verdict::Relay => "use a tunnel"@,
        }
    }

    /// What to do next, in one sentence.
    pub fn advice(self) -> (r: &'static str)
        ensures
            r@ == self.spec_advice(),
    {
        match self {
            Verdict::Direct => "point a name at this address and forward the port",
            Verdict::V6Direct => "use the IPv6 address; this network's IPv4 has no inbound path",
            Verdict::Punchable => "use a rendezvous; peers will connect to you directly",
            Verdict::Relay => "use a tunnel",
        }
    }
}

/// How a NAT assigns UDP mappings.
#[derive(Clone, Copy, Debug, PartialEq, Eq, Structural)]
pub enum UdpMapping {
    /// No NAT in the path.
    Open,
    /// One mapping for every destination.
    Independent,
    /// A fresh mapping for each destination.
    Symmetric,
}

/// What came of an edge connecting back.
#[derive(Clone, Copy, Debug, PartialEq, Eq, Structural)]
pub enum Inbound {
    Connected,
    Refused,
    Timeout,
}

/// One edge's view of the caller. A port that is absent was not measured.
#[derive(Clone, Debug, PartialEq, Eq)]
pub struct EdgeView {
    pub edge: String,
    pub port: Option<u16>,
    /// The destination that the view was gathered from.
    pub dest: String,
}

/// Everything measured, and nothing derived.
#[derive(Clone, Debug, PartialEq, Eq)]
pub struct Measurements {
    /// The address that the outside observed, if any answered.
    pub observed_address: Option<IpAddr>,
    /// A routable address of version 6 on a local interface.
    pub routable_v6: Option<IpAddr>,
    /// The UDP mapping across two servers.
    pub udp_mapping: Option<UdpMapping>,
    /// The mapped port that each server reported.
    pub udp_ports: Vec<(String, u16)>,
    /// Why the UDP mapping is absent, when it is.
    pub udp_why: Option<String>,
    /// What each edge saw over TCP.
    pub tcp_views: Vec<EdgeView>,
    /// Whether every view left from one local port.
    pub tcp_same_source_port: bool,
    /// Why an edge is missing from the views, one line for each.
    pub reflect_why: Vec<String>,
    /// A vantage that saw another address than the one measured.
    pub address_why: Option<String>,
    /// The inbound test.
    pub inbound: Option<(u16, Inbound)>,
}

impl Default for Measurements {
    /// Nothing measured.
    fn default() -> (r: Measurements)
        ensures
            r.observed_address is None,
            r.routable_v6 is None,
            r.udp_mapping is None,
            r.udp_ports@.len() == 0,
            r.udp_why is None,
            r.tcp_views@.len() == 0,
            !r.tcp_same_source_port,
            r.reflect_why@.len() == 0,
            r.address_why is None,
            r.inbound is None,
    {
        Measurements {
            observed_address: None,
            routable_v6: None,
            udp_mapping: None,
            udp_ports: Vec::new(),
            udp_why: None,
            tcp_views: Vec::new(),
            tcp_same_source_port: false,
            reflect_why: Vec::new(),
            address_why: None,
            inbound: None,
        }
    }
}

/// The destinations of the views.
pub open spec fn dests(views: Seq<EdgeView>) -> Seq<Seq<char>> {
    views.map_values(|v: EdgeView| v.dest@)
}

/// The destinations of the views that have a port, in order.
pub open spec fn ported_dests(views: Seq<EdgeView>) -> Seq<Seq<char>>
    decreases views.len(),
{
    if views.len() == 0 {
        Seq::empty()
    } else if views.last().port is Some {
        ported_dests(views.drop_last()).push(views.last().dest@)
    } else {
        ported_dests(views.drop_last())
    }
}

/// The ports of the views that have one, in order.
pub open spec fn ports(views: Seq<EdgeView>) -> Seq<u16>
    decreases views.len(),
{
    if views.len() == 0 {
        Seq::empty()
    } else {
        match views.last().port {
            Some(p) => ports(views.drop_last()).push(p),
            None => ports(views.drop_last()),
        }
    }
}

/// Whether the numbers are all the same.
pub open spec fn all_same(s: Seq<u16>) -> bool {
    forall|i: int, j: int| 0 <= i < s.len() && 0 <= j < s.len() ==> s[i] == s[j]
}

/// Whether the address lies in the space of carrier NATs, `100.64.0.0/10`.
pub open spec fn in_cgnat(a: Option<IpAddr>) -> bool {
    a matches Some(IpAddr::V4(o0, o1, o2, o3)) && o0 == 100 && 64 <= o1 <= 127
}

/// Whether the address is one of version 4 that the internet routes.
pub open spec fn is_public_v4(a: Option<IpAddr>) -> bool {
    match a {
        Some(ip) => ip is V4 && !in_cgnat(a) && !ip.spec_private() && !ip.spec_loopback()
            && !ip.spec_link_local() && !ip.spec_unspecified(),
        None => false,
    }
}

impl Measurements {
    /// Whether the observed address is inside the space of carrier NATs.
    pub open spec fn spec_cgnat(&self) -> bool {
        in_cgnat(self.observed_address)
    }

    /// Tells whether the observed address is inside the space of carrier
    /// NATs.
    pub fn is_cgnat(&self) -> (r: bool)
        ensures
            r == self.spec_cgnat(),
    {
        match self.observed_address {
            Some(IpAddr::V4(a, b, _, _)) => a == 100 && 64 <= b && b <= 127,
            _ => false,
        }
    }

    /// Whether any measurement involved asking the network. Holding an
    /// address of version 6 is none.
    pub open spec fn spec_probed(&self) -> bool {
        self.udp_mapping is Some || self.observed_address is Some || self.inbound is Some
    }

    /// Tells whether any measurement involved asking the network.
    pub fn probed_anything(&self) -> (r: bool)
        ensures
            r == self.spec_probed(),
    {
        self.udp_mapping.is_some() || self.observed_address.is_some() || self.inbound.is_some()
    }

    /// Whether IPv4 was measured and found to have no inbound path: an
    /// address of version 4 came back and is not reachable, or the mapping
    /// came back symmetric.
    pub open spec fn spec_v4_ruled_out(&self) -> bool {
        (self.observed_address matches Some(IpAddr::V4(_, _, _, _)) && !is_public_v4(
            self.observed_address,
        )) || self.udp_mapping == Some(UdpMapping::Symmetric)
    }

    /// Tells whether IPv4 was measured and found to have no inbound path.
    pub fn v4_ruled_out(&self) -> (r: bool)
        ensures
            r == self.spec_v4_ruled_out(),
    {
        let came: bool = match self.observed_address {
            Some(IpAddr::V4(_, _, _, _)) => true,
            _ => false,
        };
        (came && !self.has_public_v4()) || matches!(self.udp_mapping, Some(UdpMapping::Symmetric))
    }

    /// Tells whether the observed address is a public one of version 4; no
    /// also where nothing was observed.
    pub fn has_public_v4(&self) -> (r: bool)
        ensures
            r == is_public_v4(self.observed_address),
    {
        match self.observed_address {
            Some(ip) => match ip {
                IpAddr::V4(_, _, _, _) => !self.is_cgnat() && !ip.is_private() && !ip.is_loopback()
                    && !ip.is_link_local() && !ip.is_unspecified(),
                _ => false,
            },
            None => false,
        }
    }

    /// Whether the mapping agrees across two or more destinations that
    /// answered with a port, asked from one port; `None` where that was not
    /// measured.
    pub open spec fn spec_tcp_agrees(&self) -> Option<bool> {
        if self.tcp_same_source_port && ported_dests(self.tcp_views@).to_set().len() >= 2 {
            Some(all_same(ports(self.tcp_views@)))
        } else {
            None
        }
    }

    /// Whether one destination, asked twice from one port, saw one mapping;
    /// `None` where that was not measured. A view without a port saw none.
    pub open spec fn spec_tcp_mapping_stable(&self) -> Option<bool> {
        if self.tcp_same_source_port && ported_dests(self.tcp_views@).to_set().len() == 1 && ports(
            self.tcp_views@,
        ).len() >= 2 {
            Some(all_same(ports(self.tcp_views@)))
        } else {
            None
        }
    }

    fn seen_ports(&self) -> (r: Vec<u16>)
        ensures
            r@ == ports(self.tcp_views@),
    {
        let mut r: Vec<u16> = Vec::new();
        let mut i: usize = 0;
        while i < self.tcp_views.len()
            invariant
                i <= self.tcp_views.len(),
                r@ == ports(self.tcp_views@.subrange(0, i as int)),
            decreases self.tcp_views.len() - i,
        {
            let ghost now = self.tcp_views@.subrange(0, i + 1);
            assert(now.drop_last() == self.tcp_views@.subrange(0, i as int));
            if let Some(p) = self.tcp_views[i].port {
                r.push(p);
            }
            i = i + 1;
        }
        assert(self.tcp_views@.subrange(0, self.tcp_views@.len() as int) == self.tcp_views@);
        r
    }

    fn ported(&self) -> (r: Vec<String>)
        ensures
            text::texts(r@) == ported_dests(self.tcp_views@),
    {
        let mut r: Vec<String> = Vec::new();
        let mut i: usize = 0;
        assert(text::texts(r@) =~= ported_dests(self.tcp_views@.subrange(0, 0)));
        while i < self.tcp_views.len()
            invariant
                i <= self.tcp_views.len(),
                text::texts(r@) == ported_dests(self.tcp_views@.subrange(0, i as int)),
            decreases self.tcp_views.len() - i,
        {
            let ghost now = self.tcp_views@.subrange(0, i + 1);
            let ghost had = text::texts(r@);
            assert(now.drop_last() == self.tcp_views@.subrange(0, i as int));
            if self.tcp_views[i].port.is_some() {
                r.push(self.tcp_views[i].dest.clone());
                assert(text::texts(r@) =~= had.push(now.last().dest@));
            }
            i = i + 1;
        }
        assert(self.tcp_views@.subrange(0, self.tcp_views@.len() as int) == self.tcp_views@);
        r
    }

    /// How many different destinations the views came from.
    pub fn distinct_destinations(&self) -> (r: usize)
        ensures
            r == dests(self.tcp_views@).to_set().len(),
    {
        let mut all: Vec<String> = Vec::new();
        let mut i: usize = 0;
        assert(text::texts(all@) =~= dests(self.tcp_views@).subrange(0, 0));
        while i < self.tcp_views.len()
            invariant
                i <= self.tcp_views.len(),
                text::texts(all@) == dests(self.tcp_views@).subrange(0, i as int),
            decreases self.tcp_views.len() - i,
        {
            let ghost had = text::texts(all@);
            all.push(self.tcp_views[i].dest.clone());
            assert(text::texts(all@) =~= had.push(self.tcp_views@[i as int].dest@));
            i = i + 1;
        }
        assert(text::texts(all@) =~= dests(self.tcp_views@));
        distinct(&all)
    }

    /// Whether the mapping agrees across the destinations that answered with
    /// a port, where that was measured.
    pub fn tcp_agrees(&self) -> (r: Option<bool>)
        ensures
            r == self.spec_tcp_agrees(),
    {
        if !self.tcp_same_source_port {
            return None;
        }
        if distinct(&self.ported()) < 2 {
            return None;
        }
        let seen = self.seen_ports();
        Some(same_numbers(&seen))
    }

    /// Whether one destination saw one mapping twice, where that was
    /// measured.
    pub fn tcp_mapping_stable(&self) -> (r: Option<bool>)
        ensures
            r == self.spec_tcp_mapping_stable(),
    {
        if !self.tcp_same_source_port {
            return None;
        }
        if distinct(&self.ported()) != 1 {
            return None;
        }
        let seen = self.seen_ports();
        if seen.len() < 2 {
            return None;
        }
        Some(same_numbers(&seen))
    }
}

/// How many different texts there are.
fn distinct(all: &Vec<String>) -> (r: usize)
    ensures
        r == text::texts(all@).to_set().len(),
{
    let ghost ds = text::texts(all@);
    let mut n: usize = 0;
    let mut i: usize = 0;
    assert(ds.subrange(0, 0).to_set() =~= Set::empty());
    while i < all.len()
        invariant
            i <= all.len(),
            ds == text::texts(all@),
            n <= i,
            ds.subrange(0, i as int).to_set().finite(),
            n == ds.subrange(0, i as int).to_set().len(),
        decreases all.len() - i,
    {
        let ghost before = ds.subrange(0, i as int);
        let ghost now = ds.subrange(0, i + 1);
        let mut seen: bool = false;
        let mut k: usize = 0;
        while k < i
            invariant
                k <= i < all.len(),
                ds == text::texts(all@),
                seen <==> exists|j: int| 0 <= j < k && ds[j] == ds[i as int],
            decreases i - k,
        {
            assert(ds[k as int] == all@[k as int]@);
            if text::same(all[k].as_str(), all[i].as_str()) {
                seen = true;
            }
            k = k + 1;
        }
        assert(now =~= before.push(ds[i as int]));
        assert(now.to_set() =~= before.to_set().insert(ds[i as int])) by {
            assert forall|x: Seq<char>| now.to_set().contains(x) <==> before.to_set().insert(
                ds[i as int],
            ).contains(x) by {
                if before.contains(x) {
                    let j = choose|j: int| 0 <= j < before.len() && before[j] == x;
                    assert(now[j] == x);
                }
                if x == ds[i as int] {
                    assert(now[i as int] == x);
                }
            }
        }
        assert(seen <==> before.to_set().contains(ds[i as int])) by {
            if seen {
                let j = choose|j: int| 0 <= j < i && ds[j] == ds[i as int];
                assert(before[j] == ds[i as int]);
            }
            if before.contains(ds[i as int]) {
                let j = choose|j: int| 0 <= j < before.len() && before[j] == ds[i as int];
                assert(ds[j] == ds[i as int]);
            }
        }
        if !seen {
            n = n + 1;
        }
        i = i + 1;
    }
    assert(ds.subrange(0, ds.len() as int) == ds);
    n
}

fn same_numbers(s: &Vec<u16>) -> (r: bool)
    ensures
        r == all_same(s@),
{
    let mut i: usize = 1;
    while i < s.len()
        invariant
            1 <= i,
            forall|k: int| 0 <= k < i && k < s@.len() ==> (#[trigger] s@[k]) == s@[0],
        decreases s.len() - i,
    {
        if s[i] != s[i - 1] {
            assert(s@[i as int] != s@[i - 1]);
            return false;
        }
        i = i + 1;
    }
    true
}

// ---- the verdict ----

/// What a rule asks of the measurements.
#[derive(Clone, Copy, Debug, PartialEq, Eq, Structural)]
pub enum Test {
    /// The address belongs to a carrier NAT.
    Carrier,
    /// A connection arrived at a public address.
    Arrived,
    /// One mapping serves every destination.
    OneMapping,
    /// IPv4 is ruled out and a routable IPv6 address is there.
    V6Instead,
    /// Each destination has its own mapping.
    ManyMappings,
}

impl Test {
    /// Whether the measurements pass.
    pub open spec fn passes(self, m: &Measurements) -> bool {
        match self {
            Test::Carrier => m.spec_cgnat(),
            Test::Arrived => is_public_v4(m.observed_address) && arrived(m.inbound),
            Test::OneMapping => m.udp_mapping == Some(UdpMapping::Independent) || m.udp_mapping
                == Some(UdpMapping::Open),
            Test::V6Instead => m.routable_v6 is Some && m.spec_v4_ruled_out() && !arrived(
                m.inbound,
            ),
            Test::ManyMappings => m.udp_mapping == Some(UdpMapping::Symmetric),
        }
    }
}

/// Whether an inbound connection arrived.
pub open spec fn arrived(i: Option<(u16, Inbound)>) -> bool {
    i matches Some(p) && p.1 == Inbound::Connected
}

/// One row of the verdict table: a test, the verdict it selects, and the
/// sentence that justifies it.
#[derive(Clone, Copy, Debug)]
pub struct Rule {
    pub verdict: Verdict,
    pub why: &'static str,
    pub test: Test,
}

impl Rule {
    /// Tells whether the rule speaks for these measurements.
    pub fn matches(&self, m: &Measurements) -> (r: bool)
        ensures
            r == self.test.passes(m),
    {
        let came: bool = match m.inbound {
            Some((_, Inbound::Connected)) => true,
            _ => false,
        };
        match self.test {
            Test::Carrier => m.is_cgnat(),
            Test::Arrived => m.has_public_v4() && came,
            Test::OneMapping => matches!(
                m.udp_mapping,
                Some(UdpMapping::Independent) | Some(UdpMapping::Open)
            ),
            Test::V6Instead => m.routable_v6.is_some() && m.v4_ruled_out() && !came,
            Test::ManyMappings => matches!(m.udp_mapping, Some(UdpMapping::Symmetric)),
        }
    }
}

/// What a rule is.
pub struct RuleView {
    pub verdict: Verdict,
    pub why: Seq<char>,
    pub test: Test,
}

/// The verdict table. The first rule that passes decides, so the order is
/// part of it.
pub open spec fn table() -> Seq<RuleView> {
    seq![
        RuleView {
            verdict: Verdict::Relay,
            why:
                "the observed address is inside CGNAT space (100.64.0.0/10), so there is no address to be reached at and no router of yours to forward it"@,
            test: Test::Carrier,
        },
        RuleView {
            verdict: Verdict::Direct,
            why: "an edge connected inbound to the observed address"@,
            test: Test::Arrived,
        },
        RuleView {
            verdict: Verdict::Punchable,
            why:
                "the UDP mapping is endpoint-independent, so the address a STUN server sees is the address a peer can reach"@,
            test: Test::OneMapping,
        },
        RuleView {
            verdict: Verdict::V6Direct,
            why: "a routable IPv6 address is present and IPv4 has no inbound path"@,
            test: Test::V6Instead,
        },
        RuleView {
            verdict: Verdict::Relay,
            why:
                "the UDP mapping is per-destination (symmetric), so what a STUN server sees says nothing about what a peer would see"@,
            test: Test::ManyMappings,
        },
    ]
}

/// The verdict of the first rule, from `i` on, that passes; relay where
/// none does.
pub open spec fn first_match(rules: Seq<RuleView>, m: &Measurements, i: int) -> (
    Verdict,
    Seq<char>,
)
    decreases rules.len() - i,
{
    if i < 0 || i >= rules.len() {
        (
            Verdict::Relay,
            "the UDP mapping could not be measured, and relay is the answer that works on every network"@,
        )
    } else if rules[i].test.passes(m) {
        (rules[i].verdict, rules[i].why)
    } else {
        first_match(rules, m, i + 1)
    }
}

/// The verdict and its reason.
pub open spec fn decided(m: &Measurements) -> (Verdict, Seq<char>) {
    first_match(table(), m, 0)
}

/// The rules of the table, as mathematics.
pub open spec fn rule_views(rs: Seq<Rule>) -> Seq<RuleView> {
    rs.map_values(|r: Rule| RuleView { verdict: r.verdict, why: r.why@, test: r.test })
}

/// The verdict table.
pub fn rules() -> (r: Vec<Rule>)
    ensures
        rule_views(r@) == table(),
{
    let mut r: Vec<Rule> = Vec::new();
    // A carrier NAT can look endpoint-independent and still be unreachable,
    // so this outranks everything.
    r.push(
        Rule {
            verdict: Verdict::Relay,
            why:
                "the observed address is inside CGNAT space (100.64.0.0/10), so there is no address to be reached at and no router of yours to forward it",
            test: Test::Carrier,
        },
    );
    // A connection that arrived outranks every inference about what might.
    r.push(
        Rule {
            verdict: Verdict::Direct,
            why: "an edge connected inbound to the observed address",
            test: Test::Arrived,
        },
    );
    r.push(
        Rule {
            verdict: Verdict::Punchable,
            why:
                "the UDP mapping is endpoint-independent, so the address a STUN server sees is the address a peer can reach",
            test: Test::OneMapping,
        },
    );
    // IPv6 reachability is never measured, so it stands below what is.
    r.push(
        Rule {
            verdict: Verdict::V6Direct,
            why: "a routable IPv6 address is present and IPv4 has no inbound path",
            test: Test::V6Instead,
        },
    );
    r.push(
        Rule {
            verdict: Verdict::Relay,
            why:
                "the UDP mapping is per-destination (symmetric), so what a STUN server sees says nothing about what a peer would see",
            test: Test::ManyMappings,
        },
    );
    assert(rule_views(r@) =~= table());
    r
}

/// The verdict and the sentence that justifies it.
pub fn decide(m: &Measurements) -> (r: (Verdict, &'static str))
    ensures
        (r.0, r.1@) == decided(m),
{
    let rs = rules();
    let ghost all = table();
    let mut i: usize = 0;
    while i < rs.len()
        invariant
            i <= rs.len(),
            all == table(),
            rule_views(rs@) == all,
            decided(m) == first_match(all, m, i as int),
        decreases rs.len() - i,
    {
        let rule = rs[i];
        assert(all[i as int] == (RuleView {
            verdict: rule.verdict,
            why: rule.why@,
            test: rule.test,
        })) by {
            assert(rule_views(rs@)[i as int] == all[i as int]);
        }
        if rule.matches(m) {
            return (rule.verdict, rule.why);
        }
        i = i + 1;
    }
    (
        Verdict::Relay,
        "the UDP mapping could not be measured, and relay is the answer that works on every network",
    )
}

// ---- the report ----

/// The line on the address.
pub open spec fn address_line(m: &Measurements) -> Seq<char> {
    match m.observed_address {
        Some(a) => "  address    "@ + a.text() + (if m.spec_cgnat() {
            " (CGNAT)"@
        } else {
            ""@
        }) + (match m.address_why {
            Some(why) => " ("@ + why@ + ")"@,
            None => ""@,
        }) + "\n"@,
        None => "  address    not measured (no STUN server or reflect edge answered)\n"@,
    }
}

/// The line on IPv6.
pub open spec fn v6_line(m: &Measurements) -> Seq<char> {
    match m.routable_v6 {
        Some(a) => "  v6         "@ + a.text() + "\n"@,
        None => "  v6         none routable\n"@,
    }
}

/// A measured port and where it was seen.
pub open spec fn seen_at(p: u16, by: Seq<char>) -> Seq<char> {
    text::dec(p as nat) + " ("@ + by + ")"@
}

/// The mapped ports, each with its server.
pub open spec fn udp_pairs(ps: Seq<(String, u16)>) -> Seq<Seq<char>> {
    ps.map_values(|p: (String, u16)| seen_at(p.1, p.0@))
}

/// The name of a UDP mapping in the report.
pub open spec fn udp_label(m: Option<UdpMapping>) -> Seq<char> {
    match m {
        Some(UdpMapping::Symmetric) => "  SYMMETRIC"@,
        Some(UdpMapping::Independent) => "  independent"@,
        Some(UdpMapping::Open) => "  open"@,
        None => ""@,
    }
}

/// The line on the UDP mapping.
pub open spec fn udp_line(m: &Measurements) -> Seq<char> {
    if m.udp_ports@.len() == 0 {
        match m.udp_why {
            Some(why) => "  udp map    not measured ("@ + why@ + ")\n"@,
            None => "  udp map    not measured\n"@,
        }
    } else {
        "  udp map    "@ + text::joined(udp_pairs(m.udp_ports@), ", "@) + udp_label(m.udp_mapping)
            + "\n"@
    }
}

/// The views of the edges, each with its edge.
pub open spec fn tcp_pairs(vs: Seq<EdgeView>) -> Seq<Seq<char>> {
    vs.map_values(
        |v: EdgeView|
            match v.port {
                Some(p) => seen_at(p, v.edge@),
                None => "absent ("@ + v.edge@ + ")"@,
            },
    )
}

/// What the TCP views come to.
pub open spec fn tcp_label(m: &Measurements) -> Seq<char> {
    match m.spec_tcp_agrees() {
        Some(true) => "  independent (pinned source port, sequential)"@,
        Some(false) => "  per-destination (pinned source port, sequential)"@,
        None => match m.spec_tcp_mapping_stable() {
            Some(true) =>
                "  one edge twice: the mapping held (a second vantage would measure something)"@,
            Some(false) =>
                "  one edge twice: the mapping CHANGED, so no two-edge comparison can succeed here"@,
            None => if m.tcp_views@.len() > 1 {
                "  (separate connections, so separate source ports; not a comparison)"@
            } else {
                "  (one vantage; not a comparison)"@
            },
        },
    }
}

/// The line on the TCP mapping.
pub open spec fn tcp_line(m: &Measurements) -> Seq<char> {
    if m.tcp_views@.len() == 0 {
        if m.reflect_why@.len() > 0 {
            "  tcp map    not measured ("@ + m.reflect_why@[0]@ + ")\n"@
        } else {
            "  tcp map    not measured\n"@
        }
    } else {
        "  tcp map    "@ + text::joined(tcp_pairs(m.tcp_views@), ", "@) + tcp_label(m) + "\n"@
    }
}

/// The line on the inbound test.
pub open spec fn inbound_line(m: &Measurements) -> Seq<char> {
    match m.inbound {
        Some((port, r)) => "  inbound    port "@ + text::dec(port as nat) + ": "@ + (match r {
            Inbound::Connected => "connected"@,
            Inbound::Refused => "refused"@,
            Inbound::Timeout => "timeout"@,
        }) + "\n"@,
        None => "  inbound    not measured (no inbound test in this build)\n"@,
    }
}

/// The report: the verdict, the advice, then the evidence. A measurement
/// that was not taken has its line too.
pub open spec fn report(m: &Measurements, verdict: Verdict, why: Seq<char>) -> Seq<char> {
    verdict.spec_name() + " — "@ + why + "\n  use: "@ + verdict.spec_advice() + "\n\nevidence\n"@
        + address_line(m) + v6_line(m) + udp_line(m) + tcp_line(m) + inbound_line(m)
}

fn show_address(m: &Measurements) -> (r: String)
    ensures
        r@ == address_line(m),
{
    match m.observed_address {
        Some(a) => {
            let mut out = text::join2("  address    ", a.show().as_str());
            out.append(
                if m.is_cgnat() {
                    " (CGNAT)"
                } else {
                    ""
                },
            );
            let beside: String = match &m.address_why {
                Some(why) => text::join3(" (", why.as_str(), ")"),
                None => "".to_owned(),
            };
            out.append(beside.as_str());
            out.append("\n");
            out
        },
        None => "  address    not measured (no STUN server or reflect edge answered)\n".to_owned(),
    }
}

fn show_udp(m: &Measurements) -> (r: String)
    ensures
        r@ == udp_line(m),
{
    if m.udp_ports.len() == 0 {
        return match &m.udp_why {
            Some(why) => text::join3("  udp map    not measured (", why.as_str(), ")\n"),
            None => "  udp map    not measured\n".to_owned(),
        };
    }
    let mut pairs: Vec<String> = Vec::new();
    let mut i: usize = 0;
    while i < m.udp_ports.len()
        invariant
            i <= m.udp_ports.len(),
            pairs.len() == i,
            forall|k: int|
                0 <= k < i ==> (#[trigger] pairs@[k])@ == seen_at(
                    m.udp_ports@[k].1,
                    m.udp_ports@[k].0@,
                ),
        decreases m.udp_ports.len() - i,
    {
        pairs.push(
            text::join4(
                text::decimal(m.udp_ports[i].1 as u64).as_str(),
                " (",
                m.udp_ports[i].0.as_str(),
                ")",
            ),
        );
        i = i + 1;
    }
    assert(text::texts(pairs@) =~= udp_pairs(m.udp_ports@));
    let label: &str = match m.udp_mapping {
        Some(UdpMapping::Symmetric) => "  SYMMETRIC",
        Some(UdpMapping::Independent) => "  independent",
        Some(UdpMapping::Open) => "  open",
        None => "",
    };
    text::join4("  udp map    ", text::join(&pairs, ", ").as_str(), label, "\n")
}

fn label_tcp(m: &Measurements) -> (r: &'static str)
    ensures
        r@ == tcp_label(m),
{
    match m.tcp_agrees() {
        Some(true) => "  independent (pinned source port, sequential)",
        Some(false) => "  per-destination (pinned source port, sequential)",
        None => match m.tcp_mapping_stable() {
            Some(true) =>
                "  one edge twice: the mapping held (a second vantage would measure something)",
            Some(false) =>
                "  one edge twice: the mapping CHANGED, so no two-edge comparison can succeed here",
            None => if m.tcp_views.len() > 1 {
                "  (separate connections, so separate source ports; not a comparison)"
            } else {
                "  (one vantage; not a comparison)"
            },
        },
    }
}

fn show_tcp(m: &Measurements) -> (r: String)
    ensures
        r@ == tcp_line(m),
{
    if m.tcp_views.len() == 0 {
        return if m.reflect_why.len() > 0 {
            text::join3("  tcp map    not measured (", m.reflect_why[0].as_str(), ")\n")
        } else {
            "  tcp map    not measured\n".to_owned()
        };
    }
    let ghost all = tcp_pairs(m.tcp_views@);
    let mut pairs: Vec<String> = Vec::new();
    let mut i: usize = 0;
    while i < m.tcp_views.len()
        invariant
            i <= m.tcp_views.len(),
            all == tcp_pairs(m.tcp_views@),
            pairs.len() == i,
            forall|k: int| 0 <= k < i ==> (#[trigger] pairs@[k])@ == all[k],
        decreases m.tcp_views.len() - i,
    {
        let v = &m.tcp_views[i];
        let one: String = match v.port {
            Some(p) => text::join4(text::decimal(p as u64).as_str(), " (", v.edge.as_str(), ")"),
            None => text::join3("absent (", v.edge.as_str(), ")"),
        };
        assert(one@ == all[i as int]);
        pairs.push(one);
        i = i + 1;
    }
    assert(text::texts(pairs@) =~= all);
    text::join4("  tcp map    ", text::join(&pairs, ", ").as_str(), label_tcp(m), "\n")
}

fn show_inbound(m: &Measurements) -> (r: String)
    ensures
        r@ == inbound_line(m),
{
    match m.inbound {
        Some((port, what)) => {
            let word: &str = match what {
                Inbound::Connected => "connected",
                Inbound::Refused => "refused",
                Inbound::Timeout => "timeout",
            };
            text::join5(
                "  inbound    port ",
                text::decimal(port as u64).as_str(),
                ": ",
                word,
                "\n",
            )
        },
        None => "  inbound    not measured (no inbound test in this build)\n".to_owned(),
    }
}

/// Writes the report.
pub fn render_text(m: &Measurements, verdict: Verdict, why: &str) -> (r: String)
    ensures
        r@ == report(m, verdict, why@),
{
    let mut out = text::join4(verdict.name(), " — ", why, "\n  use: ");
    out.append(verdict.advice());
    out.append("\n\nevidence\n");
    out.append(show_address(m).as_str());
    let v6: String = match m.routable_v6 {
        Some(a) => text::join3("  v6         ", a.show().as_str(), "\n"),
        None => "  v6         none routable\n".to_owned(),
    };
    out.append(v6.as_str());
    out.append(show_udp(m).as_str());
    out.append(show_tcp(m).as_str());
    out.append(show_inbound(m).as_str());
    out
}

// ---- taking the measurements ----

/// The address that every probe saw.
pub open spec fn agreed(seen: Seq<IpAddr>) -> Option<IpAddr> {
    if seen.len() > 0 && forall|i: int| 0 <= i < seen.len() ==> (#[trigger] seen[i]) == seen[0] {
        Some(seen[0])
    } else {
        None
    }
}

/// The address that every probe agreed on. Two that differ are two ways out,
/// and neither is picked.
pub fn agreed_address(seen: &Vec<IpAddr>) -> (r: Option<IpAddr>)
    ensures
        r == agreed(seen@),
{
    if seen.len() == 0 {
        return None;
    }
    let mut i: usize = 0;
    while i < seen.len()
        invariant
            i <= seen.len(),
            0 < seen.len(),
            forall|k: int| 0 <= k < i ==> (#[trigger] seen@[k]) == seen@[0],
        decreases seen.len() - i,
    {
        if seen[i] != seen[0] {
            assert(seen@[i as int] != seen@[0]);
            return None;
        }
        i = i + 1;
    }
    Some(seen[0])
}

/// Whether the address is one of version 6 that the internet routes.
pub open spec fn is_routable_v6(a: IpAddr) -> bool {
    a is V6 && !a.spec_loopback() && !a.spec_unspecified() && !a.spec_link_local()
        && !a.spec_unique_local()
}

/// The address that the machine would use towards a public one of version
/// 6, where it is routable.
pub fn routable_v6(local: IpAddr) -> (r: Option<IpAddr>)
    ensures
        r == (if is_routable_v6(local) {
            Some(local)
        } else {
            None
        }),
{
    match local {
        IpAddr::V6(_, _, _, _, _, _, _, _) => {
            if !local.is_loopback() && !local.is_unspecified() && !local.is_link_local()
                && !local.is_unique_local() {
                Some(local)
            } else {
                None
            }
        },
        _ => None,
    }
}

/// What probing the servers found: the mapping, and the address and port
/// that each server saw, in the order of the servers.
#[derive(Debug)]
pub struct MappingReport {
    pub mapping: UdpMapping,
    pub probes: Vec<SocketAddr>,
}

/// The refusal to classify a mapping from fewer than two servers.
pub open spec fn too_few_servers(n: nat) -> Seq<char> {
    "classifying a NAT mapping needs two servers on separate addresses; "@ + text::dec(n)
        + " given"@
}

/// Tells whether there are enough servers to classify a mapping, or refuses.
pub fn enough_servers(servers: &Vec<String>) -> (r: Result<(), String>)
    ensures
        match r {
            Ok(_) => servers@.len() >= 2,
            Err(why) => servers@.len() < 2 && why@ == too_few_servers(servers@.len()),
        },
{
    if servers.len() < 2 {
        Err(
            text::join3(
                "classifying a NAT mapping needs two servers on separate addresses; ",
                text::decimal(servers.len() as u64).as_str(),
                " given",
            ),
        )
    } else {
        Ok(())
    }
}

/// Each server with the port that its probe saw, as far as both go.
pub open spec fn paired(servers: Seq<String>, probes: Seq<SocketAddr>) -> Seq<(Seq<char>, u16)> {
    Seq::new(
        if servers.len() < probes.len() {
            servers.len()
        } else {
            probes.len()
        },
        |i: int| (servers[i]@, probes[i].port),
    )
}

/// Named ports, as mathematics.
pub open spec fn port_views(ps: Seq<(String, u16)>) -> Seq<(Seq<char>, u16)> {
    ps.map_values(|p: (String, u16)| (p.0@, p.1))
}

fn pair_ports(servers: &Vec<String>, probes: &Vec<SocketAddr>) -> (r: Vec<(String, u16)>)
    ensures
        port_views(r@) == paired(servers@, probes@),
{
    let mut r: Vec<(String, u16)> = Vec::new();
    let mut i: usize = 0;
    while i < servers.len() && i < probes.len()
        invariant
            i <= servers.len(),
            i <= probes.len(),
            r.len() == i,
            forall|k: int|
                0 <= k < i ==> (#[trigger] r@[k]).0@ == servers@[k]@ && r@[k].1 == probes@[k].port,
        decreases servers.len() - i,
    {
        r.push((servers[i].clone(), probes[i].port));
        i = i + 1;
    }
    assert(port_views(r@) =~= paired(servers@, probes@));
    r
}

/// The addresses that the probes saw.
pub open spec fn probe_ips(probes: Seq<SocketAddr>) -> Seq<IpAddr> {
    probes.map_values(|p: SocketAddr| p.ip)
}

/// Everything but the UDP half and the two addresses is as before.
pub open spec fn rest_unchanged(m: &Measurements, before: &Measurements) -> bool {
    &&& m.tcp_views == before.tcp_views
    &&& m.tcp_same_source_port == before.tcp_same_source_port
    &&& m.reflect_why == before.reflect_why
    &&& m.address_why == before.address_why
    &&& m.inbound == before.inbound
}

/// Takes in the local address and what probing the servers came to. An
/// address that is already known stays.
pub fn local_and_udp(
    m: &mut Measurements,
    v6: Option<IpAddr>,
    servers: &Vec<String>,
    probed: Result<MappingReport, String>,
)
    ensures
        rest_unchanged(final(m), old(m)),
        final(m).routable_v6 == v6,
        match probed {
            Ok(found) => {
                &&& final(m).udp_mapping == Some(found.mapping)
                &&& port_views(final(m).udp_ports@) == paired(servers@, found.probes@)
                &&& final(m).udp_why == old(m).udp_why
                &&& final(m).observed_address == (match old(m).observed_address {
                    Some(a) => Some(a),
                    None => agreed(probe_ips(found.probes@)),
                })
            },
            Err(why) => {
                &&& final(m).udp_mapping == old(m).udp_mapping
                &&& final(m).udp_ports == old(m).udp_ports
                &&& final(m).udp_why == Some(why)
                &&& final(m).observed_address == old(m).observed_address
            },
        },
{
    m.routable_v6 = v6;
    match probed {
        Ok(found) => {
            m.udp_mapping = Some(found.mapping);
            m.udp_ports = pair_ports(servers, &found.probes);
            let mut ips: Vec<IpAddr> = Vec::new();
            let mut i: usize = 0;
            while i < found.probes.len()
                invariant
                    i <= found.probes.len(),
                    ips.len() == i,
                    forall|k: int| 0 <= k < i ==> (#[trigger] ips@[k]) == found.probes@[k].ip,
                decreases found.probes.len() - i,
            {
                ips.push(found.probes[i].ip);
                i = i + 1;
            }
            assert(ips@ =~= probe_ips(found.probes@));
            if m.observed_address.is_none() {
                m.observed_address = agreed_address(&ips);
            }
        },
        Err(why) => {
            m.udp_why = Some(why);
        },
    }
}

/// What one edge answered; the address as the edge wrote it.
#[derive(Debug)]
pub struct EdgeAnswer {
    pub edge: String,
    pub port: Option<u16>,
    pub address: Option<String>,
}

/// The answer in the JSON of an edge.
pub open spec fn answer_in(url: Seq<char>, doc: Option<json::JsonView>) -> Result<
    (Seq<char>, Option<u16>, Option<Seq<char>>),
    Seq<char>,
> {
    match doc {
        None => Err("the edge did not answer JSON"@),
        Some(v) => match json::member(doc, "observed"@) {
            None => Err("the edge answered JSON with no `observed` block"@),
            Some(o) => Ok(
                (
                    match json::as_text(json::member(Some(o), "edge"@)) {
                        Some(e) => e,
                        None => url,
                    },
                    match json::as_u64(json::member(Some(o), "port"@)) {
                        Some(p) => if p <= u16::MAX {
                            Some(p as u16)
                        } else {
                            None
                        },
                        None => None,
                    },
                    json::as_text(json::member(Some(o), "address"@)),
                ),
            ),
        },
    }
}

/// Whether an answer is the one in the JSON of an edge.
pub open spec fn tells(r: Result<EdgeAnswer, String>, url: Seq<char>, doc: Option<json::JsonView>) -> bool {
    match (r, answer_in(url, doc)) {
        (Ok(a), Ok((edge, port, address))) => a.edge@ == edge && a.port == port && text::opt(
            a.address,
        ) == address,
        (Err(why), Err(what)) => why@ == what,
        _ => false,
    }
}

/// Reads the answer out of the JSON of an edge. What the edge leaves out was
/// not measured; an edge that does not name itself goes by its URL.
pub fn edge_answer_of(url: &str, doc: Option<&json::Json>) -> (r: Result<EdgeAnswer, String>)
    ensures
        tells(r, url@, json::opt_ref(doc)),
{
    if doc.is_none() {
        return Err("the edge did not answer JSON".to_owned());
    }
    let observed = json::field(doc, "observed");
    if observed.is_none() {
        return Err("the edge answered JSON with no `observed` block".to_owned());
    }
    let port: Option<u16> = match json::unsigned(json::field(observed, "port")) {
        Some(p) => if p <= u16::MAX as u64 {
            Some(p as u16)
        } else {
            None
        },
        None => None,
    };
    let address = json::words(json::field(observed, "address"));
    let edge: String = match json::words(json::field(observed, "edge")) {
        Some(e) => e,
        None => url.to_owned(),
    };
    Ok(EdgeAnswer { edge, port, address })
}

/// Reads the answer of an edge.
pub fn edge_answer(url: &str, body: &str) -> (r: Result<EdgeAnswer, String>)
    ensures
        tells(r, url@, json::json_in(body@)),
{
    match json::parse(body) {
        Some(doc) => edge_answer_of(url, Some(&doc)),
        None => edge_answer_of(url, None),
    }
}

/// A run over the edges: the port that the first answer left from, and
/// whether every answer since left from it.
#[derive(Debug)]
pub struct Reflection {
    pub pin: bool,
    pub pinned: Option<u16>,
    pub all_pinned: bool,
}

/// Everything but the TCP half and the observed address is as before.
pub open spec fn tcp_only(m: &Measurements, before: &Measurements) -> bool {
    &&& m.routable_v6 == before.routable_v6
    &&& m.udp_mapping == before.udp_mapping
    &&& m.udp_ports == before.udp_ports
    &&& m.udp_why == before.udp_why
    &&& m.inbound == before.inbound
}

/// The address after an edge saw one: the first stays.
pub open spec fn first_address(known: Option<IpAddr>, seen: Option<IpAddr>) -> Option<IpAddr> {
    match known {
        Some(k) => Some(k),
        None => seen,
    }
}

/// What is said beside the address after an edge saw one.
pub open spec fn beside_address(
    why: Option<Seq<char>>,
    known: Option<IpAddr>,
    seen: Option<IpAddr>,
    edge: Seq<char>,
) -> Option<Seq<char>> {
    match (known, seen) {
        (Some(k), Some(s)) => if k != s && why is None {
            Some(edge + " saw "@ + s.text() + ", over TCP"@)
        } else {
            why
        },
        _ => why,
    }
}

impl Reflection {
    /// A run that asks every edge from one port where `pin` is set.
    pub fn new(pin: bool) -> (r: Reflection)
        ensures
            r.pin == pin,
            r.pinned is None,
            r.all_pinned,
    {
        Reflection { pin, pinned: None, all_pinned: true }
    }

    /// The local port to leave from.
    pub fn source_port(&self) -> (r: Option<u16>)
        ensures
            r == (if self.pin {
                self.pinned
            } else {
                None
            }),
    {
        if self.pin {
            self.pinned
        } else {
            None
        }
    }

    /// A name that gave no address.
    pub fn unresolved(&mut self, m: &mut Measurements, url: &str, why: &str)
        ensures
            final(self).pin == old(self).pin,
            final(self).pinned == old(self).pinned,
            !final(self).all_pinned,
            tcp_only(final(m), old(m)),
            final(m).observed_address == old(m).observed_address,
            final(m).address_why == old(m).address_why,
            final(m).tcp_views == old(m).tcp_views,
            final(m).tcp_same_source_port == old(m).tcp_same_source_port,
            text::texts(final(m).reflect_why@) == text::texts(old(m).reflect_why@).push(
                url@ + ": "@ + why@,
            ),
    {
        self.all_pinned = false;
        let line = text::join3(url, ": ", why);
        m.reflect_why.push(line);
        assert(text::texts(m.reflect_why@) =~= text::texts(old(m).reflect_why@).push(line@));
    }

    /// An edge that did not answer.
    pub fn silent(&mut self, m: &mut Measurements, url: &str, dest: SocketAddr, why: &str)
        ensures
            final(self).pin == old(self).pin,
            final(self).pinned == old(self).pinned,
            !final(self).all_pinned,
            tcp_only(final(m), old(m)),
            final(m).observed_address == old(m).observed_address,
            final(m).address_why == old(m).address_why,
            final(m).tcp_views == old(m).tcp_views,
            final(m).tcp_same_source_port == old(m).tcp_same_source_port,
            text::texts(final(m).reflect_why@) == text::texts(old(m).reflect_why@).push(
                url@ + " via "@ + dest.text() + ": "@ + why@,
            ),
    {
        self.all_pinned = false;
        let line = text::join5(url, " via ", dest.show().as_str(), ": ", why);
        m.reflect_why.push(line);
        assert(text::texts(m.reflect_why@) =~= text::texts(old(m).reflect_why@).push(line@));
    }

    /// An edge that answered: `seen` is the address it wrote, read, and
    /// `used` is the port that the connection left from. A connection that
    /// did not leave from the pinned port is no comparison.
    pub fn answered(
        &mut self,
        m: &mut Measurements,
        dest: SocketAddr,
        answer: EdgeAnswer,
        seen: Option<IpAddr>,
        used: u16,
    )
        ensures
            final(self).pin == old(self).pin,
            final(self).pinned == (if old(self).pin && old(self).pinned is None {
                Some(used)
            } else {
                old(self).pinned
            }),
            final(self).all_pinned == (old(self).all_pinned && !(old(self).pin && (old(
                self,
            ).pinned matches Some(want) && want != used))),
            tcp_only(final(m), old(m)),
            final(m).reflect_why == old(m).reflect_why,
            final(m).tcp_same_source_port == old(m).tcp_same_source_port,
            final(m).observed_address == first_address(old(m).observed_address, seen),
            text::opt(final(m).address_why) == beside_address(
                text::opt(old(m).address_why),
                old(m).observed_address,
                seen,
                answer.edge@,
            ),
            final(m).tcp_views@.len() == old(m).tcp_views@.len() + 1,
            final(m).tcp_views@.drop_last() == old(m).tcp_views@,
            final(m).tcp_views@.last().edge == answer.edge,
            final(m).tcp_views@.last().port == answer.port,
            final(m).tcp_views@.last().dest@ == dest.text(),
    {
        if self.pin {
            match self.pinned {
                None => {
                    self.pinned = Some(used);
                },
                Some(want) => {
                    if want != used {
                        self.all_pinned = false;
                    }
                },
            }
        }
        if let Some(s) = seen {
            match m.observed_address {
                None => {
                    m.observed_address = Some(s);
                },
                Some(known) => {
                    if known != s && m.address_why.is_none() {
                        m.address_why = Some(
                            text::join4(
                                answer.edge.as_str(),
                                " saw ",
                                s.show().as_str(),
                                ", over TCP",
                            ),
                        );
                    }
                },
            }
        }
        m.tcp_views.push(EdgeView { edge: answer.edge, port: answer.port, dest: dest.show() });
        assert(m.tcp_views@.drop_last() =~= old(m).tcp_views@);
    }

    /// Ends the run: only where every view left from one port are they a
    /// comparison.
    pub fn finish(self, m: &mut Measurements)
        ensures
            tcp_only(final(m), old(m)),
            final(m).observed_address == old(m).observed_address,
            final(m).address_why == old(m).address_why,
            final(m).reflect_why == old(m).reflect_why,
            final(m).tcp_views == old(m).tcp_views,
            final(m).tcp_same_source_port == (self.pin && self.all_pinned && old(m).tcp_views@.len()
                > 1),
    {
        m.tcp_same_source_port = self.pin && self.all_pinned && m.tcp_views.len() > 1;
    }
}

// ---- laws ----

/// An address behind a carrier NAT is relay, whatever else is true.
pub proof fn a_carrier_nat_is_relay(m: &Measurements)
    requires
        m.spec_cgnat(),
    ensures
        decided(m).0 == Verdict::Relay,
{
    assert(table()[0].test.passes(m));
}

/// Holding an address of version 6 never overrides what was measured over
/// version 4: with one mapping for every destination, the verdict is the
/// same with and without it.
pub proof fn v6_never_overrides_a_measured_mapping(m: &Measurements, other: &Measurements)
    requires
        m.udp_mapping == Some(UdpMapping::Independent) || m.udp_mapping == Some(UdpMapping::Open),
        other.udp_mapping == m.udp_mapping,
        other.observed_address == m.observed_address,
        other.inbound == m.inbound,
    ensures
        decided(other) == decided(m),
        decided(m).0 != Verdict::V6Direct,
{
    reveal_with_fuel(first_match, 6);
    assert(table()[2].test.passes(m));
}

/// A verdict better than relay rests on a measurement that asked the
/// network.
pub proof fn a_better_verdict_was_measured(m: &Measurements)
    requires
        decided(m).0 != Verdict::Relay,
    ensures
        m.spec_probed(),
{
    reveal_with_fuel(first_match, 6);
}

/// Where nothing was asked of the network, the verdict is relay, and its
/// reason says that the measurement is missing.
pub proof fn nothing_measured_is_relay(m: &Measurements)
    requires
        !m.spec_probed(),
    ensures
        decided(m) == (
            Verdict::Relay,
            "the UDP mapping could not be measured, and relay is the answer that works on every network"@,
        ),
{
    reveal_with_fuel(first_match, 6);
}

/// A symmetric mapping is never called punchable, whatever TCP showed.
pub proof fn symmetric_never_punches(m: &Measurements)
    requires
        m.udp_mapping == Some(UdpMapping::Symmetric),
    ensures
        decided(m).0 != Verdict::Punchable,
{
    reveal_with_fuel(first_match, 6);
}

/// A connection that arrived at an address that is not public is not
/// called direct.
pub proof fn direct_needs_a_public_address(m: &Measurements)
    requires
        decided(m).0 == Verdict::Direct,
    ensures
        is_public_v4(m.observed_address),
        arrived(m.inbound),
{
    reveal_with_fuel(first_match, 6);
}

/// The two questions about the TCP mapping exclude each other, and without
/// one source port for all views neither is answered.
pub proof fn tcp_questions_exclude_each_other(m: &Measurements)
    ensures
        !(m.spec_tcp_agrees() is Some && m.spec_tcp_mapping_stable() is Some),
        !m.tcp_same_source_port ==> m.spec_tcp_agrees() is None && m.spec_tcp_mapping_stable()
            is None,
{
}

/// An edge that answered without a port says nothing about the mapping: it is
/// neither a destination nor a port of the comparison.
pub proof fn a_view_without_a_port_says_nothing(views: Seq<EdgeView>, one: EdgeView)
    requires
        one.port is None,
    ensures
        ports(views.push(one)) == ports(views),
        ported_dests(views.push(one)) == ported_dests(views),
{
    assert(views.push(one).drop_last() =~= views);
}

/// What TCP showed never reaches the verdict.
pub proof fn tcp_does_not_decide(m: &Measurements, other: &Measurements)
    requires
        other.udp_mapping == m.udp_mapping,
        other.observed_address == m.observed_address,
        other.routable_v6 == m.routable_v6,
        other.inbound == m.inbound,
    ensures
        decided(other) == decided(m),
{
    reveal_with_fuel(first_match, 6);
}

/// Whether the internet routes an address of version 4 with these first
/// octets: none of a private network, a carrier NAT, one link, or this
/// machine.
pub open spec fn routed(a: u8, b: u8, c: u8, d: u8) -> bool {
    &&& a != 10
    &&& !(a == 172 && 16 <= b <= 31)
    &&& !(a == 192 && b == 168)
    &&& !(a == 100 && 64 <= b <= 127)
    &&& !(a == 169 && b == 254)
    &&& a != 127
    &&& !(a == 0 && b == 0 && c == 0 && d == 0)
}

/// The verdict, from what was measured: an address behind a carrier NAT is
/// relayed; a connection that arrived at a routed address is direct; one
/// mapping for every destination can be punched; an address of version 6
/// serves only where version 4 was ruled out and nothing arrived; everything
/// else is relayed.
pub proof fn the_verdict_follows_from_the_measurements(m: &Measurements)
    ensures
        decided(m).0 == (if m.observed_address matches Some(IpAddr::V4(a, b, _, _)) && a == 100 && 64
            <= b <= 127 {
            Verdict::Relay
        } else if (m.observed_address matches Some(IpAddr::V4(a, b, c, d)) && routed(a, b, c, d))
            && (m.inbound matches Some((_, Inbound::Connected))) {
            Verdict::Direct
        } else if m.udp_mapping == Some(UdpMapping::Independent) || m.udp_mapping == Some(
            UdpMapping::Open,
        ) {
            Verdict::Punchable
        } else if m.routable_v6 is Some && !(m.inbound matches Some((_, Inbound::Connected))) && (
        m.udp_mapping == Some(UdpMapping::Symmetric) || (m.observed_address matches Some(
            IpAddr::V4(a, b, c, d),
        ) && !routed(a, b, c, d))) {
            Verdict::V6Direct
        } else {
            Verdict::Relay
        }),
{
    reveal_with_fuel(first_match, 6);
    assert(table()[0].test == Test::Carrier && table()[1].test == Test::Arrived && table()[2].test
        == Test::OneMapping && table()[3].test == Test::V6Instead && table()[4].test
        == Test::ManyMappings);
}

/// Each verdict is justified by what led to it.
pub proof fn a_verdict_says_why(m: &Measurements)
    ensures
        decided(m).0 == Verdict::Direct ==> decided(m).1
            == "an edge connected inbound to the observed address"@,
        decided(m).0 == Verdict::Punchable ==> decided(m).1
            == "the UDP mapping is endpoint-independent, so the address a STUN server sees is the address a peer can reach"@,
        decided(m).0 == Verdict::V6Direct ==> decided(m).1
            == "a routable IPv6 address is present and IPv4 has no inbound path"@,
        decided(m).0 == Verdict::Relay ==> decided(m).1 == (if m.spec_cgnat() {
            "the observed address is inside CGNAT space (100.64.0.0/10), so there is no address to be reached at and no router of yours to forward it"@
        } else if m.udp_mapping == Some(UdpMapping::Symmetric) {
            "the UDP mapping is per-destination (symmetric), so what a STUN server sees says nothing about what a peer would see"@
        } else {
            "the UDP mapping could not be measured, and relay is the answer that works on every network"@
        }),
{
    reveal_with_fuel(first_match, 6);
}

proof fn ported_are_views(views: Seq<EdgeView>, d: Seq<char>, p: u16)
    ensures
        ported_dests(views).contains(d) <==> exists|i: int|
            0 <= i < views.len() && (#[trigger] views[i]).port is Some && views[i].dest@ == d,
        ports(views).contains(p) <==> exists|i: int|
            0 <= i < views.len() && (#[trigger] views[i]).port == Some(p),
        ports(views).len() == ported_dests(views).len(),
    decreases views.len(),
{
    if views.len() > 0 {
        let rest = views.drop_last();
        let n = views.len() - 1;
        ported_are_views(rest, d, p);
        assert(forall|i: int| 0 <= i < n ==> (#[trigger] views[i]) == rest[i]);
        assert(forall|i: int| 0 <= i < n ==> views[i] == (#[trigger] rest[i]));
        assert(views[n] == views.last());
        let ds = ported_dests(views);
        let ps = ports(views);
        let ds0 = ported_dests(rest);
        let ps0 = ports(rest);
        if ds0.contains(d) {
            let k = choose|k: int| 0 <= k < ds0.len() && ds0[k] == d;
            assert(ds[k] == d);
        }
        if ps0.contains(p) {
            let k = choose|k: int| 0 <= k < ps0.len() && ps0[k] == p;
            assert(ps[k] == p);
        }
        if views.last().port is Some {
            assert(ds[ds0.len() as int] == views.last().dest@);
            assert(ps[ps0.len() as int] == views.last().port->0);
        }
        if ds.contains(d) && !ds0.contains(d) {
            let k = choose|k: int| 0 <= k < ds.len() && ds[k] == d;
            if k < ds0.len() {
                assert(ds0[k] == d);
            }
        }
        if ps.contains(p) && !ps0.contains(p) {
            let k = choose|k: int| 0 <= k < ps.len() && ps[k] == p;
            if k < ps0.len() {
                assert(ps0[k] == p);
            }
        }
    }
}

proof fn two_make_a_set_of_two<A>(s: Seq<A>)
    ensures
        s.to_set().len() >= 2 <==> exists|i: int, j: int|
            0 <= i < s.len() && 0 <= j < s.len() && #[trigger] s[i] != #[trigger] s[j],
        s.to_set().len() == 0 <==> s.len() == 0,
{
    vstd::seq_lib::seq_to_set_is_finite(s);
    let t = s.to_set();
    if s.len() == 0 {
        assert(t =~= Set::empty());
    } else {
        assert(t.contains(s[0]));
        if t.len() == 0 {
            assert(t =~= Set::empty());
        }
        if exists|i: int, j: int|
            0 <= i < s.len() && 0 <= j < s.len() && #[trigger] s[i] != #[trigger] s[j] {
            let (i, j) = choose|i: int, j: int|
                0 <= i < s.len() && 0 <= j < s.len() && #[trigger] s[i] != #[trigger] s[j];
            assert(t.contains(s[i]) && t.contains(s[j]));
            assert(t.remove(s[i]).contains(s[j]));
            if t.len() < 2 {
                assert(t.remove(s[i]).len() == 0);
                assert(t.remove(s[i]) =~= Set::empty());
            }
        } else {
            assert forall|x: A| t.contains(x) implies x == s[0] by {
                let k = choose|k: int| 0 <= k < s.len() && s[k] == x;
                assert(s[k] == s[0]);
            }
            assert(t =~= Set::empty().insert(s[0]));
        }
    }
}

/// Whether two edges with a port saw the caller at different places.
pub open spec fn two_places(views: Seq<EdgeView>) -> bool {
    exists|i: int, j: int|
        0 <= i < views.len() && 0 <= j < views.len() && (#[trigger] views[i]).port is Some && (
        #[trigger] views[j]).port is Some && views[i].dest@ != views[j].dest@
}

/// Whether every edge with a port saw the same one.
pub open spec fn one_port(views: Seq<EdgeView>) -> bool {
    forall|i: int, j: int|
        0 <= i < views.len() && 0 <= j < views.len() && (#[trigger] views[i]).port is Some && (
        #[trigger] views[j]).port is Some ==> views[i].port == views[j].port
}

/// The mapping is compared across places exactly where two of them answered
/// with a port from one source port, and it agrees where they saw one port.
pub proof fn a_comparison_takes_two_places(m: &Measurements)
    ensures
        m.spec_tcp_agrees() == (if m.tcp_same_source_port && two_places(m.tcp_views@) {
            Some(one_port(m.tcp_views@))
        } else {
            None
        }),
        m.spec_tcp_mapping_stable() is Some ==> m.tcp_same_source_port && !two_places(m.tcp_views@)
            && m.spec_tcp_mapping_stable() == Some(one_port(m.tcp_views@)),
{
    let views = m.tcp_views@;
    let ds = ported_dests(views);
    let ps = ports(views);
    two_make_a_set_of_two(ds);
    assert forall|d: Seq<char>, p: u16|
        #![trigger ds.contains(d), ps.contains(p)]
        (ds.contains(d) <==> exists|i: int|
            0 <= i < views.len() && (#[trigger] views[i]).port is Some && views[i].dest@ == d) && (
        ps.contains(p) <==> exists|i: int|
            0 <= i < views.len() && (#[trigger] views[i]).port == Some(p)) by {
        ported_are_views(views, d, p);
    }
    assert(two_places(views) <==> ds.to_set().len() >= 2) by {
        if two_places(views) {
            let (i, j) = choose|i: int, j: int|
                0 <= i < views.len() && 0 <= j < views.len() && (#[trigger] views[i]).port is Some
                    && (#[trigger] views[j]).port is Some && views[i].dest@ != views[j].dest@;
            ported_are_views(views, views[i].dest@, 0);
            ported_are_views(views, views[j].dest@, 0);
            let a = choose|a: int| 0 <= a < ds.len() && ds[a] == views[i].dest@;
            let b = choose|b: int| 0 <= b < ds.len() && ds[b] == views[j].dest@;
            assert(ds[a] != ds[b]);
        }
        if ds.to_set().len() >= 2 {
            let (a, b) = choose|a: int, b: int|
                0 <= a < ds.len() && 0 <= b < ds.len() && #[trigger] ds[a] != #[trigger] ds[b];
            ported_are_views(views, ds[a], 0);
            ported_are_views(views, ds[b], 0);
            let i = choose|i: int|
                0 <= i < views.len() && (#[trigger] views[i]).port is Some && views[i].dest@ == ds[a];
            let j = choose|j: int|
                0 <= j < views.len() && (#[trigger] views[j]).port is Some && views[j].dest@ == ds[b];
            assert(views[i].dest@ != views[j].dest@);
        }
    }
    assert(one_port(views) <==> all_same(ps)) by {
        if all_same(ps) {
            assert forall|i: int, j: int|
                0 <= i < views.len() && 0 <= j < views.len() && (#[trigger] views[i]).port is Some
                    && (#[trigger] views[j]).port is Some implies views[i].port
                == views[j].port by {
                ported_are_views(views, Seq::empty(), views[i].port->0);
                ported_are_views(views, Seq::empty(), views[j].port->0);
                let a = choose|a: int| 0 <= a < ps.len() && ps[a] == views[i].port->0;
                let b = choose|b: int| 0 <= b < ps.len() && ps[b] == views[j].port->0;
                assert(ps[a] == ps[b]);
            }
        }
        if one_port(views) {
            assert forall|a: int, b: int| 0 <= a < ps.len() && 0 <= b < ps.len() implies ps[a]
                == ps[b] by {
                ported_are_views(views, Seq::empty(), ps[a]);
                ported_are_views(views, Seq::empty(), ps[b]);
                assert(ps.contains(ps[a]) && ps.contains(ps[b]));
                let i = choose|i: int|
                    0 <= i < views.len() && (#[trigger] views[i]).port == Some(ps[a]);
                let j = choose|j: int|
                    0 <= j < views.len() && (#[trigger] views[j]).port == Some(ps[b]);
                assert(views[i].port == views[j].port);
            }
        }
    }
}

/// One place that answered twice with a port, from one source port, shows
/// whether the mapping held.
pub proof fn one_place_twice_shows_whether_it_held(m: &Measurements, i: int, j: int)
    requires
        m.tcp_same_source_port,
        !two_places(m.tcp_views@),
        0 <= i < j < m.tcp_views@.len(),
        m.tcp_views@[i].port is Some,
        m.tcp_views@[j].port is Some,
    ensures
        m.spec_tcp_mapping_stable() == Some(one_port(m.tcp_views@)),
{
    let views = m.tcp_views@;
    a_comparison_takes_two_places(m);
    two_make_a_set_of_two(ported_dests(views));
    ported_are_views(views, views[i].dest@, views[i].port->0);
    two_ported(views, i, j);
    let ds = ported_dests(views);
    assert(ds.to_set().len() < 2) by {
        if ds.to_set().len() >= 2 {
            assert(m.spec_tcp_agrees() is Some);
        }
    }
}

proof fn two_ported(views: Seq<EdgeView>, i: int, j: int)
    requires
        0 <= i < j < views.len(),
        views[i].port is Some,
        views[j].port is Some,
    ensures
        ports(views).len() >= 2,
    decreases views.len(),
{
    let rest = views.drop_last();
    if j < rest.len() {
        assert(rest[i] == views[i] && rest[j] == views[j]);
        two_ported(rest, i, j);
    } else {
        ported_are_views(rest, rest[i].dest@, views[i].port->0);
        assert(rest[i] == views[i]);
        assert(ports(rest).contains(views[i].port->0));
    }
}

/// Probes agree on an address exactly where there are some and they all saw
/// it.
pub proof fn probes_agree_or_nothing_is_known(seen: Seq<IpAddr>, a: IpAddr)
    ensures
        agreed(seen) == Some(a) <==> seen.len() > 0 && forall|i: int|
            0 <= i < seen.len() ==> (#[trigger] seen[i]) == a,
{
    if seen.len() > 0 {
        assert(seen[0] == seen[0]);
    }
}

/// An address of version 6 is routable but for the unspecified one, the
/// machine's own, those of one link, and those of local networks.
pub proof fn v6_is_routable_but_for_local_ones(
    a: u16,
    b: u16,
    c: u16,
    d: u16,
    e: u16,
    f: u16,
    g: u16,
    h: u16,
)
    ensures
        is_routable_v6(IpAddr::V6(a, b, c, d, e, f, g, h)) <==> {
            &&& !(a == 0 && b == 0 && c == 0 && d == 0 && e == 0 && f == 0 && g == 0 && h <= 1)
            &&& !(0xfe80 <= a < 0xfec0)
            &&& !(0xfc00 <= a < 0xfe00)
        },
        forall|o: u8, p: u8, q: u8, r: u8| !(#[trigger] is_routable_v6(IpAddr::V4(o, p, q, r))),
{
}

/// Each port is reported with the server that saw it, in order.
pub proof fn a_port_goes_with_its_server(servers: Seq<String>, probes: Seq<SocketAddr>, i: int)
    requires
        0 <= i < servers.len(),
        i < probes.len(),
    ensures
        i < paired(servers, probes).len(),
        paired(servers, probes)[i] == (servers[i]@, probes[i].port),
        paired(servers, probes).len() <= servers.len(),
        paired(servers, probes).len() <= probes.len(),
{
}

/// What an edge says of the caller is taken as it says it; a port that is
/// none is not taken, and an edge without a name goes by its URL.
pub proof fn an_edge_is_taken_at_its_word(url: Seq<char>, o: json::JsonView, doc: json::JsonView)
    requires
        json::member(Some(doc), "observed"@) == Some(o),
    ensures
        answer_in(url, Some(doc)) matches Ok((edge, port, address)) && {
            &&& edge == (match json::as_text(json::member(Some(o), "edge"@)) {
                Some(e) => e,
                None => url,
            })
            &&& port matches Some(p) ==> json::as_u64(json::member(Some(o), "port"@)) == Some(
                p as u64,
            )
            &&& port is None ==> match json::as_u64(json::member(Some(o), "port"@)) {
                Some(n) => n > 65_535,
                None => true,
            }
            &&& address == json::as_text(json::member(Some(o), "address"@))
        },
        answer_in(url, None) is Err,
{
}

/// The first address that is seen stays, and the first that differs from it is
/// told beside it.
pub proof fn the_first_address_stays(
    known: Option<IpAddr>,
    seen: Option<IpAddr>,
    why: Option<Seq<char>>,
    edge: Seq<char>,
)
    ensures
        known is Some ==> first_address(known, seen) == known,
        known is None ==> first_address(known, seen) == seen,
        why is Some ==> beside_address(why, known, seen, edge) == why,
        known is None || seen is None || known == seen ==> beside_address(why, known, seen, edge)
            == why,
        known is Some && seen is Some && known != seen && why is None ==> beside_address(
            why,
            known,
            seen,
            edge,
        ) == Some(edge + " saw "@ + seen->0.text() + ", over TCP"@),
{
}

/// The report says the verdict and its reason first, then what to use, and a
/// line for each measurement, taken or not.
pub proof fn a_report_leads_with_the_verdict(m: &Measurements, verdict: Verdict, why: Seq<char>)
    ensures
        text::begins(report(m, verdict, why), verdict.spec_name() + " \u{2014} "@ + why + "\n"@),
        text::ends(report(m, verdict, why), udp_line(m) + tcp_line(m) + inbound_line(m)),
        m.observed_address is None ==> address_line(m)
            == "  address    not measured (no STUN server or reflect edge answered)\n"@,
        m.observed_address matches Some(a) ==> text::begins(
            address_line(m),
            "  address    "@ + a.text(),
        ),
{
    reveal_strlit("\n  use: ");
    reveal_strlit("\n");
    reveal_strlit(" \u{2014} ");
    let r = report(m, verdict, why);
    let front = verdict.spec_name() + " \u{2014} "@ + why + "\n"@;
    let back = udp_line(m) + tcp_line(m) + inbound_line(m);
    assert(r.subrange(0, front.len() as int) =~= front);
    assert(r.subrange(r.len() - back.len(), r.len() as int) =~= back);
    if let Some(a) = m.observed_address {
        let start = "  address    "@ + a.text();
        let line = address_line(m);
        assert(line.subrange(0, start.len() as int) =~= start);
    }
}

proof fn a_part_stands(a: Seq<char>, m: Seq<char>, b: Seq<char>)
    ensures
        text::contains(a + m + b, m),
{
    assert((a + m + b).subrange(a.len() as int, (a.len() + m.len()) as int) =~= m);
    assert(text::stands_at(a + m + b, m, a.len() as int));
}

/// The evidence shows every measurement: each address, each mapped port with
/// who saw it, and for what was not measured the first reason that was given.
pub proof fn the_evidence_shows_each_measurement(m: &Measurements)
    ensures
        m.observed_address matches Some(a) ==> text::contains(address_line(m), a.text()),
        m.observed_address is Some && m.address_why is Some ==> text::contains(
            address_line(m),
            m.address_why->0@,
        ),
        m.routable_v6 matches Some(a) ==> text::contains(v6_line(m), a.text()),
        m.udp_ports@.len() > 0 ==> text::contains(
            udp_line(m),
            text::joined(udp_pairs(m.udp_ports@), ", "@),
        ),
        m.udp_ports@.len() == 0 && m.udp_why is Some ==> text::contains(
            udp_line(m),
            m.udp_why->0@,
        ),
        m.tcp_views@.len() > 0 ==> text::contains(
            tcp_line(m),
            text::joined(tcp_pairs(m.tcp_views@), ", "@),
        ),
        m.tcp_views@.len() == 0 && m.reflect_why@.len() > 0 ==> text::contains(
            tcp_line(m),
            m.reflect_why@.first()@,
        ),
        m.inbound matches Some((port, _)) ==> text::contains(
            inbound_line(m),
            text::dec(port as nat),
        ),
{
    let end = "\n"@;
    if let Some(a) = m.observed_address {
        let cgnat = if m.spec_cgnat() {
            " (CGNAT)"@
        } else {
            ""@
        };
        let beside = match m.address_why {
            Some(why) => " ("@ + why@ + ")"@,
            None => ""@,
        };
        assert(address_line(m) =~= "  address    "@ + a.text() + (cgnat + beside + end));
        a_part_stands("  address    "@, a.text(), cgnat + beside + end);
        if let Some(why) = m.address_why {
            let front = "  address    "@ + a.text() + cgnat + " ("@;
            assert(address_line(m) =~= front + why@ + (")"@ + end));
            a_part_stands(front, why@, ")"@ + end);
        }
    }
    if let Some(a) = m.routable_v6 {
        a_part_stands("  v6         "@, a.text(), end);
    }
    if m.udp_ports@.len() > 0 {
        let all = text::joined(udp_pairs(m.udp_ports@), ", "@);
        let label = udp_label(m.udp_mapping);
        assert(udp_line(m) =~= "  udp map    "@ + all + (label + end));
        a_part_stands("  udp map    "@, all, label + end);
    } else if let Some(why) = m.udp_why {
        a_part_stands("  udp map    not measured ("@, why@, ")\n"@);
    }
    if m.tcp_views@.len() > 0 {
        let all = text::joined(tcp_pairs(m.tcp_views@), ", "@);
        let label = tcp_label(m);
        assert(tcp_line(m) =~= "  tcp map    "@ + all + (label + end));
        a_part_stands("  tcp map    "@, all, label + end);
    } else if m.reflect_why@.len() > 0 {
        a_part_stands("  tcp map    not measured ("@, m.reflect_why@[0]@, ")\n"@);
    }
    if let Some((port, r)) = m.inbound {
        let what = match r {
            Inbound::Connected => "connected"@,
            Inbound::Refused => "refused"@,
            Inbound::Timeout => "timeout"@,
        };
        let p = text::dec(port as nat);
        assert(inbound_line(m) =~= "  inbound    port "@ + p + (": "@ + what + end));
        a_part_stands("  inbound    port "@, p, ": "@ + what + end);
    }
}

/// A port is shown with who saw it; an edge that saw none is shown without
/// one.
pub proof fn a_port_is_shown_with_who_saw_it(
    ps: Seq<(String, u16)>,
    vs: Seq<EdgeView>,
    i: int,
    j: int,
)
    requires
        0 <= i < ps.len(),
        0 <= j < vs.len(),
    ensures
        udp_pairs(ps).len() == ps.len(),
        udp_pairs(ps)[i] == text::dec(ps[i].1 as nat) + " ("@ + ps[i].0@ + ")"@,
        tcp_pairs(vs).len() == vs.len(),
        vs[j].port matches Some(p) ==> tcp_pairs(vs)[j] == text::dec(p as nat) + " ("@ + vs[j].edge@
            + ")"@,
        vs[j].port is None ==> tcp_pairs(vs)[j] == "absent ("@ + vs[j].edge@ + ")"@,
        udp_label(Some(UdpMapping::Symmetric)) == "  SYMMETRIC"@,
        udp_label(Some(UdpMapping::Independent)) == "  independent"@,
        udp_label(Some(UdpMapping::Open)) == "  open"@,
        udp_label(None) == ""@,
{
}

/// Each half of a measurement leaves the other half as it was.
pub proof fn each_half_leaves_the_other(m: &Measurements, before: &Measurements)
    ensures
        tcp_only(m, before) ==> m.routable_v6 == before.routable_v6 && m.udp_mapping
            == before.udp_mapping && m.udp_ports == before.udp_ports && m.udp_why == before.udp_why
            && m.inbound == before.inbound,
        rest_unchanged(m, before) ==> m.tcp_views == before.tcp_views && m.tcp_same_source_port
            == before.tcp_same_source_port && m.reflect_why == before.reflect_why && m.address_why
            == before.address_why && m.inbound == before.inbound,
{
}

/// What an edge tells is what its answer holds: all of it, or why there is
/// none.
pub proof fn what_is_told_is_the_answer(
    r: Result<EdgeAnswer, String>,
    url: Seq<char>,
    doc: Option<json::JsonView>,
)
    requires
        tells(r, url, doc),
    ensures
        r is Ok <==> answer_in(url, doc) is Ok,
        r matches Ok(a) ==> answer_in(url, doc) == Ok::<
            (Seq<char>, Option<u16>, Option<Seq<char>>),
            Seq<char>,
        >((a.edge@, a.port, text::opt(a.address))),
        r matches Err(why) ==> answer_in(url, doc) == Err::<
            (Seq<char>, Option<u16>, Option<Seq<char>>),
            Seq<char>,
        >(why@),
{
}

/// The views of the edges are shown with what they come to: a comparison where
/// there was one, whether a mapping held where one edge was asked twice, and
/// else why there was no comparison.
pub proof fn the_edges_are_shown_with_what_they_come_to(m: &Measurements, n: nat)
    ensures
        m.spec_tcp_agrees() == Some(true) ==> tcp_label(m)
            == "  independent (pinned source port, sequential)"@,
        m.spec_tcp_agrees() == Some(false) ==> tcp_label(m)
            == "  per-destination (pinned source port, sequential)"@,
        m.spec_tcp_agrees() is None && m.spec_tcp_mapping_stable() == Some(true) ==> tcp_label(m)
            == "  one edge twice: the mapping held (a second vantage would measure something)"@,
        m.spec_tcp_agrees() is None && m.spec_tcp_mapping_stable() == Some(false) ==> tcp_label(m)
            == "  one edge twice: the mapping CHANGED, so no two-edge comparison can succeed here"@,
        m.spec_tcp_agrees() is None && m.spec_tcp_mapping_stable() is None && m.tcp_views@.len() > 1
            ==> tcp_label(m)
            == "  (separate connections, so separate source ports; not a comparison)"@,
        m.spec_tcp_agrees() is None && m.spec_tcp_mapping_stable() is None && m.tcp_views@.len() <= 1
            ==> tcp_label(m) == "  (one vantage; not a comparison)"@,
        too_few_servers(n)
            == "classifying a NAT mapping needs two servers on separate addresses; "@ + text::dec(n)
            + " given"@,
{
}

} // verus!
