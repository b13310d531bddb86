//! Network addresses as plain numbers, and how they are written.

use crate::text;
use vstd::prelude::*;

verus! {

/// An address of version 4, by its four octets, or of version 6, by its
/// eight segments.
#[derive(Clone, Copy, PartialEq, Eq, Structural, Debug)]
pub enum IpAddr {
    V4(u8, u8, u8, u8),
    V6(u16, u16, u16, u16, u16, u16, u16, u16),
}

/// An address and a port.
#[derive(Clone, Copy, PartialEq, Eq, Structural, Debug)]
pub struct SocketAddr {
    pub ip: IpAddr,
    pub port: u16,
}

impl IpAddr {
    /// `10.0.0.0/8`, `172.16.0.0/12` and `192.168.0.0/16`.
    pub open spec fn spec_private(self) -> bool {
        self matches IpAddr::V4(a, b, c, d) && (a == 10 || (a == 172 && 16 <= b <= 31) || (a == 192
            && b == 168))
    }

    /// Tells whether the address is one for private networks.
    pub fn is_private(&self) -> (r: bool)
        ensures
            r == self.spec_private(),
    {
        match *self {
            IpAddr::V4(a, b, _, _) => a == 10 || (a == 172 && 16 <= b && b <= 31) || (a == 192 && b
                == 168),
            _ => false,
        }
    }

    /// `127.0.0.0/8`, and `::1`.
    pub open spec fn spec_loopback(self) -> bool {
        match self {
            IpAddr::V4(a, b, c, d) => a == 127,
            _ => self == IpAddr::V6(0, 0, 0, 0, 0, 0, 0, 1),
        }
    }

    /// Tells whether the address is the machine's own.
    pub fn is_loopback(&self) -> (r: bool)
        ensures
            r == self.spec_loopback(),
    {
        match *self {
            IpAddr::V4(a, _, _, _) => a == 127,
            _ => *self == IpAddr::V6(0, 0, 0, 0, 0, 0, 0, 1),
        }
    }

    /// `169.254.0.0/16`, and `fe80::/10`.
    pub open spec fn spec_link_local(self) -> bool {
        match self {
            IpAddr::V4(a, b, c, d) => a == 169 && b == 254,
            IpAddr::V6(s, _, _, _, _, _, _, _) => 0xfe80 <= s <= 0xfebf,
        }
    }

    /// Tells whether the address holds on one link only.
    pub fn is_link_local(&self) -> (r: bool)
        ensures
            r == self.spec_link_local(),
    {
        match *self {
            IpAddr::V4(a, b, _, _) => a == 169 && b == 254,
            IpAddr::V6(s, _, _, _, _, _, _, _) => 0xfe80 <= s && s <= 0xfebf,
        }
    }

    /// `0.0.0.0` and `::`.
    pub open spec fn spec_unspecified(self) -> bool {
        self == IpAddr::V4(0, 0, 0, 0) || self == IpAddr::V6(0, 0, 0, 0, 0, 0, 0, 0)
    }

    /// Tells whether the address names no host.
    pub fn is_unspecified(&self) -> (r: bool)
        ensures
            r == self.spec_unspecified(),
    {
        *self == IpAddr::V4(0, 0, 0, 0) || *self == IpAddr::V6(0, 0, 0, 0, 0, 0, 0, 0)
    }

    /// `fc00::/7`.
    pub open spec fn spec_unique_local(self) -> bool {
        self matches IpAddr::V6(s, _, _, _, _, _, _, _) && 0xfc00 <= s <= 0xfdff
    }

    /// Tells whether the address is a local one of version 6.
    pub fn is_unique_local(&self) -> (r: bool)
        ensures
            r == self.spec_unique_local(),
    {
        match *self {
            IpAddr::V6(s, _, _, _, _, _, _, _) => 0xfc00 <= s && s <= 0xfdff,
            _ => false,
        }
    }

    /// The address in text.
    pub open spec fn text(self) -> Seq<char> {
        match self {
            IpAddr::V4(a, b, c, d) => dotted(a, b, c, d),
            IpAddr::V6(s0, s1, s2, s3, s4, s5, s6, s7) => v6_text(
                seq![s0, s1, s2, s3, s4, s5, s6, s7],
            ),
        }
    }

    /// Writes the address.
    pub fn show(&self) -> (r: String)
        ensures
            r@ == self.text(),
    {
        match *self {
            IpAddr::V4(a, b, c, d) => show_dotted(a, b, c, d),
            IpAddr::V6(s0, s1, s2, s3, s4, s5, s6, s7) => {
                let mut s: Vec<u16> = Vec::new();
                s.push(s0);
                s.push(s1);
                s.push(s2);
                s.push(s3);
                s.push(s4);
                s.push(s5);
                s.push(s6);
                s.push(s7);
                assert(s@ =~= seq![s0, s1, s2, s3, s4, s5, s6, s7]);
                show_v6(&s)
            },
        }
    }
}

impl SocketAddr {
    /// The address and the port in text; an address of version 6 stands in
    /// brackets.
    pub open spec fn text(self) -> Seq<char> {
        match self.ip {
            IpAddr::V4(a, b, c, d) => self.ip.text() + ":"@ + text::dec(self.port as nat),
            _ => "["@ + self.ip.text() + "]:"@ + text::dec(self.port as nat),
        }
    }

    /// Writes the address and the port.
    pub fn show(&self) -> (r: String)
        ensures
            r@ == self.text(),
    {
        let ip = self.ip.show();
        let port = text::decimal(self.port as u64);
        match self.ip {
            IpAddr::V4(_, _, _, _) => text::join3(ip.as_str(), ":", port.as_str()),
            _ => text::join4("[", ip.as_str(), "]:", port.as_str()),
        }
    }
}

/// Four numbers with dots between them.
pub open spec fn dotted(a: u8, b: u8, c: u8, d: u8) -> Seq<char> {
    text::dec(a as nat) + "."@ + text::dec(b as nat) + "."@ + text::dec(c as nat) + "."@
        + text::dec(d as nat)
}

fn show_dotted(a: u8, b: u8, c: u8, d: u8) -> (r: String)
    ensures
        r@ == dotted(a, b, c, d),
{
    let mut r = text::join4(
        text::decimal(a as u64).as_str(),
        ".",
        text::decimal(b as u64).as_str(),
        ".",
    );
    r.append(text::decimal(c as u64).as_str());
    r.append(".");
    r.append(text::decimal(d as u64).as_str());
    r
}

/// The character of a hexadecimal digit.
pub open spec fn hex_digit(d: nat) -> char {
    if d < 10 {
        (48 + d) as char
    } else {
        (87 + d) as char
    }
}

/// A number in hexadecimal.
pub open spec fn hex(n: nat) -> Seq<char>
    decreases n,
{
    if n < 16 {
        seq![hex_digit(n)]
    } else {
        hex(n / 16).push(hex_digit(n % 16))
    }
}

fn show_hex(n: u16) -> (r: String)
    ensures
        r@ == hex(n as nat),
    decreases n,
{
    let d: u8 = (n % 16) as u8;
    let c: char = if d < 10 {
        (48u8 + d) as char
    } else {
        (87u8 + d) as char
    };
    assert(c == hex_digit((n % 16) as nat));
    if n < 16 {
        let mut s = String::new();
        s.push(c);
        assert(s@ == seq![hex_digit(n as nat)]);
        s
    } else {
        let mut s = show_hex(n / 16);
        s.push(c);
        s
    }
}

/// Segments in hexadecimal, with colons between them.
pub open spec fn colons(s: Seq<u16>) -> Seq<char> {
    text::joined(s.map_values(|n: u16| hex(n as nat)), ":"@)
}

fn show_colons(s: &Vec<u16>, lo: usize, hi: usize) -> (r: String)
    requires
        lo <= hi <= s.len(),
    ensures
        r@ == colons(s@.subrange(lo as int, hi as int)),
{
    let mut parts: Vec<String> = Vec::new();
    let mut i: usize = lo;
    while i < hi
        invariant
            lo <= i <= hi <= s.len(),
            parts.len() == i - lo,
            forall|k: int| 0 <= k < i - lo ==> (#[trigger] parts@[k])@ == hex(s@[lo + k] as nat),
        decreases hi - i,
    {
        parts.push(show_hex(s[i]));
        i = i + 1;
    }
    assert(text::texts(parts@) =~= s@.subrange(lo as int, hi as int).map_values(
        |n: u16| hex(n as nat),
    ));
    text::join(&parts, ":")
}

/// How many zeros stand from place `i` on.
pub open spec fn zeros(s: Seq<u16>, i: int) -> nat
    decreases s.len() - i,
{
    if 0 <= i < s.len() && s[i] == 0 {
        1 + zeros(s, i + 1)
    } else {
        0
    }
}

/// The place of the longest run of zeros at or after `i`; the first of the
/// longest.
pub open spec fn longest(s: Seq<u16>, i: int) -> int
    decreases s.len() - i,
{
    if i < 0 || i + 1 >= s.len() {
        i
    } else if zeros(s, i) >= zeros(s, longest(s, i + 1)) {
        i
    } else {
        longest(s, i + 1)
    }
}

/// An address of version 6 in text: one that holds an address of version 4
/// shows it; else the first longest run of two or more zeros is left out.
pub open spec fn v6_text(s: Seq<u16>) -> Seq<char> {
    if s[0] == 0 && s[1] == 0 && s[2] == 0 && s[3] == 0 && s[4] == 0 && s[5] == 0xffff {
        "::ffff:"@ + dotted(
            (s[6] / 256) as u8,
            (s[6] % 256) as u8,
            (s[7] / 256) as u8,
            (s[7] % 256) as u8,
        )
    } else {
        let at = longest(s, 0);
        let n = zeros(s, at);
        if n > 1 {
            colons(s.subrange(0, at)) + "::"@ + colons(s.subrange(at + n, s.len() as int))
        } else {
            colons(s)
        }
    }
}

fn count_zeros(s: &Vec<u16>, i: usize) -> (r: usize)
    requires
        i <= s.len(),
    ensures
        r == zeros(s@, i as int),
        i + r <= s.len(),
    decreases s.len() - i,
{
    if i < s.len() && s[i] == 0 {
        1 + count_zeros(s, i + 1)
    } else {
        0
    }
}

fn find_longest(s: &Vec<u16>, i: usize) -> (r: usize)
    requires
        i < s.len(),
    ensures
        r == longest(s@, i as int),
        i <= r < s.len(),
    decreases s.len() - i,
{
    if i + 1 >= s.len() {
        return i;
    }
    let rest: usize = find_longest(s, i + 1);
    if count_zeros(s, i) >= count_zeros(s, rest) {
        i
    } else {
        rest
    }
}

fn show_v6(s: &Vec<u16>) -> (r: String)
    requires
        s.len() == 8,
    ensures
        r@ == v6_text(s@),
{
    if s[0] == 0 && s[1] == 0 && s[2] == 0 && s[3] == 0 && s[4] == 0 && s[5] == 0xffff {
        let quad = show_dotted(
            (s[6] / 256) as u8,
            (s[6] % 256) as u8,
            (s[7] / 256) as u8,
            (s[7] % 256) as u8,
        );
        return text::join2("::ffff:", quad.as_str());
    }
    let at: usize = find_longest(s, 0);
    let n: usize = count_zeros(s, at);
    if n > 1 {
        text::join3(
            show_colons(s, 0, at).as_str(),
            "::",
            show_colons(s, at + n, s.len()).as_str(),
        )
    } else {
        assert(s@.subrange(0, s@.len() as int) == s@);
        show_colons(s, 0, s.len())
    }
}

// ---- laws ----

/// Which addresses of version 4 are for private networks, for this machine,
/// for one link, or for nobody, by their octets.
pub proof fn addresses_of_version_4_by_their_octets(a: u8, b: u8, c: u8, d: u8)
    ensures
        IpAddr::V4(a, b, c, d).spec_private() <==> a == 10 || (a == 172 && 16 <= b < 32) || (a == 192
            && b == 168),
        IpAddr::V4(a, b, c, d).spec_loopback() <==> a == 127,
        IpAddr::V4(a, b, c, d).spec_link_local() <==> a == 169 && b == 254,
        IpAddr::V4(a, b, c, d).spec_unspecified() <==> a == 0 && b == 0 && c == 0 && d == 0,
        !IpAddr::V4(a, b, c, d).spec_unique_local(),
{
}

/// Which addresses of version 6 are for this machine, for one link, for local
/// networks, or for nobody, by their segments, which are written in order.
pub proof fn addresses_of_version_6_by_their_segments(
    a: u16,
    b: u16,
    c: u16,
    d: u16,
    e: u16,
    f: u16,
    g: u16,
    h: u16,
)
    ensures
        ({
            let ip = IpAddr::V6(a, b, c, d, e, f, g, h);
            let front = a == 0 && b == 0 && c == 0 && d == 0 && e == 0 && f == 0 && g == 0;
            &&& !ip.spec_private()
            &&& ip.spec_loopback() <==> front && h == 1
            &&& ip.spec_unspecified() <==> front && h == 0
            &&& ip.spec_link_local() <==> 0xfe80 <= a < 0xfec0
            &&& ip.spec_unique_local() <==> 0xfc00 <= a < 0xfe00
            &&& ip.text() == v6_text(seq![a, b, c, d, e, f, g, h])
        }),
{
}

/// An address of version 4 is written as its octets in decimal with a dot
/// between each two, and a port behind a colon; one of version 6 stands in
/// brackets before it.
pub proof fn an_address_is_written_by_its_octets(a: u8, b: u8, c: u8, d: u8, s: SocketAddr)
    ensures
        IpAddr::V4(a, b, c, d).text() == text::dec(a as nat) + "."@ + text::dec(b as nat) + "."@
            + text::dec(c as nat) + "."@ + text::dec(d as nat),
        s.ip is V4 ==> s.text() == s.ip.text() + ":"@ + text::dec(s.port as nat),
        s.ip is V6 ==> s.text() == "["@ + s.ip.text() + "]:"@ + text::dec(s.port as nat),
{
}

/// A segment is written in base sixteen: one below sixteen is its digit, and
/// sixteen times a number and a digit more is that number with the digit
/// behind it.
pub proof fn a_segment_is_base_sixteen(n: nat, d: nat)
    requires
        d < 16,
    ensures
        d < 10 ==> hex(d) == seq![(48 + d) as char],
        10 <= d ==> hex(d) == seq![(87 + d) as char],
        n > 0 ==> hex(n * 16 + d) == hex(n) + hex(d),
{
    assert((n * 16 + d) / 16 == n);
    assert((n * 16 + d) % 16 == d);
    if n > 0 {
        assert(hex(n).push(hex_digit(d)) =~= hex(n) + hex(d));
    }
}

proof fn zeros_are_zero(s: Seq<u16>, i: int)
    requires
        0 <= i <= s.len(),
    ensures
        i + zeros(s, i) <= s.len(),
        forall|k: int| i <= k < i + zeros(s, i) ==> (#[trigger] s[k]) == 0,
        i + zeros(s, i) < s.len() ==> s[(i + zeros(s, i)) as int] != 0,
    decreases s.len() - i,
{
    if i < s.len() && s[i] == 0 {
        zeros_are_zero(s, i + 1);
    }
}

proof fn longest_is_longest(s: Seq<u16>, i: int)
    requires
        0 <= i < s.len(),
    ensures
        i <= longest(s, i) < s.len(),
        forall|k: int| i <= k < s.len() ==> #[trigger] zeros(s, k) <= zeros(s, longest(s, i)),
        forall|k: int|
            i <= k < longest(s, i) ==> #[trigger] zeros(s, k) < zeros(s, longest(s, i)),
    decreases s.len() - i,
{
    if i + 1 < s.len() {
        longest_is_longest(s, i + 1);
    }
}

/// The zeros that an address of version 6 leaves out are its first longest run
/// of two or more; an address without one is written whole, and one that holds
/// an address of version 4 shows it.
pub proof fn the_first_longest_run_is_left_out(s: Seq<u16>)
    requires
        s.len() == 8,
    ensures
        ({
            let at = longest(s, 0);
            let n = zeros(s, at);
            let mapped = s.subrange(0, 5) == seq![0u16, 0, 0, 0, 0] && s[5] == 0xffff;
            &&& 0 <= at
            &&& at + n <= 8
            &&& forall|k: int| at <= k < at + n ==> (#[trigger] s[k]) == 0
            &&& forall|k: int| 0 <= k < 8 ==> #[trigger] zeros(s, k) <= n
            &&& forall|k: int| 0 <= k < at ==> #[trigger] zeros(s, k) < n
            &&& mapped ==> v6_text(s) == "::ffff:"@ + IpAddr::V4(
                (s[6] / 256) as u8,
                (s[6] % 256) as u8,
                (s[7] / 256) as u8,
                (s[7] % 256) as u8,
            ).text()
            &&& !mapped && n > 1 ==> v6_text(s) == colons(s.subrange(0, at)) + "::"@ + colons(
                s.subrange((at + n) as int, 8),
            )
            &&& !mapped && n <= 1 ==> v6_text(s) == colons(s)
        }),
{
    longest_is_longest(s, 0);
    zeros_are_zero(s, longest(s, 0));
    let five = s.subrange(0, 5);
    let none = seq![0u16, 0, 0, 0, 0];
    assert(five[0] == s[0] && five[1] == s[1] && five[2] == s[2] && five[3] == s[3] && five[4]
        == s[4]);
    assert(none[0] == 0 && none[1] == 0 && none[2] == 0 && none[3] == 0 && none[4] == 0);
    if s[0] == 0 && s[1] == 0 && s[2] == 0 && s[3] == 0 && s[4] == 0 {
        assert(five =~= none);
    }
}

/// Segments are written one behind the other, with a colon between each two.
pub proof fn segments_stand_between_colons(s: Seq<u16>, n: u16)
    ensures
        colons(Seq::empty()) == Seq::<char>::empty(),
        colons(seq![n]) == hex(n as nat),
        s.len() > 0 ==> colons(s.push(n)) == colons(s) + ":"@ + hex(n as nat),
{
    let f = |n: u16| hex(n as nat);
    assert(Seq::<u16>::empty().map_values(f) =~= Seq::<Seq<char>>::empty());
    assert(seq![n].map_values(f) =~= seq![hex(n as nat)]);
    assert(s.push(n).map_values(f) =~= s.map_values(f).push(hex(n as nat)));
    text::a_join_puts_the_separator_between(s.map_values(f), hex(n as nat), ":"@);
}

} // verus!
