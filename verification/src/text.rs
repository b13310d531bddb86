//! Text as sequences of characters: building, comparing, searching,
//! splitting, joining, and decimal numbers in both directions.

use vstd::prelude::*;

verus! {

/// `String::push` appends one character to the end of the string.
pub assume_specification[ String::push ](s: &mut String, c: char)
    ensures
        final(s)@ == old(s)@.push(c),
;

/// What `char::is_whitespace` answers of a character beyond ASCII: whether
/// it has the Unicode `White_Space` property.
pub uninterp spec fn white_space(c: char) -> bool;

/// `char::is_whitespace` tells whether the character has the `White_Space`
/// property. Among the ASCII characters those are the space and the five
/// control characters from tab to carriage return.
pub assume_specification[ char::is_whitespace ](c: char) -> (r: bool)
    ensures
        c as u32 <= 0x7f ==> (r <==> c == ' ' || 0x09 <= c as u32 <= 0x0d),
        c as u32 > 0x7f ==> r == white_space(c),
;

/// Whether a character is white space.
pub open spec fn blank(c: char) -> bool {
    if c as u32 <= 0x7f {
        c == ' ' || 0x09 <= c as u32 <= 0x0d
    } else {
        white_space(c)
    }
}

/// The text that `std::str::from_utf8` reads from bytes: `Some` exactly
/// when the bytes are UTF-8, and then the string whose encoding they are.
#[verifier::external_body]
pub(crate) fn utf8(bytes: &[u8]) -> (r: Option<String>)
    ensures
        r is Some <==> vstd::utf8::valid_utf8(bytes@),
        r is Some ==> vstd::utf8::encode_utf8(r->0@) == bytes@,
{
    std::str::from_utf8(bytes).ok().map(|s| s.to_string())
}

/// The text that `String::from_utf8_lossy` reads from bytes.
pub uninterp spec fn lossy(bytes: Seq<u8>) -> Seq<char>;

/// `String::from_utf8_lossy`: what it reads depends on the bytes alone, and
/// bytes that are UTF-8 it reads as the text whose encoding they are.
#[verifier::external_body]
pub(crate) fn read_lossy(bytes: &[u8]) -> (r: String)
    ensures
        r@ == lossy(bytes@),
        vstd::utf8::valid_utf8(bytes@) ==> vstd::utf8::encode_utf8(r@) == bytes@,
{
    String::from_utf8_lossy(bytes).into_owned()
}

/// The views of a sequence of strings.
pub open spec fn texts(v: Seq<String>) -> Seq<Seq<char>> {
    v.map_values(|s: String| s@)
}

/// A copy of some strings.
pub fn copied(names: &Vec<String>) -> (r: Vec<String>)
    ensures
        texts(r@) == texts(names@),
{
    let mut r: Vec<String> = Vec::new();
    let mut i: usize = 0;
    while i < names.len()
        invariant
            i <= names.len(),
            r.len() == i,
            forall|k: int| 0 <= k < i ==> (#[trigger] r@[k])@ == names@[k]@,
        decreases names.len() - i,
    {
        r.push(names[i].clone());
        i = i + 1;
    }
    assert(texts(r@) =~= texts(names@));
    r
}

/// The characters of a string.
pub fn chars(s: &str) -> (r: Vec<char>)
    ensures
        r@ == s@,
{
    let mut r: Vec<char> = Vec::new();
    for c in it: s.chars()
        invariant
            r@ == s@.take(it.index()),
            it.seq() == s@,
    {
        r.push(c);
    }
    assert(s@.take(s@.len() as int) == s@);
    r
}

/// The string that holds exactly these characters.
pub fn string(cs: &[char]) -> (r: String)
    ensures
        r@ == cs@,
{
    let mut r = String::new();
    let mut i: usize = 0;
    while i < cs.len()
        invariant
            i <= cs.len(),
            r@ == cs@.subrange(0, i as int),
        decreases cs.len() - i,
    {
        r.push(cs[i]);
        assert(cs@.subrange(0, i + 1) == cs@.subrange(0, i as int).push(cs@[i as int]));
        i = i + 1;
    }
    assert(cs@.subrange(0, cs@.len() as int) == cs@);
    r
}

/// The characters from `lo` up to `hi`, as a string.
pub fn cut(cs: &Vec<char>, lo: usize, hi: usize) -> (r: String)
    requires
        lo <= hi <= cs.len(),
    ensures
        r@ == cs@.subrange(lo as int, hi as int),
{
    let mut r = String::new();
    let mut i: usize = lo;
    while i < hi
        invariant
            lo <= i <= hi <= cs.len(),
            r@ == cs@.subrange(lo as int, i as int),
        decreases hi - i,
    {
        r.push(cs[i]);
        assert(cs@.subrange(lo as int, i + 1) == cs@.subrange(lo as int, i as int).push(
            cs@[i as int],
        ));
        i = i + 1;
    }
    r
}

/// Whether two strings hold the same characters.
pub fn same(a: &str, b: &str) -> (r: bool)
    ensures
        r == (a@ == b@),
{
    let x: String = a.to_owned();
    let y: String = b.to_owned();
    x == y
}

/// Tells whether a string is among others.
pub fn among(names: &Vec<String>, name: &str) -> (r: bool)
    ensures
        r == texts(names@).contains(name@),
{
    let mut i: usize = 0;
    while i < names.len()
        invariant
            i <= names.len(),
            forall|k: int| 0 <= k < i ==> (#[trigger] texts(names@)[k]) != name@,
        decreases names.len() - i,
    {
        if same(names[i].as_str(), name) {
            assert(texts(names@)[i as int] == name@);
            return true;
        }
        i = i + 1;
    }
    false
}

/// Two strings, one after the other.
pub fn join2(a: &str, b: &str) -> (r: String)
    ensures
        r@ == a@ + b@,
{
    let mut r: String = a.to_owned();
    r.append(b);
    r
}

/// Three strings, one after the other.
pub fn join3(a: &str, b: &str, c: &str) -> (r: String)
    ensures
        r@ == a@ + b@ + c@,
{
    let mut r: String = a.to_owned();
    r.append(b);
    r.append(c);
    r
}

/// Four strings, one after the other.
pub fn join4(a: &str, b: &str, c: &str, d: &str) -> (r: String)
    ensures
        r@ == a@ + b@ + c@ + d@,
{
    let mut r = join3(a, b, c);
    r.append(d);
    r
}

/// Five strings, one after the other.
pub fn join5(a: &str, b: &str, c: &str, d: &str, e: &str) -> (r: String)
    ensures
        r@ == a@ + b@ + c@ + d@ + e@,
{
    let mut r = join4(a, b, c, d);
    r.append(e);
    r
}

/// The parts in order, with `sep` between each two.
pub open spec fn joined(parts: Seq<Seq<char>>, sep: Seq<char>) -> Seq<char>
    decreases parts.len(),
{
    if parts.len() == 0 {
        Seq::empty()
    } else if parts.len() == 1 {
        parts[0]
    } else {
        joined(parts.drop_last(), sep) + sep + parts.last()
    }
}

/// Joins the parts with `sep` between each two.
pub fn join(parts: &Vec<String>, sep: &str) -> (r: String)
    ensures
        r@ == joined(texts(parts@), sep@),
{
    let mut r = String::new();
    let mut i: usize = 0;
    while i < parts.len()
        invariant
            i <= parts.len(),
            r@ == joined(texts(parts@).subrange(0, i as int), sep@),
        decreases parts.len() - i,
    {
        let ghost now = texts(parts@).subrange(0, i + 1);
        assert(now.drop_last() == texts(parts@).subrange(0, i as int));
        assert(now.last() == parts@[i as int]@);
        if i > 0 {
            r.append(sep);
        } else {
            assert(r@ == Seq::<char>::empty());
        }
        let ghost before = r@;
        r.append(parts[i].as_str());
        if i == 0 {
            assert(r@ == now[0]);
        }
        i = i + 1;
    }
    assert(texts(parts@).subrange(0, parts@.len() as int) == texts(parts@));
    r
}

// ---- searching ----

/// The first place of `c` at or after `from`, if there is one.
pub open spec fn first(s: Seq<char>, c: char, from: int) -> Option<int>
    decreases s.len() - from,
{
    if from < 0 || from >= s.len() {
        None
    } else if s[from] == c {
        Some(from)
    } else {
        first(s, c, from + 1)
    }
}

/// The last place of `c`, if there is one.
pub open spec fn last(s: Seq<char>, c: char) -> Option<int>
    decreases s.len(),
{
    if s.len() == 0 {
        None
    } else if s.last() == c {
        Some(s.len() - 1)
    } else {
        last(s.drop_last(), c)
    }
}

/// What `first` finds: the earliest place, or that there is none.
pub proof fn first_is_earliest(s: Seq<char>, c: char, from: int)
    requires
        0 <= from <= s.len(),
    ensures
        first(s, c, from) matches Some(i) ==> from <= i < s.len() && s[i] == c && forall|j: int|
            from <= j < i ==> s[j] != c,
        first(s, c, from) is None ==> forall|j: int| from <= j < s.len() ==> s[j] != c,
    decreases s.len() - from,
{
    if from < s.len() && s[from] != c {
        first_is_earliest(s, c, from + 1);
    }
}

/// What `last` finds: the latest place, or that there is none.
pub proof fn last_is_latest(s: Seq<char>, c: char)
    ensures
        last(s, c) matches Some(i) ==> 0 <= i < s.len() && s[i] == c && forall|j: int|
            i < j < s.len() ==> s[j] != c,
        last(s, c) is None ==> forall|j: int| 0 <= j < s.len() ==> s[j] != c,
    decreases s.len(),
{
    if s.len() > 0 && s.last() != c {
        last_is_latest(s.drop_last(), c);
        assert forall|j: int| 0 <= j < s.len() && j != s.len() - 1 implies s[j]
            == s.drop_last()[j] by {}
    }
}

/// Finds the first place of `c` at or after `from`.
pub fn find(s: &Vec<char>, c: char, from: usize) -> (r: Option<usize>)
    requires
        from <= s.len(),
    ensures
        r is Some <==> first(s@, c, from as int) is Some,
        r matches Some(i) ==> first(s@, c, from as int) == Some(i as int) && from <= i < s.len(),
{
    let mut i: usize = from;
    while i < s.len()
        invariant
            from <= i <= s.len(),
            first(s@, c, from as int) == first(s@, c, i as int),
        decreases s.len() - i,
    {
        if s[i] == c {
            return Some(i);
        }
        i = i + 1;
    }
    None
}

/// Finds the last place of `c`.
pub fn rfind(s: &Vec<char>, c: char) -> (r: Option<usize>)
    ensures
        r is Some <==> last(s@, c) is Some,
        r matches Some(i) ==> last(s@, c) == Some(i as int) && i < s.len(),
{
    let mut i: usize = s.len();
    assert(s@.subrange(0, s@.len() as int) == s@);
    while i > 0
        invariant
            i <= s.len(),
            last(s@, c) == last(s@.subrange(0, i as int), c),
        decreases i,
    {
        assert(s@.subrange(0, i as int).drop_last() == s@.subrange(0, i - 1));
        if s[i - 1] == c {
            return Some(i - 1);
        }
        i = i - 1;
    }
    None
}

/// The text before and after the first `c`.
pub open spec fn split_once(s: Seq<char>, c: char) -> Option<(Seq<char>, Seq<char>)> {
    match first(s, c, 0) {
        Some(i) => Some((s.subrange(0, i), s.subrange(i + 1, s.len() as int))),
        None => None,
    }
}

/// The text before and after the last `c`.
pub open spec fn rsplit_once(s: Seq<char>, c: char) -> Option<(Seq<char>, Seq<char>)> {
    match last(s, c) {
        Some(i) => Some((s.subrange(0, i), s.subrange(i + 1, s.len() as int))),
        None => None,
    }
}

/// The view of an optional pair of strings.
pub open spec fn pair(p: Option<(String, String)>) -> Option<(Seq<char>, Seq<char>)> {
    match p {
        Some((a, b)) => Some((a@, b@)),
        None => None,
    }
}

/// Splits at the first `c`.
pub fn cut_at_first(s: &str, c: char) -> (r: Option<(String, String)>)
    ensures
        pair(r) == split_once(s@, c),
{
    let cs = chars(s);
    match find(&cs, c, 0) {
        Some(i) => {
            proof {
                first_is_earliest(cs@, c, 0);
            }
            Some((cut(&cs, 0, i), cut(&cs, i + 1, cs.len())))
        },
        None => None,
    }
}

/// Splits at the last `c`.
pub fn cut_at_last(s: &str, c: char) -> (r: Option<(String, String)>)
    ensures
        pair(r) == rsplit_once(s@, c),
{
    let cs = chars(s);
    match rfind(&cs, c) {
        Some(i) => Some((cut(&cs, 0, i), cut(&cs, i + 1, cs.len()))),
        None => None,
    }
}

/// Whether `s` begins with `p`.
pub open spec fn begins(s: Seq<char>, p: Seq<char>) -> bool {
    p.len() <= s.len() && s.subrange(0, p.len() as int) == p
}

/// Whether `s` ends with `p`.
pub open spec fn ends(s: Seq<char>, p: Seq<char>) -> bool {
    p.len() <= s.len() && s.subrange(s.len() - p.len(), s.len() as int) == p
}

/// Whether `p` stands in `s` at place `i`.
pub open spec fn stands_at(s: Seq<char>, p: Seq<char>, i: int) -> bool {
    0 <= i && i + p.len() <= s.len() && s.subrange(i, i + p.len()) == p
}

/// Whether `p` stands somewhere in `s`.
pub open spec fn contains(s: Seq<char>, p: Seq<char>) -> bool {
    exists|i: int| stands_at(s, p, i)
}

/// Tells whether `p` stands in `s` at place `i`.
pub fn is_at(s: &Vec<char>, p: &Vec<char>, i: usize) -> (r: bool)
    ensures
        r == stands_at(s@, p@, i as int),
{
    if i > s.len() || p.len() > s.len() - i {
        return false;
    }
    let mut k: usize = 0;
    while k < p.len()
        invariant
            k <= p.len(),
            i <= s.len(),
            p.len() <= s.len() - i,
            s@.subrange(i as int, i + k) == p@.subrange(0, k as int),
        decreases p.len() - k,
    {
        if s[i + k] != p[k] {
            assert(s@.subrange(i as int, i + p.len())[k as int] != p@[k as int]);
            return false;
        }
        assert(s@.subrange(i as int, i + k + 1) == s@.subrange(i as int, i + k).push(
            s@[i + k],
        ));
        assert(p@.subrange(0, k + 1) == p@.subrange(0, k as int).push(p@[k as int]));
        k = k + 1;
    }
    assert(p@.subrange(0, p@.len() as int) == p@);
    true
}

/// Tells whether `p` stands somewhere in `s`.
pub fn holds(s: &str, p: &str) -> (r: bool)
    ensures
        r == contains(s@, p@),
{
    let sc = chars(s);
    let pc = chars(p);
    let mut i: usize = 0;
    while i <= sc.len()
        invariant
            i <= sc.len() + 1,
            sc@ == s@,
            pc@ == p@,
            forall|j: int| 0 <= j < i ==> !stands_at(s@, p@, j),
        decreases sc.len() + 1 - i,
    {
        if is_at(&sc, &pc, i) {
            assert(stands_at(s@, p@, i as int));
            return true;
        }
        if i == sc.len() {
            assert forall|j: int| !stands_at(s@, p@, j) by {
                if j > i as int {
                    assert(j + p@.len() > s@.len());
                }
            }
            return false;
        }
        i = i + 1;
    }
    false
}

/// Tells whether `s` begins with `p`.
pub fn starts(s: &str, p: &str) -> (r: bool)
    ensures
        r == begins(s@, p@),
{
    let sc = chars(s);
    let pc = chars(p);
    is_at(&sc, &pc, 0)
}

/// Tells whether `s` ends with `p`.
pub fn finishes(s: &str, p: &str) -> (r: bool)
    ensures
        r == ends(s@, p@),
{
    let sc = chars(s);
    let pc = chars(p);
    if pc.len() > sc.len() {
        return false;
    }
    is_at(&sc, &pc, sc.len() - pc.len())
}

/// What is left of `s` behind the prefix `p`, where it begins with `p`.
pub open spec fn without(s: Seq<char>, p: Seq<char>) -> Option<Seq<char>> {
    if begins(s, p) {
        Some(s.subrange(p.len() as int, s.len() as int))
    } else {
        None
    }
}

/// The view of an optional string.
pub open spec fn opt(s: Option<String>) -> Option<Seq<char>> {
    match s {
        Some(s) => Some(s@),
        None => None,
    }
}

/// Takes the prefix `p` off.
pub fn strip(s: &str, p: &str) -> (r: Option<String>)
    ensures
        opt(r) == without(s@, p@),
{
    let sc = chars(s);
    let pc = chars(p);
    if is_at(&sc, &pc, 0) {
        Some(cut(&sc, pc.len(), sc.len()))
    } else {
        None
    }
}

// ---- order ----

/// Whether `a` stands before `b`: by the first character in which they
/// differ, a beginning before the whole.
pub open spec fn before(a: Seq<char>, b: Seq<char>) -> bool
    decreases a.len(),
{
    if b.len() == 0 {
        false
    } else if a.len() == 0 {
        true
    } else if a[0] != b[0] {
        a[0] < b[0]
    } else {
        before(a.drop_first(), b.drop_first())
    }
}

/// Tells whether `a` stands before `b`.
pub fn precedes(a: &str, b: &str) -> (r: bool)
    ensures
        r == before(a@, b@),
{
    let x = chars(a);
    let y = chars(b);
    let mut i: usize = 0;
    assert(a@.subrange(0, a@.len() as int) == a@);
    assert(b@.subrange(0, b@.len() as int) == b@);
    loop
        invariant
            i <= x.len(),
            i <= y.len(),
            x@ == a@,
            y@ == b@,
            before(a@, b@) == before(
                a@.subrange(i as int, a@.len() as int),
                b@.subrange(i as int, b@.len() as int),
            ),
        decreases x.len() - i,
    {
        if i >= y.len() {
            return false;
        }
        if i >= x.len() {
            return true;
        }
        if x[i] != y[i] {
            return x[i] < y[i];
        }
        assert(a@.subrange(i as int, a@.len() as int).drop_first() == a@.subrange(
            i + 1,
            a@.len() as int,
        ));
        assert(b@.subrange(i as int, b@.len() as int).drop_first() == b@.subrange(
            i + 1,
            b@.len() as int,
        ));
        i = i + 1;
    }
}

/// The order carries over.
pub proof fn before_transitive(a: Seq<char>, b: Seq<char>, c: Seq<char>)
    requires
        before(a, b),
        before(b, c),
    ensures
        before(a, c),
    decreases a.len(),
{
    if a.len() > 0 && b.len() > 0 && c.len() > 0 && a[0] == b[0] && b[0] == c[0] {
        before_transitive(a.drop_first(), b.drop_first(), c.drop_first());
    }
}

/// Of two different texts, one stands before the other.
pub proof fn before_total(a: Seq<char>, b: Seq<char>)
    ensures
        a == b || before(a, b) || before(b, a),
    decreases a.len(),
{
    if a.len() > 0 && b.len() > 0 && a[0] == b[0] {
        before_total(a.drop_first(), b.drop_first());
        if a.drop_first() == b.drop_first() {
            assert(a =~= seq![a[0]] + a.drop_first());
            assert(b =~= seq![b[0]] + b.drop_first());
        }
    } else if a.len() == 0 && b.len() == 0 {
        assert(a =~= b);
    }
}

/// No text stands before itself.
pub proof fn before_irreflexive(a: Seq<char>)
    ensures
        !before(a, a),
    decreases a.len(),
{
    if a.len() > 0 {
        before_irreflexive(a.drop_first());
    }
}

/// Behind a beginning that two texts share, the smaller character decides,
/// and the text that ends there stands before the one that goes on.
pub proof fn the_first_difference_decides(p: Seq<char>, a: Seq<char>, b: Seq<char>)
    requires
        b.len() > 0,
        a.len() > 0 ==> a[0] != b[0],
    ensures
        before(p + a, p + b) <==> a.len() == 0 || a[0] < b[0],
    decreases p.len(),
{
    if p.len() > 0 {
        the_first_difference_decides(p.drop_first(), a, b);
        assert((p + a).drop_first() =~= p.drop_first() + a);
        assert((p + b).drop_first() =~= p.drop_first() + b);
    } else {
        assert(p + a =~= a);
        assert(p + b =~= b);
    }
}

// ---- case ----

/// An ASCII capital letter as a small one; any other character as it is.
pub open spec fn ascii_lower(c: char) -> char {
    if 'A' <= c && c <= 'Z' {
        (c as nat + 32) as char
    } else {
        c
    }
}

/// Whether two texts differ at most in the case of ASCII letters.
pub open spec fn same_folded(a: Seq<char>, b: Seq<char>) -> bool {
    a.len() == b.len() && forall|i: int|
        0 <= i < a.len() ==> ascii_lower(#[trigger] a[i]) == ascii_lower(b[i])
}

/// Makes an ASCII capital letter small.
pub fn lower(c: char) -> (r: char)
    ensures
        r == ascii_lower(c),
{
    if 'A' <= c && c <= 'Z' {
        let n: u8 = c as u8;
        (n + 32u8) as char
    } else {
        c
    }
}

/// Tells whether two texts differ at most in the case of ASCII letters.
pub fn same_ignoring_case(a: &str, b: &str) -> (r: bool)
    ensures
        r == same_folded(a@, b@),
{
    let x = chars(a);
    let y = chars(b);
    if x.len() != y.len() {
        return false;
    }
    let mut i: usize = 0;
    while i < x.len()
        invariant
            i <= x.len(),
            x.len() == y.len(),
            x@ == a@,
            y@ == b@,
            forall|k: int| 0 <= k < i ==> ascii_lower(#[trigger] a@[k]) == ascii_lower(b@[k]),
        decreases x.len() - i,
    {
        if lower(x[i]) != lower(y[i]) {
            assert(ascii_lower(a@[i as int]) != ascii_lower(b@[i as int]));
            return false;
        }
        i = i + 1;
    }
    true
}

/// What `str::to_lowercase` makes of a text.
pub uninterp spec fn lowered(s: Seq<char>) -> Seq<char>;

/// `str::to_lowercase`: the text in lower case, by Unicode's rules. What it
/// returns depends on the text alone.
#[verifier::external_body]
pub(crate) fn lowercase(s: &str) -> (r: String)
    ensures
        r@ == lowered(s@),
{
    s.to_lowercase()
}

/// Every ASCII capital letter made small.
pub open spec fn folded(s: Seq<char>) -> Seq<char> {
    s.map_values(|c: char| ascii_lower(c))
}

/// Makes every ASCII capital letter small.
pub fn fold(s: &str) -> (r: String)
    ensures
        r@ == folded(s@),
{
    let cs = chars(s);
    let mut r = String::new();
    let mut i: usize = 0;
    while i < cs.len()
        invariant
            i <= cs.len(),
            cs@ == s@,
            r@ == folded(s@.subrange(0, i as int)),
        decreases cs.len() - i,
    {
        r.push(lower(cs[i]));
        assert(r@ =~= folded(s@.subrange(0, i + 1)));
        i = i + 1;
    }
    assert(s@.subrange(0, s@.len() as int) == s@);
    r
}

// ---- lines and words ----

/// A line without the carriage return at its end.
pub open spec fn uncarried(s: Seq<char>) -> Seq<char> {
    if s.len() > 0 && s.last() == '\r' {
        s.drop_last()
    } else {
        s
    }
}

/// The lines of a text: each ends in a line feed, or a carriage return and a
/// line feed; the last may end in neither.
pub open spec fn lines_of(s: Seq<char>) -> Seq<Seq<char>>
    decreases s.len(),
{
    if s.len() == 0 {
        Seq::empty()
    } else {
        match first(s, '\n', 0) {
            None => seq![s],
            Some(i) => {
                proof {
                    first_is_earliest(s, '\n', 0);
                }
                seq![uncarried(s.subrange(0, i))] + lines_of(s.subrange(i + 1, s.len() as int))
            },
        }
    }
}

/// The lines of a text.
pub fn lines(s: &str) -> (r: Vec<String>)
    ensures
        texts(r@) == lines_of(s@),
{
    let cs = chars(s);
    let mut r: Vec<String> = Vec::new();
    let mut at: usize = 0;
    assert(s@.subrange(0, s@.len() as int) =~= s@);
    assert(texts(r@) + lines_of(s@) =~= lines_of(s@));
    loop
        invariant_except_break
            texts(r@) + lines_of(s@.subrange(at as int, s@.len() as int)) == lines_of(s@),
        invariant
            at <= cs.len(),
            cs@ == s@,
        ensures
            texts(r@) == lines_of(s@),
        decreases cs.len() - at,
    {
        let ghost left = s@.subrange(at as int, s@.len() as int);
        let ghost had = texts(r@);
        if at >= cs.len() {
            assert(texts(r@) =~= had + lines_of(left));
            break;
        }
        let rest = cut(&cs, at, cs.len());
        let rs = chars(rest.as_str());
        match find(&rs, '\n', 0) {
            None => {
                let ghost one = rest@;
                r.push(rest);
                assert(texts(r@) =~= had.push(one));
                assert(texts(r@) =~= had + lines_of(left));
                break;
            },
            Some(i) => {
                let end: usize = if i > 0 && rs[i - 1] == '\r' {
                    i - 1
                } else {
                    i
                };
                let line = cut(&rs, 0, end);
                let ghost one = line@;
                proof {
                    first_is_earliest(left, '\n', 0);
                    let whole = left.subrange(0, i as int);
                    assert(one =~= uncarried(whole)) by {
                        if i > 0 {
                            assert(whole.last() == left[i - 1]);
                        }
                    }
                }
                r.push(line);
                assert(texts(r@) =~= had.push(one));
                proof {
                    let tail = left.subrange(i + 1, left.len() as int);
                    assert(tail =~= s@.subrange(at + i + 1, s@.len() as int));
                    assert(texts(r@) + lines_of(tail) =~= had + lines_of(left));
                }
                at = at + i + 1;
            },
        }
    }
    r
}

/// Where the word that begins at `i` ends.
pub open spec fn skip_dark(s: Seq<char>, i: int) -> int
    decreases s.len() - i,
{
    if 0 <= i < s.len() && !blank(s[i]) {
        skip_dark(s, i + 1)
    } else {
        i
    }
}

/// The second of the words between white space.
pub open spec fn second_word(s: Seq<char>) -> Option<Seq<char>> {
    let a = skip_white(s, 0);
    let b = skip_dark(s, a);
    let c = skip_white(s, b);
    let d = skip_dark(s, c);
    if a < b && c < d {
        Some(s.subrange(c, d))
    } else {
        None
    }
}

fn to_dark(cs: &Vec<char>, from: usize) -> (r: usize)
    requires
        from <= cs.len(),
    ensures
        from <= r <= cs.len(),
        r == skip_white(cs@, from as int),
{
    let mut i: usize = from;
    while i < cs.len() && cs[i].is_whitespace()
        invariant
            from <= i <= cs.len(),
            skip_white(cs@, from as int) == skip_white(cs@, i as int),
        decreases cs.len() - i,
    {
        i = i + 1;
    }
    i
}

fn to_white(cs: &Vec<char>, from: usize) -> (r: usize)
    requires
        from <= cs.len(),
    ensures
        from <= r <= cs.len(),
        r == skip_dark(cs@, from as int),
{
    let mut i: usize = from;
    while i < cs.len() && !cs[i].is_whitespace()
        invariant
            from <= i <= cs.len(),
            skip_dark(cs@, from as int) == skip_dark(cs@, i as int),
        decreases cs.len() - i,
    {
        i = i + 1;
    }
    i
}

/// The second of the words between white space.
pub fn word_two(s: &str) -> (r: Option<String>)
    ensures
        opt(r) == second_word(s@),
{
    let cs = chars(s);
    let a: usize = to_dark(&cs, 0);
    let b: usize = to_white(&cs, a);
    let c: usize = to_dark(&cs, b);
    let d: usize = to_white(&cs, c);
    if a < b && c < d {
        Some(cut(&cs, c, d))
    } else {
        None
    }
}

// ---- trimming ----

/// Where the text begins once leading white space is skipped, from `i` on.
pub open spec fn skip_white(s: Seq<char>, i: int) -> int
    decreases s.len() - i,
{
    if 0 <= i < s.len() && blank(s[i]) {
        skip_white(s, i + 1)
    } else {
        i
    }
}

/// Where the text up to `j` ends once trailing white space is dropped, not
/// before `i`.
pub open spec fn drop_white(s: Seq<char>, i: int, j: int) -> int
    decreases j - i,
{
    if i < j <= s.len() && blank(s[j - 1]) {
        drop_white(s, i, j - 1)
    } else {
        j
    }
}

/// The text without the white space at its two ends.
pub open spec fn trimmed(s: Seq<char>) -> Seq<char> {
    let i = skip_white(s, 0);
    s.subrange(i, drop_white(s, i, s.len() as int))
}

/// Takes the white space off both ends.
pub fn trim(s: &str) -> (r: String)
    ensures
        r@ == trimmed(s@),
{
    let cs = chars(s);
    let mut i: usize = 0;
    while i < cs.len() && cs[i].is_whitespace()
        invariant
            i <= cs.len(),
            cs@ == s@,
            skip_white(s@, 0) == skip_white(s@, i as int),
        decreases cs.len() - i,
    {
        i = i + 1;
    }
    let mut j: usize = cs.len();
    while i < j && cs[j - 1].is_whitespace()
        invariant
            i <= j <= cs.len(),
            cs@ == s@,
            drop_white(s@, i as int, s@.len() as int) == drop_white(s@, i as int, j as int),
        decreases j,
    {
        j = j - 1;
    }
    cut(&cs, i, j)
}

// ---- numbers ----

/// The character of a decimal digit.
pub open spec fn digit(d: nat) -> char {
    (48 + d) as char
}

/// A number in decimal.
pub open spec fn dec(n: nat) -> Seq<char>
    decreases n,
{
    if n < 10 {
        seq![digit(n)]
    } else {
        dec(n / 10).push(digit(n % 10))
    }
}

/// A signed number in decimal.
pub open spec fn dec_int(n: int) -> Seq<char> {
    if n < 0 {
        seq!['-'] + dec((-n) as nat)
    } else {
        dec(n as nat)
    }
}

/// Writes a number in decimal.
pub fn decimal(n: u64) -> (r: String)
    ensures
        r@ == dec(n as nat),
    decreases n,
{
    let d: u8 = (n % 10) as u8;
    let c: char = (48u8 + d) as char;
    assert(c == digit((n % 10) as nat));
    if n < 10 {
        let mut s = String::new();
        s.push(c);
        assert(s@ == seq![digit(n as nat)]);
        s
    } else {
        let mut s = decimal(n / 10);
        s.push(c);
        s
    }
}

/// A number in decimal, with its sign where it is negative.
pub fn decimal_signed(n: i64) -> (r: String)
    ensures
        r@ == dec_int(n as int),
{
    proof {
        reveal_strlit("-");
        assert("-"@ =~= seq!['-']);
    }
    if n >= 0 {
        decimal(n as u64)
    } else if n == i64::MIN {
        join2("-", decimal(9223372036854775808).as_str())
    } else {
        join2("-", decimal((-n) as u64).as_str())
    }
}

/// Whether the character is an ASCII digit.
pub open spec fn is_digit(c: char) -> bool {
    '0' <= c && c <= '9'
}

/// Whether every character is an ASCII digit.
pub open spec fn digits(s: Seq<char>) -> bool {
    forall|i: int| 0 <= i < s.len() ==> is_digit(#[trigger] s[i])
}

/// The number that decimal digits write.
pub open spec fn value(s: Seq<char>) -> nat
    decreases s.len(),
{
    if s.len() == 0 {
        0
    } else {
        value(s.drop_last()) * 10 + (s.last() as nat - 48) as nat
    }
}

/// The digits of a number in text, behind an optional plus sign.
pub open spec fn unsigned_part(s: Seq<char>) -> Seq<char> {
    if s.len() > 0 && s[0] == '+' {
        s.subrange(1, s.len() as int)
    } else {
        s
    }
}

/// The number in `s`: an optional plus sign, then one or more decimal
/// digits, no larger than `max`.
pub open spec fn number(s: Seq<char>, max: nat) -> Option<nat> {
    let d = unsigned_part(s);
    if d.len() > 0 && digits(d) && value(d) <= max {
        Some(value(d))
    } else {
        None
    }
}

proof fn value_grows(s: Seq<char>, i: int)
    requires
        0 <= i <= s.len(),
    ensures
        value(s.subrange(0, i)) <= value(s),
    decreases s.len() - i,
{
    if i < s.len() {
        value_grows(s, i + 1);
        assert(s.subrange(0, i + 1).drop_last() == s.subrange(0, i));
    } else {
        assert(s.subrange(0, i) == s);
    }
}

/// Reads a number of at most `max`.
pub fn parse(s: &str, max: u64) -> (r: Option<u64>)
    ensures
        r is Some <==> number(s@, max as nat) is Some,
        r matches Some(n) ==> number(s@, max as nat) == Some(n as nat),
{
    let cs = chars(s);
    let from: usize = if cs.len() > 0 && cs[0] == '+' {
        1
    } else {
        0
    };
    let ghost d = unsigned_part(s@);
    assert(d == s@.subrange(from as int, s@.len() as int));
    if from == cs.len() {
        return None;
    }
    let mut n: u64 = 0;
    let mut i: usize = from;
    while i < cs.len()
        invariant
            from <= i <= cs.len(),
            from < cs.len(),
            cs@ == s@,
            d == s@.subrange(from as int, s@.len() as int),
            d == unsigned_part(s@),
            forall|k: int| 0 <= k < i - from ==> is_digit(#[trigger] d[k]),
            n == value(d.subrange(0, i - from)),
            n <= max,
        decreases cs.len() - i,
    {
        let c: char = cs[i];
        assert(c == d[i - from]);
        if !('0' <= c && c <= '9') {
            return None;
        }
        let v: u64 = (c as u32 - 48) as u64;
        let ghost next = d.subrange(0, i + 1 - from);
        assert(next.drop_last() == d.subrange(0, i - from));
        assert(value(next) == n * 10 + v);
        proof {
            value_grows(d, i + 1 - from);
        }
        if n > (u64::MAX - v) / 10 {
            return None;
        }
        let m: u64 = n * 10 + v;
        if m > max {
            return None;
        }
        n = m;
        i = i + 1;
    }
    assert(d.subrange(0, d.len() as int) == d);
    Some(n)
}

/// A number written in decimal is its digits, and reads back as itself.
pub proof fn decimal_reads_back(n: nat)
    ensures
        dec(n).len() > 0,
        digits(dec(n)),
        value(dec(n)) == n,
        number(dec(n), n) == Some(n),
    decreases n,
{
    if n < 10 {
        assert(dec(n).drop_last() == Seq::<char>::empty());
        assert(value(dec(n).drop_last()) == 0);
        assert(dec(n)[0] == digit(n));
    } else {
        decimal_reads_back(n / 10);
        assert(dec(n).drop_last() == dec(n / 10));
        assert(dec(n).last() == digit(n % 10));
        assert forall|i: int| 0 <= i < dec(n).len() implies is_digit(#[trigger] dec(n)[i]) by {
            if i < dec(n / 10).len() {
                assert(dec(n)[i] == dec(n / 10)[i]);
            }
        }
    }
    assert(is_digit(dec(n)[0]));
    assert(unsigned_part(dec(n)) == dec(n));
}

/// A number is written in base ten: one below ten is its digit, and ten times
/// a number and a digit more is that number with the digit behind it.
pub proof fn decimal_is_base_ten(n: nat, d: nat)
    requires
        d < 10,
    ensures
        dec(d) == seq![(48 + d) as char],
        n > 0 ==> dec(n * 10 + d) == dec(n).push((48 + d) as char),
        value(seq![(48 + d) as char]) == d,
        value(dec(n).push((48 + d) as char)) == n * 10 + d,
{
    decimal_reads_back(n);
    reveal_with_fuel(value, 2);
    assert(seq![(48 + d) as char].drop_last() =~= Seq::<char>::empty());
    assert(dec(n).push((48 + d) as char).drop_last() =~= dec(n));
    assert((n * 10 + d) / 10 == n);
    assert((n * 10 + d) % 10 == d);
}

/// A text is a number exactly where it is digits, behind one plus sign at
/// most, and no more than may be read.
pub proof fn only_digits_are_a_number(s: Seq<char>, max: nat)
    ensures
        number(seq!['+'] + s, max) == (if s.len() > 0 && s[0] == '+' {
            None
        } else {
            number(s, max)
        }),
        number(s, max) matches Some(n) ==> n <= max,
        number(s, max) is Some && s[0] != '+' ==> forall|i: int|
            0 <= i < s.len() ==> '0' <= #[trigger] s[i] && s[i] <= '9',
        s.len() == 0 ==> number(s, max) is None,
{
    assert(unsigned_part(seq!['+'] + s) =~= s);
    if s.len() > 0 && s[0] == '+' {
        assert(!is_digit(s[0]));
    }
    if number(s, max) is Some && s[0] != '+' {
        assert(forall|i: int| 0 <= i < s.len() ==> is_digit(#[trigger] s[i]));
    }
}

/// Two texts are the same but for case exactly where each letter is the
/// other's, small or capital, and everything else is equal.
pub proof fn case_is_of_ascii_letters(a: Seq<char>, b: Seq<char>)
    ensures
        same_folded(a, b) <==> a.len() == b.len() && forall|i: int|
            0 <= i < a.len() ==> {
                ||| (#[trigger] a[i]) == b[i]
                ||| 'A' <= a[i] && a[i] <= 'Z' && b[i] as nat == a[i] as nat + 32
                ||| 'A' <= b[i] && b[i] <= 'Z' && a[i] as nat == b[i] as nat + 32
            },
        same_folded(a, folded(a)),
{
    assert forall|i: int| 0 <= i < a.len() && a.len() == b.len() implies (ascii_lower(
        #[trigger] a[i],
    ) == ascii_lower(b[i]) <==> {
        ||| a[i] == b[i]
        ||| 'A' <= a[i] && a[i] <= 'Z' && b[i] as nat == a[i] as nat + 32
        ||| 'A' <= b[i] && b[i] <= 'Z' && a[i] as nat == b[i] as nat + 32
    }) by {}
    assert forall|i: int| 0 <= i < a.len() implies ascii_lower(#[trigger] a[i]) == ascii_lower(
        folded(a)[i],
    ) by {}
}

/// A text is cut at the first or the last place of a character: nothing is
/// lost but that character, and it does not stand in the part before the
/// first or behind the last.
pub proof fn a_cut_loses_the_character_alone(s: Seq<char>, c: char)
    ensures
        split_once(s, c) is Some <==> s.contains(c),
        split_once(s, c) matches Some((a, b)) ==> s == a + seq![c] + b && !a.contains(c),
        rsplit_once(s, c) is Some <==> s.contains(c),
        rsplit_once(s, c) matches Some((a, b)) ==> s == a + seq![c] + b && !b.contains(c),
{
    first_is_earliest(s, c, 0);
    last_is_latest(s, c);
    if let Some((a, b)) = split_once(s, c) {
        assert(s =~= a + seq![c] + b);
    }
    if let Some((a, b)) = rsplit_once(s, c) {
        assert(s =~= a + seq![c] + b);
        assert forall|k: int| 0 <= k < b.len() implies b[k] != c by {
            assert(b[k] == s[s.len() - b.len() + k]);
        }
    }
}

/// Texts are joined with the separator between each two of them.
pub proof fn a_join_puts_the_separator_between(
    parts: Seq<Seq<char>>,
    one: Seq<char>,
    sep: Seq<char>,
)
    ensures
        joined(Seq::empty(), sep) == Seq::<char>::empty(),
        joined(seq![one], sep) == one,
        parts.len() > 0 ==> joined(parts.push(one), sep) == joined(parts, sep) + sep + one,
{
    reveal_with_fuel(joined, 2);
    assert(parts.push(one).drop_last() =~= parts);
    assert(seq![one].drop_last() =~= Seq::<Seq<char>>::empty());
}

proof fn white_is_skipped(s: Seq<char>, i: int)
    requires
        0 <= i <= s.len(),
    ensures
        i <= skip_white(s, i) <= s.len(),
        forall|k: int| i <= k < skip_white(s, i) ==> blank(#[trigger] s[k]),
        skip_white(s, i) < s.len() ==> !blank(s[skip_white(s, i)]),
    decreases s.len() - i,
{
    if i < s.len() && blank(s[i]) {
        white_is_skipped(s, i + 1);
    }
}

proof fn white_is_dropped(s: Seq<char>, i: int, j: int)
    requires
        0 <= i <= j <= s.len(),
    ensures
        i <= drop_white(s, i, j) <= j,
        forall|k: int| drop_white(s, i, j) <= k < j ==> blank(#[trigger] s[k]),
        drop_white(s, i, j) > i ==> !blank(s[drop_white(s, i, j) - 1]),
    decreases j,
{
    if i < j && blank(s[j - 1]) {
        white_is_dropped(s, i, j - 1);
    }
}

/// Trimming takes white space off both ends and nothing else: what is left
/// neither begins nor ends in any, and a text that does neither is left whole.
pub proof fn a_trim_takes_white_space_alone(s: Seq<char>)
    ensures
        exists|a: int, b: int|
            {
                &&& 0 <= a <= b <= s.len()
                &&& trimmed(s) == #[trigger] s.subrange(a, b)
                &&& forall|k: int| 0 <= k < a ==> blank(#[trigger] s[k])
                &&& forall|k: int| b <= k < s.len() ==> blank(#[trigger] s[k])
            },
        trimmed(s).len() > 0 ==> !blank(trimmed(s)[0]) && !blank(trimmed(s).last()),
        s.len() > 0 && !blank(s[0]) && !blank(s.last()) ==> trimmed(s) == s,
        trimmed(s).len() <= s.len(),
{
    white_is_skipped(s, 0);
    let a = skip_white(s, 0);
    white_is_dropped(s, a, s.len() as int);
    let b = drop_white(s, a, s.len() as int);
    assert(trimmed(s) == s.subrange(a, b));
    assert(s.subrange(0, s.len() as int) =~= s);
}

proof fn dark_is_skipped(s: Seq<char>, i: int)
    requires
        0 <= i <= s.len(),
    ensures
        i <= skip_dark(s, i) <= s.len(),
        forall|k: int| i <= k < skip_dark(s, i) ==> !blank(#[trigger] s[k]),
        skip_dark(s, i) < s.len() ==> blank(s[skip_dark(s, i)]),
    decreases s.len() - i,
{
    if i < s.len() && !blank(s[i]) {
        dark_is_skipped(s, i + 1);
    }
}

/// The second word stands whole behind white space behind a first, and holds
/// none itself.
pub proof fn a_second_word_stands_behind_a_first(s: Seq<char>)
    ensures
        second_word(s) matches Some(w) ==> w.len() > 0 && forall|k: int|
            0 <= k < w.len() ==> !blank(#[trigger] w[k]),
        second_word(s) matches Some(w) ==> exists|a: int, b: int, c: int|
            {
                &&& 0 <= a < b < c
                &&& c + w.len() <= s.len()
                &&& w == s.subrange(c, (c + w.len()) as int)
                &&& !blank(#[trigger] s[a])
                &&& blank(#[trigger] s[b])
                &&& blank(#[trigger] s[c - 1])
                &&& forall|k: int| b <= k < c ==> blank(#[trigger] s[k])
                &&& c + w.len() < s.len() ==> blank(s[(c + w.len()) as int])
            },
{
    let a = skip_white(s, 0);
    white_is_skipped(s, 0);
    let b = skip_dark(s, a);
    dark_is_skipped(s, a);
    let c = skip_white(s, b);
    white_is_skipped(s, b);
    let d = skip_dark(s, c);
    dark_is_skipped(s, c);
    if a < b && c < d {
        assert(b < s.len() && blank(s[b]));
        assert(b < c);
        assert(!blank(s[a]));
        assert(blank(s[c - 1]));
        let w = s.subrange(c, d);
        assert forall|k: int| 0 <= k < w.len() implies !blank(#[trigger] w[k]) by {
            assert(w[k] == s[c + k]);
        }
    }
}

/// A text is its lines: one more line, ended by a line feed, with or without
/// a carriage return, comes before those that follow.
pub proof fn a_text_is_its_lines(line: Seq<char>, rest: Seq<char>)
    requires
        !line.contains('\n'),
    ensures
        lines_of(Seq::empty()) == Seq::<Seq<char>>::empty(),
        line.len() > 0 ==> lines_of(line) == seq![line],
        line.len() == 0 || line.last() != '\r' ==> lines_of(line + seq!['\n'] + rest) == seq![line]
            + lines_of(rest),
        lines_of(line + seq!['\r', '\n'] + rest) == seq![line] + lines_of(rest),
{
    first_is_earliest(line, '\n', 0);
    let s = line + seq!['\n'] + rest;
    let n = line.len() as int;
    first_is_earliest(s, '\n', 0);
    assert(s[n] == '\n');
    assert forall|k: int| 0 <= k < n implies s[k] != '\n' by {
        assert(s[k] == line[k]);
        assert(line.contains(line[k]));
    }
    assert(s.subrange(0, n) =~= line);
    assert(s.subrange(n + 1, s.len() as int) =~= rest);
    let t = line + seq!['\r', '\n'] + rest;
    first_is_earliest(t, '\n', 0);
    assert(t[n + 1] == '\n');
    assert forall|k: int| 0 <= k < n + 1 implies t[k] != '\n' by {
        if k < n {
            assert(t[k] == line[k]);
            assert(line.contains(line[k]));
        }
    }
    assert(t.subrange(0, n + 1) =~= line.push('\r'));
    assert(line.push('\r').drop_last() =~= line);
    assert(t.subrange(n + 2, t.len() as int) =~= rest);
}

/// A signed number is its digits, behind a sign where it is below zero.
pub proof fn a_number_below_zero_has_its_sign(n: nat)
    ensures
        dec_int(n as int) == dec(n),
        n > 0 ==> dec_int(-(n as int)) == seq!['-'] + dec(n),
{
}

/// A text begins with one that it can be parted from: what is left behind the
/// beginning is the rest.
pub proof fn what_is_stripped_is_the_beginning(p: Seq<char>, rest: Seq<char>, s: Seq<char>)
    ensures
        without(p + rest, p) == Some(rest),
        without(s, p) matches Some(r) ==> s == p + r,
        begins(p + rest, p),
        ends(rest + p, p),
        contains(s, p) <==> exists|i: int|
            0 <= i && i + p.len() <= s.len() && #[trigger] s.subrange(i, (i + p.len()) as int) == p,
{
    assert((p + rest).subrange(0, p.len() as int) =~= p);
    assert((p + rest).subrange(p.len() as int, (p + rest).len() as int) =~= rest);
    assert((rest + p).subrange(rest.len() as int, (rest + p).len() as int) =~= p);
    if let Some(r) = without(s, p) {
        assert(s =~= p + r);
    }
    if contains(s, p) {
        let i = choose|i: int| stands_at(s, p, i);
        assert(s.subrange(i, (i + p.len()) as int) == p);
    }
    if exists|i: int|
        0 <= i && i + p.len() <= s.len() && #[trigger] s.subrange(i, (i + p.len()) as int) == p {
        let i = choose|i: int|
            0 <= i && i + p.len() <= s.len() && #[trigger] s.subrange(i, (i + p.len()) as int) == p;
        assert(stands_at(s, p, i));
    }
}

} // verus!
