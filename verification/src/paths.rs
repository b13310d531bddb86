//! Paths as text, with `/` between their parts.

use crate::text;
use vstd::prelude::*;

verus! {

/// `b` under `a`; an absolute `b` stands for itself.
pub open spec fn joined(a: Seq<char>, b: Seq<char>) -> Seq<char> {
    if (b.len() > 0 && b[0] == '/') || a.len() == 0 {
        b
    } else if a.last() == '/' {
        a + b
    } else {
        a + "/"@ + b
    }
}

/// Joins two paths.
pub fn join(a: &str, b: &str) -> (r: String)
    ensures
        r@ == joined(a@, b@),
{
    let x = text::chars(a);
    let y = text::chars(b);
    if (y.len() > 0 && y[0] == '/') || x.len() == 0 {
        b.to_owned()
    } else if x[x.len() - 1] == '/' {
        text::join2(a, b)
    } else {
        text::join3(a, "/", b)
    }
}

/// Whether a path starts at the root of the file system.
pub open spec fn is_absolute(p: Seq<char>) -> bool {
    p.len() > 0 && p[0] == '/'
}

/// Tells whether a path starts at the root of the file system.
pub fn absolute(p: &str) -> (r: bool)
    ensures
        r == is_absolute(p@),
{
    let x = text::chars(p);
    x.len() > 0 && x[0] == '/'
}

/// How much of a path is left once the separators and the `.` parts at its
/// end are dropped, looking at its first `n` characters. The root stays.
pub open spec fn kept(p: Seq<char>, n: int) -> int
    decreases n,
{
    if n <= 1 || n > p.len() {
        n
    } else if p[n - 1] == '/' {
        kept(p, n - 1)
    } else if p[n - 1] == '.' && p[n - 2] == '/' {
        kept(p, n - 1)
    } else {
        n
    }
}

/// The path without the separators and the `.` parts at its end.
pub open spec fn trimmed(p: Seq<char>) -> Seq<char> {
    p.subrange(0, kept(p, p.len() as int))
}

proof fn kept_bounds(p: Seq<char>, n: int)
    requires
        0 <= n <= p.len(),
    ensures
        0 <= kept(p, n) <= n,
    decreases n,
{
    if n > 1 && (p[n - 1] == '/' || (p[n - 1] == '.' && p[n - 2] == '/')) {
        kept_bounds(p, n - 1);
    }
}

fn keep(p: &Vec<char>, n: usize) -> (r: usize)
    requires
        n <= p.len(),
    ensures
        r == kept(p@, n as int),
        r <= n,
{
    let mut m: usize = n;
    while m > 1 && (p[m - 1] == '/' || (p[m - 1] == '.' && p[m - 2] == '/'))
        invariant
            m <= n <= p.len(),
            kept(p@, n as int) == kept(p@, m as int),
        decreases m,
    {
        m = m - 1;
    }
    m
}

/// The path without its last part; `None` for the root and for the empty
/// path.
pub open spec fn parent(p: Seq<char>) -> Option<Seq<char>> {
    let q = trimmed(p);
    if q.len() == 0 || q == "/"@ {
        None
    } else {
        match text::last(q, '/') {
            None => Some(""@),
            Some(i) => if i == 0 {
                Some("/"@)
            } else {
                Some(trimmed(q.subrange(0, i)))
            },
        }
    }
}

/// The path without its last part is shorter.
pub proof fn parent_is_shorter(p: Seq<char>)
    ensures
        parent(p) matches Some(up) ==> up.len() < p.len(),
{
    reveal_strlit("/");
    reveal_strlit("");
    kept_bounds(p, p.len() as int);
    let q = trimmed(p);
    if q.len() > 0 && q != "/"@ {
        text::last_is_latest(q, '/');
        if let Some(i) = text::last(q, '/') {
            let head = q.subrange(0, i);
            kept_bounds(head, head.len() as int);
            if i == 0 && q.len() == 1 {
                assert(q =~= "/"@);
            }
        }
    }
}

/// The path without its last part.
pub fn parent_of(p: &str) -> (r: Option<String>)
    ensures
        text::opt(r) == parent(p@),
{
    let cs = text::chars(p);
    let n: usize = keep(&cs, cs.len());
    let ghost q = trimmed(p@);
    proof {
        reveal_strlit("/");
    }
    assert(q == cs@.subrange(0, n as int));
    if n == 0 {
        return None;
    }
    if n == 1 && cs[0] == '/' {
        assert(q =~= "/"@);
        return None;
    }
    assert(q != "/"@) by {
        if q == "/"@ {
            assert(q[0] == '/');
        }
    }
    let short = text::string(vstd::slice::slice_subrange(cs.as_slice(), 0, n));
    let qs = text::chars(short.as_str());
    assert(qs@ == q);
    match text::rfind(&qs, '/') {
        None => Some("".to_owned()),
        Some(i) => {
            if i == 0 {
                return Some("/".to_owned());
            }
            let up = text::cut(&qs, 0, i);
            let us = text::chars(up.as_str());
            let m: usize = keep(&us, us.len());
            Some(text::cut(&us, 0, m))
        },
    }
}

/// The last part of a path; `None` for the root, the empty path, `.` and
/// one that ends in `..`.
pub open spec fn file_name(p: Seq<char>) -> Option<Seq<char>> {
    let q = trimmed(p);
    let part = match text::last(q, '/') {
        Some(i) => q.subrange(i + 1, q.len() as int),
        None => q,
    };
    if part.len() == 0 || part == "."@ || part == ".."@ {
        None
    } else {
        Some(part)
    }
}

/// The last part of a path.
pub fn file_name_of(p: &str) -> (r: Option<String>)
    ensures
        text::opt(r) == file_name(p@),
{
    let cs = text::chars(p);
    let n: usize = keep(&cs, cs.len());
    let short = text::cut(&cs, 0, n);
    let qs = text::chars(short.as_str());
    assert(qs@ == trimmed(p@));
    let from: usize = match text::rfind(&qs, '/') {
        Some(i) => i + 1,
        None => 0,
    };
    let part = text::cut(&qs, from, qs.len());
    assert(qs@.subrange(0, qs@.len() as int) == qs@);
    if part.as_str().is_empty() || text::same(part.as_str(), ".") || text::same(
        part.as_str(),
        "..",
    ) {
        None
    } else {
        Some(part)
    }
}

/// The parts of a path between its separators, from place `i` on, with
/// `part` read so far; empty ones and `.` are left out.
pub open spec fn parts_from(p: Seq<char>, i: int, part: Seq<char>) -> Seq<Seq<char>>
    decreases p.len() - i,
{
    let one = if part.len() == 0 || part == "."@ {
        Seq::<Seq<char>>::empty()
    } else {
        seq![part]
    };
    if i < 0 || i >= p.len() {
        one
    } else if p[i] == '/' {
        one + parts_from(p, i + 1, Seq::empty())
    } else {
        parts_from(p, i + 1, part.push(p[i]))
    }
}

/// The parts of a path.
pub open spec fn parts(p: Seq<char>) -> Seq<Seq<char>> {
    parts_from(p, 0, Seq::empty())
}

/// Splits a path into its parts.
pub fn split(p: &str) -> (r: Vec<String>)
    ensures
        text::texts(r@) == parts(p@),
{
    let cs = text::chars(p);
    let mut r: Vec<String> = Vec::new();
    let mut part = String::new();
    let mut i: usize = 0;
    assert(text::texts(r@) + parts_from(p@, 0, Seq::empty()) =~= parts(p@));
    loop
        invariant_except_break
            text::texts(r@) + parts_from(p@, i as int, part@) == parts(p@),
        invariant
            i <= cs.len(),
            cs@ == p@,
        ensures
            text::texts(r@) == parts(p@),
        decreases cs.len() - i,
    {
        let ghost before = r@;
        let ghost left = parts_from(p@, i as int, part@);
        let counts: bool = !part.as_str().is_empty() && !text::same(part.as_str(), ".");
        if i >= cs.len() {
            if counts {
                r.push(part);
                assert(text::texts(r@) =~= text::texts(before) + left);
            } else {
                assert(text::texts(r@) =~= text::texts(before) + left);
            }
            break;
        }
        if cs[i] == '/' {
            if counts {
                let ghost one = part@;
                r.push(part);
                assert(text::texts(r@) =~= text::texts(before).push(one));
                assert(left =~= seq![one] + parts_from(p@, i + 1, Seq::empty()));
                assert(text::texts(r@) + parts_from(p@, i + 1, Seq::empty()) =~= text::texts(before)
                    + left);
            } else {
                assert(left =~= parts_from(p@, i + 1, Seq::empty()));
            }
            part = String::new();
        } else {
            part.push(cs[i]);
        }
        i = i + 1;
    }
    r
}

/// A path as it is shown: `/` between its parts, whatever stood between
/// them; the empty path as `.`.
pub open spec fn shown(p: Seq<char>) -> Seq<char> {
    let all = if is_absolute(p) {
        seq![""@] + parts(p)
    } else {
        parts(p)
    };
    let s = text::joined(all, "/"@);
    if s.len() == 0 {
        "."@
    } else {
        s
    }
}

/// Shows a path.
pub fn display(p: &str) -> (r: String)
    ensures
        r@ == shown(p@),
{
    let mut all: Vec<String> = Vec::new();
    let mut rest = split(p);
    let ghost tail = rest@;
    if absolute(p) {
        all.push("".to_owned());
        let ghost lead = all@;
        all.append(&mut rest);
        assert(text::texts(all@) =~= seq![""@] + parts(p@));
    } else {
        all.append(&mut rest);
        assert(text::texts(all@) =~= parts(p@));
    }
    let s = text::join(&all, "/");
    if s.as_str().is_empty() {
        ".".to_owned()
    } else {
        s
    }
}

// ---- one path below another ----

/// Past the separators and the `.` parts that stand at `i`.
pub open spec fn past(p: Seq<char>, i: int) -> int
    decreases p.len() - i,
{
    if i < 0 || i >= p.len() {
        i
    } else if p[i] == '/' {
        past(p, i + 1)
    } else if p[i] == '.' && (i + 1 == p.len() || p[i + 1] == '/') {
        past(p, i + 1)
    } else {
        i
    }
}

/// The end of the part that begins at `i`.
pub open spec fn part_end(p: Seq<char>, i: int) -> int {
    match text::first(p, '/', i) {
        Some(j) => j,
        None => p.len() as int,
    }
}

/// How far into `p`, from `i` on, the parts of `dir` from `j` on reach; `None`
/// where they are not its next parts.
pub open spec fn reach(p: Seq<char>, i: int, dir: Seq<char>, j: int) -> Option<int>
    decreases dir.len() - j,
{
    let a = past(p, i);
    let b = past(dir, j);
    if i < 0 || j < 0 || b >= dir.len() {
        Some(i)
    } else if a >= p.len() {
        None
    } else {
        let c = part_end(p, a);
        let d = part_end(dir, b);
        if p.subrange(a, c) == dir.subrange(b, d) {
            proof {
                past_bounds(dir, j);
                text::first_is_earliest(dir, '/', b);
                if d == b {
                    assert(dir[b] == '/');
                }
            }
            reach(p, c, dir, d)
        } else {
            None
        }
    }
}

/// Passing separators stays inside the path, and ends at none.
pub proof fn past_bounds(p: Seq<char>, i: int)
    requires
        0 <= i <= p.len(),
    ensures
        i <= past(p, i) <= p.len(),
        past(p, i) < p.len() ==> p[past(p, i)] != '/',
    decreases p.len() - i,
{
    if i < p.len() && (p[i] == '/' || (p[i] == '.' && (i + 1 == p.len() || p[i + 1] == '/'))) {
        past_bounds(p, i + 1);
    }
}

/// Whether a path says that it begins where it is read.
pub open spec fn dotted(p: Seq<char>) -> bool {
    p.len() > 0 && p[0] == '.' && (p.len() == 1 || p[1] == '/')
}

/// How much of `p`, whose parts begin at `lo`, is left once the separators
/// and the `.` parts before `n` are dropped.
pub open spec fn ended(p: Seq<char>, lo: int, n: int) -> int
    decreases n - lo,
{
    if n <= lo || n > p.len() || lo < 0 {
        n
    } else if p[n - 1] == '/' {
        ended(p, lo, n - 1)
    } else if p[n - 1] == '.' && (n - 1 == lo || p[n - 2] == '/') {
        ended(p, lo, n - 1)
    } else {
        n
    }
}

/// The path below `dir`: what is left of `p` behind the parts of `dir`, where
/// those are its first parts.
pub open spec fn below(p: Seq<char>, dir: Seq<char>) -> Option<Seq<char>> {
    if is_absolute(p) != is_absolute(dir) || dotted(p) != dotted(dir) {
        None
    } else {
        match reach(p, 0, dir, 0) {
            None => None,
            Some(i) => {
                let lo = past(p, i);
                Some(p.subrange(lo, ended(p, lo, p.len() as int)))
            },
        }
    }
}

fn pass(p: &Vec<char>, from: usize) -> (r: usize)
    requires
        from <= p.len(),
    ensures
        r == past(p@, from as int),
        from <= r <= p.len(),
{
    let mut i: usize = from;
    while i < p.len() && (p[i] == '/' || (p[i] == '.' && (i + 1 == p.len() || p[i + 1] == '/')))
        invariant
            from <= i <= p.len(),
            past(p@, from as int) == past(p@, i as int),
        decreases p.len() - i,
    {
        i = i + 1;
    }
    i
}

fn end_of(p: &Vec<char>, from: usize) -> (r: usize)
    requires
        from <= p.len(),
    ensures
        r == part_end(p@, from as int),
        from <= r <= p.len(),
{
    match text::find(p, '/', from) {
        Some(i) => i,
        None => p.len(),
    }
}

/// The path below a directory.
pub fn relative(p: &str, dir: &str) -> (r: Option<String>)
    ensures
        text::opt(r) == below(p@, dir@),
{
    let x = text::chars(p);
    let y = text::chars(dir);
    let dot_x: bool = x.len() > 0 && x[0] == '.' && (x.len() == 1 || x[1] == '/');
    let dot_y: bool = y.len() > 0 && y[0] == '.' && (y.len() == 1 || y[1] == '/');
    if absolute(p) != absolute(dir) || dot_x != dot_y {
        return None;
    }
    let mut i: usize = 0;
    let mut j: usize = 0;
    loop
        invariant_except_break
            reach(x@, 0, y@, 0) == reach(x@, i as int, y@, j as int),
        invariant
            i <= x.len(),
            j <= y.len(),
            x@ == p@,
            y@ == dir@,
            is_absolute(p@) == is_absolute(dir@),
            dotted(p@) == dotted(dir@),
        ensures
            reach(x@, 0, y@, 0) == Some(i as int),
        decreases y.len() - j,
    {
        let a: usize = pass(&x, i);
        let b: usize = pass(&y, j);
        if b >= y.len() {
            break;
        }
        if a >= x.len() {
            return None;
        }
        let c: usize = end_of(&x, a);
        let d: usize = end_of(&y, b);
        proof {
            past_bounds(y@, j as int);
            text::first_is_earliest(y@, '/', b as int);
            if d == b {
                assert(y@[b as int] == '/');
            }
        }
        if !text::same(text::cut(&x, a, c).as_str(), text::cut(&y, b, d).as_str()) {
            return None;
        }
        i = c;
        j = d;
    }
    let lo: usize = pass(&x, i);
    let mut hi: usize = x.len();
    while hi > lo && (x[hi - 1] == '/' || (x[hi - 1] == '.' && (hi - 1 == lo || x[hi - 2] == '/')))
        invariant
            lo <= hi <= x.len(),
            ended(x@, lo as int, x@.len() as int) == ended(x@, lo as int, hi as int),
        decreases hi,
    {
        hi = hi - 1;
    }
    Some(text::cut(&x, lo, hi))
}

// ---- laws ----

/// A path below another stands behind it and one separator; one that begins at
/// the root of the file system stands for itself.
pub proof fn a_join_puts_one_separator_between(a: Seq<char>, b: Seq<char>)
    ensures
        b.len() > 0 && b[0] == '/' ==> joined(a, b) == b,
        a.len() == 0 ==> joined(a, b) == b,
        a.len() > 0 && a.last() != '/' && (b.len() == 0 || b[0] != '/') ==> joined(a, b) == a
            + seq!['/'] + b,
        a.len() > 0 && a.last() == '/' && (b.len() == 0 || b[0] != '/') ==> joined(a, b) == a + b,
{
    reveal_strlit("/");
    assert("/"@ =~= seq!['/']);
}

/// Whether a text can be one part of a path: it holds no separator, and says
/// neither here nor above.
pub open spec fn is_name(s: Seq<char>) -> bool {
    s.len() > 0 && !s.contains('/') && s != "."@ && s != ".."@
}

/// A name below a directory is the last part of their path, and the directory
/// is what is left without it.
pub proof fn a_name_is_the_last_part(dir: Seq<char>, name: Seq<char>)
    requires
        is_name(name),
        dir.len() > 0,
        dir.last() != '/',
        !(dir.len() > 1 && dir.last() == '.' && dir[dir.len() - 2] == '/'),
    ensures
        file_name(dir + "/"@ + name) == Some(name),
        parent(dir + "/"@ + name) == Some(dir),
        file_name(name) == Some(name),
        parent(name) == Some(Seq::<char>::empty()),
{
    a_name_alone_is_its_last_part(name);
    reveal_strlit("/");
    let p = dir + "/"@ + name;
    let d = dir.len() as int;
    let n = p.len() as int;
    assert forall|k: int| d < k < n implies (#[trigger] p[k]) != '/' by {
        assert(p[k] == name[k - d - 1]);
        assert(name.contains(name[k - d - 1]));
    }
    assert(p[d] == '/');
    assert(p.subrange(d + 1, n) =~= name);
    assert(p.subrange(0, d) =~= dir);
    kept_whole(dir);
    last_part_is_behind(p, d);
}

proof fn kept_whole(dir: Seq<char>)
    requires
        dir.len() > 0,
        dir.last() != '/',
        !(dir.len() > 1 && dir.last() == '.' && dir[dir.len() - 2] == '/'),
    ensures
        trimmed(dir) == dir,
{
    assert(kept(dir, dir.len() as int) == dir.len());
    assert(dir.subrange(0, dir.len() as int) =~= dir);
}

proof fn last_part_is_behind(p: Seq<char>, d: int)
    requires
        0 < d < p.len() - 1,
        p[d] == '/',
        forall|k: int| d < k < p.len() ==> (#[trigger] p[k]) != '/',
        is_name(p.subrange(d + 1, p.len() as int)),
    ensures
        file_name(p) == Some(p.subrange(d + 1, p.len() as int)),
        parent(p) == Some(trimmed(p.subrange(0, d))),
{
    reveal_strlit("/");
    ended_path_is_kept(p, d);
    text::last_is_latest(p, '/');
    assert(text::last(p, '/') == Some(d));
    assert(p.len() != "/"@.len());
}

proof fn ended_path_is_kept(p: Seq<char>, d: int)
    requires
        0 <= d < p.len() - 1,
        p[d] == '/',
        forall|k: int| d < k < p.len() ==> (#[trigger] p[k]) != '/',
        p.subrange(d + 1, p.len() as int) != "."@,
    ensures
        trimmed(p) == p,
{
    reveal_strlit(".");
    let n = p.len() as int;
    assert(p[n - 1] != '/');
    if p[n - 1] == '.' && p[n - 2] == '/' {
        assert(n - 2 == d);
        assert(p.subrange(d + 1, n) =~= "."@);
    }
    assert(kept(p, n) == n);
    assert(p.subrange(0, n) =~= p);
}

proof fn a_name_alone_is_its_last_part(name: Seq<char>)
    requires
        is_name(name),
    ensures
        file_name(name) == Some(name),
        parent(name) == Some(Seq::<char>::empty()),
{
    reveal_strlit("/");
    reveal_strlit("");
    let m = name.len() as int;
    assert(name.contains(name[m - 1]));
    if m > 1 {
        assert(name.contains(name[m - 2]));
    }
    assert(kept(name, m) == m);
    assert(trimmed(name) =~= name);
    text::last_is_latest(name, '/');
    assert(text::last(name, '/') is None);
    assert(name != "/"@) by {
        assert("/"@[0] == '/');
        assert(name.contains(name[0]));
    }
    assert(""@ =~= Seq::<char>::empty());
}

/// The root of the file system has no name and lies below nothing.
pub proof fn the_root_lies_below_nothing()
    ensures
        parent("/"@) is None,
        file_name("/"@) is None,
        parent(Seq::empty()) is None,
        file_name(Seq::empty()) is None,
{
    reveal_strlit("/");
    let p = "/"@;
    assert(trimmed(p) =~= p);
    text::last_is_latest(p, '/');
    assert(p[0] == '/');
    assert(trimmed(Seq::empty()) =~= Seq::<char>::empty());
    text::last_is_latest(Seq::empty(), '/');
}

proof fn parts_of_name(p: Seq<char>, i: int, part: Seq<char>, j: int)
    requires
        0 <= i <= j <= p.len(),
        forall|k: int| i <= k < j ==> (#[trigger] p[k]) != '/',
    ensures
        parts_from(p, i, part) == parts_from(p, j, part + p.subrange(i, j)),
    decreases j - i,
{
    if i < j {
        parts_of_name(p, i + 1, part.push(p[i]), j);
        assert(part.push(p[i]) + p.subrange(i + 1, j) =~= part + p.subrange(i, j));
    } else {
        assert(part + p.subrange(i, j) =~= part);
    }
}

proof fn parts_of_rest(p: Seq<char>, q: Seq<char>, i: int, part: Seq<char>)
    requires
        0 <= i <= p.len(),
        p.subrange(i, p.len() as int) == q,
    ensures
        parts_from(p, i, part) == parts_from(q, 0, part),
    decreases p.len() - i,
{
    assert(q.subrange(0, q.len() as int) =~= q);
    shifted_parts(p, i, q, 0, part);
}

proof fn shifted_parts(p: Seq<char>, i: int, q: Seq<char>, j: int, part: Seq<char>)
    requires
        0 <= i <= p.len(),
        0 <= j <= q.len(),
        p.len() - i == q.len() - j,
        p.subrange(i, p.len() as int) == q.subrange(j, q.len() as int),
    ensures
        parts_from(p, i, part) == parts_from(q, j, part),
    decreases p.len() - i,
{
    if i < p.len() {
        let a = p.subrange(i, p.len() as int);
        let b = q.subrange(j, q.len() as int);
        assert(a[0] == b[0]);
        assert(p[i] == q[j]);
        assert(p.subrange(i + 1, p.len() as int) =~= a.subrange(1, a.len() as int));
        assert(q.subrange(j + 1, q.len() as int) =~= b.subrange(1, b.len() as int));
        if p[i] == '/' {
            shifted_parts(p, i + 1, q, j + 1, Seq::empty());
        } else {
            shifted_parts(p, i + 1, q, j + 1, part.push(p[i]));
        }
    }
}

/// A path is its parts: a name alone is one, and one in front, with its
/// separator, comes before those of the rest. A part that is empty or says
/// here is none.
pub proof fn a_path_is_its_parts(name: Seq<char>, rest: Seq<char>)
    requires
        !name.contains('/'),
    ensures
        parts(Seq::empty()) == Seq::<Seq<char>>::empty(),
        name.len() > 0 && name != "."@ ==> parts(name) == seq![name],
        name.len() > 0 && name != "."@ ==> parts(name + "/"@ + rest) == seq![name] + parts(rest),
        name.len() == 0 || name == "."@ ==> parts(name + "/"@ + rest) == parts(rest),
{
    reveal_strlit("/");
    reveal_strlit(".");
    let n = name.len() as int;
    assert forall|k: int| 0 <= k < n implies (#[trigger] name[k]) != '/' by {
        assert(name.contains(name[k]));
    }
    parts_of_name(name, 0, Seq::empty(), n);
    assert(Seq::<char>::empty() + name.subrange(0, n) =~= name);
    let p = name + "/"@ + rest;
    assert forall|k: int| 0 <= k < n implies (#[trigger] p[k]) != '/' by {
        assert(p[k] == name[k]);
    }
    parts_of_name(p, 0, Seq::empty(), n);
    assert(Seq::<char>::empty() + p.subrange(0, n) =~= name);
    assert(p[n] == '/');
    assert(p.subrange(n + 1, p.len() as int) =~= rest);
    parts_of_rest(p, rest, n + 1, Seq::empty());
    if name.len() == 0 || name == "."@ {
        assert(Seq::<Seq<char>>::empty() + parts(rest) =~= parts(rest));
    }
}

/// A path is shown as its parts with one separator between each two, from the
/// root where it begins there; one without parts is shown as here.
pub proof fn a_path_is_shown_by_its_parts(p: Seq<char>)
    requires
        p.len() == 0 || p[0] != '/',
    ensures
        parts(p).len() == 0 ==> shown(p) == "."@,
        text::joined(parts(p), "/"@).len() > 0 ==> shown(p) == text::joined(parts(p), "/"@),
        parts(p).len() > 0 ==> shown("/"@ + p) == "/"@ + text::joined(parts(p), "/"@),
{
    reveal_strlit("/");
    reveal_strlit("");
    let q = "/"@ + p;
    a_path_is_its_parts(Seq::empty(), p);
    assert(Seq::<char>::empty() + "/"@ + p =~= q);
    if parts(p).len() > 0 {
        joined_behind(parts(p), "/"@);
        assert(""@ =~= Seq::<char>::empty());
    }
}

proof fn joined_behind(ps: Seq<Seq<char>>, sep: Seq<char>)
    requires
        ps.len() > 0,
    ensures
        text::joined(seq![Seq::<char>::empty()] + ps, sep) == sep + text::joined(ps, sep),
    decreases ps.len(),
{
    let all = seq![Seq::<char>::empty()] + ps;
    let last = ps.last();
    let less = ps.drop_last();
    assert(all.drop_last() =~= seq![Seq::<char>::empty()] + less);
    if less.len() > 0 {
        joined_behind(less, sep);
        text::a_join_puts_the_separator_between(less, last, sep);
        assert(less.push(last) =~= ps);
        text::a_join_puts_the_separator_between(all.drop_last(), last, sep);
        assert(all.drop_last().push(last) =~= all);
        assert(text::joined(all, sep) =~= sep + text::joined(ps, sep));
    } else {
        text::a_join_puts_the_separator_between(seq![Seq::<char>::empty()], last, sep);
        assert(seq![Seq::<char>::empty()].push(last) =~= all);
        text::a_join_puts_the_separator_between(seq![last], last, sep);
        assert(seq![last] =~= ps);
        assert(text::joined(all, sep) =~= sep + text::joined(ps, sep));
    }
}

proof fn passed_parts(p: Seq<char>, i: int)
    requires
        0 <= i <= p.len(),
    ensures
        parts_from(p, i, Seq::empty()) == parts_from(p, past(p, i), Seq::empty()),
    decreases p.len() - i,
{
    reveal_strlit(".");
    if i < p.len() && p[i] == '/' {
        passed_parts(p, i + 1);
        assert(Seq::<Seq<char>>::empty() + parts_from(p, i + 1, Seq::empty()) =~= parts_from(
            p,
            i + 1,
            Seq::empty(),
        ));
    } else if i < p.len() && p[i] == '.' && (i + 1 == p.len() || p[i + 1] == '/') {
        passed_parts(p, i + 1);
        assert(Seq::<char>::empty().push('.') =~= "."@);
        reveal_with_fuel(parts_from, 3);
    }
}

proof fn first_part(p: Seq<char>, i: int)
    requires
        0 <= i <= p.len(),
        past(p, i) < p.len(),
    ensures
        ({
            let a = past(p, i);
            let c = part_end(p, a);
            &&& a < c <= p.len()
            &&& parts_from(p, i, Seq::empty()) == seq![p.subrange(a, c)] + parts_from(
                p,
                c,
                Seq::empty(),
            )
        }),
{
    reveal_strlit(".");
    let a = past(p, i);
    let c = part_end(p, a);
    past_bounds(p, i);
    passed_parts(p, i);
    begins_a_part(p, i);
    text::first_is_earliest(p, '/', a);
    parts_of_name(p, a, Seq::empty(), c);
    let part = p.subrange(a, c);
    assert(Seq::<char>::empty() + part =~= part);
    if part == "."@ {
        assert(part[0] == p[a]);
        assert(c == a + 1);
    }
    assert(seq![part] + Seq::<Seq<char>>::empty() =~= seq![part]);
    assert(Seq::<Seq<char>>::empty() + parts_from(p, c + 1, Seq::empty()) =~= parts_from(
        p,
        c + 1,
        Seq::empty(),
    ));
}

proof fn begins_a_part(p: Seq<char>, i: int)
    requires
        0 <= i <= p.len(),
        past(p, i) < p.len(),
    ensures
        0 <= past(p, i),
        p[past(p, i)] != '/',
        p[past(p, i)] == '.' ==> past(p, i) + 1 < p.len() && p[past(p, i) + 1] != '/',
    decreases p.len() - i,
{
    if p[i] == '/' || (p[i] == '.' && (i + 1 == p.len() || p[i + 1] == '/')) {
        begins_a_part(p, i + 1);
    }
}

proof fn reached_parts(p: Seq<char>, i: int, dir: Seq<char>, j: int)
    requires
        0 <= i <= p.len(),
        0 <= j <= dir.len(),
    ensures
        reach(p, i, dir, j) matches Some(k) ==> 0 <= k <= p.len() && parts_from(p, i, Seq::empty())
            == parts_from(dir, j, Seq::empty()) + parts_from(p, k, Seq::empty()),
        reach(p, i, dir, j) is None ==> !parts_from(dir, j, Seq::empty()).is_prefix_of(
            parts_from(p, i, Seq::empty()),
        ),
    decreases dir.len() - j,
{
    let none = Seq::<char>::empty();
    let a = past(p, i);
    let b = past(dir, j);
    past_bounds(p, i);
    past_bounds(dir, j);
    passed_parts(p, i);
    passed_parts(dir, j);
    if b >= dir.len() {
        assert(parts_from(dir, j, none) + parts_from(p, i, none) =~= parts_from(p, i, none));
    } else {
        first_part(dir, j);
        let of_dir = parts_from(dir, j, none);
        let of_p = parts_from(p, i, none);
        let d = part_end(dir, b);
        assert(of_dir[0] == dir.subrange(b, d));
        if a < p.len() {
            first_part(p, i);
            let c = part_end(p, a);
            assert(of_p[0] == p.subrange(a, c));
            if p.subrange(a, c) == dir.subrange(b, d) {
                reached_parts(p, c, dir, d);
                let dir_rest = parts_from(dir, d, none);
                let p_rest = parts_from(p, c, none);
                if let Some(k) = reach(p, c, dir, d) {
                    assert(seq![of_dir[0]] + (dir_rest + parts_from(p, k, none)) =~= (seq![of_dir[0]]
                        + dir_rest) + parts_from(p, k, none));
                } else if of_dir.is_prefix_of(of_p) {
                    assert forall|n: int| 0 <= n < dir_rest.len() implies dir_rest[n] == p_rest[n] by {
                        assert(of_dir[n + 1] == of_p[n + 1]);
                    }
                    assert(dir_rest =~= p_rest.subrange(0, dir_rest.len() as int));
                }
            } else if of_dir.is_prefix_of(of_p) {
                assert(of_dir[0] == of_p[0]);
            }
        }
    }
}

proof fn dropped_end(q: Seq<char>, i: int, part: Seq<char>)
    requires
        0 <= i < q.len(),
        q.last() == '/' || (q.last() == '.' && if i < q.len() - 1 {
            q[q.len() - 2] == '/'
        } else {
            part.len() == 0
        }),
    ensures
        parts_from(q, i, part) == parts_from(q.drop_last(), i, part),
    decreases q.len() - i,
{
    reveal_strlit(".");
    let less = q.drop_last();
    if i < q.len() - 1 {
        if q[i] == '/' {
            dropped_end(q, i + 1, Seq::empty());
        } else {
            dropped_end(q, i + 1, part.push(q[i]));
        }
    } else {
        reveal_with_fuel(parts_from, 2);
        assert(Seq::<char>::empty().push('.') =~= "."@);
        if part.len() == 0 {
            assert(part.push('.') =~= "."@);
        }
        assert(parts_from(less, i, part) + Seq::<Seq<char>>::empty() =~= parts_from(less, i, part));
    }
}

proof fn ended_parts(p: Seq<char>, lo: int, n: int)
    requires
        0 <= lo <= n <= p.len(),
    ensures
        lo <= ended(p, lo, n) <= n,
        parts(p.subrange(lo, n)) == parts(p.subrange(lo, ended(p, lo, n))),
    decreases n - lo,
{
    if n > lo && (p[n - 1] == '/' || (p[n - 1] == '.' && (n - 1 == lo || p[n - 2] == '/'))) {
        let q = p.subrange(lo, n);
        assert(q.drop_last() =~= p.subrange(lo, n - 1));
        assert(q.last() == p[n - 1]);
        if n - 1 > lo {
            assert(q[q.len() - 2] == p[n - 2]);
        }
        dropped_end(q, 0, Seq::empty());
        ended_parts(p, lo, n - 1);
    }
}

/// What lies below a directory is the rest: the parts of a path are those of
/// the directory and, behind them, those of what is left. A path whose first
/// parts are those of the directory lies below it, where both begin at the
/// same place.
pub proof fn what_lies_below_is_the_rest(p: Seq<char>, dir: Seq<char>)
    ensures
        below(p, dir) matches Some(rest) ==> parts(p) == parts(dir) + parts(rest) && (p.len() > 0
            && p[0] == '/' <==> dir.len() > 0 && dir[0] == '/'),
        parts(dir).is_prefix_of(parts(p)) && (p.len() > 0 && p[0] == '/' <==> dir.len() > 0 && dir[0]
            == '/') && (p.len() > 0 && p[0] == '.' && (p.len() == 1 || p[1] == '/') <==> dir.len() > 0
            && dir[0] == '.' && (dir.len() == 1 || dir[1] == '/')) ==> below(p, dir) is Some,
{
    reached_parts(p, 0, dir, 0);
    if let Some(k) = reach(p, 0, dir, 0) {
        let lo = past(p, k);
        past_bounds(p, k);
        passed_parts(p, k);
        let n = p.len() as int;
        parts_of_rest(p, p.subrange(lo, n), lo, Seq::empty());
        ended_parts(p, lo, n);
    }
}

} // verus!
