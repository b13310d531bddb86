//! Which core is inside: the revision that a lock file pins.

use crate::paths;
use crate::text;
use vstd::prelude::*;

verus! {

/// How many directories are searched for the lock file, upwards.
pub const LOCK_DEPTH: usize = 4;

/// What is said of a core that is pinned by no revision.
pub const UNKNOWN: &'static str = "unknown";

/// The paths at which the lock file is looked for: in a directory and in
/// those above it, at most `n` of them.
pub open spec fn lock_paths(dir: Seq<char>, n: nat) -> Seq<Seq<char>>
    decreases n,
{
    if n == 0 {
        Seq::empty()
    } else {
        seq![paths::joined(dir, "Cargo.lock"@)] + (match paths::parent(dir) {
            Some(up) => lock_paths(up, (n - 1) as nat),
            None => Seq::empty(),
        })
    }
}

/// The paths at which the lock file is looked for, the nearest first.
pub fn lock_candidates(dir: &str) -> (r: Vec<String>)
    ensures
        text::texts(r@) == lock_paths(dir@, LOCK_DEPTH as nat),
{
    let mut r: Vec<String> = Vec::new();
    let mut here: String = dir.to_owned();
    let mut left: usize = LOCK_DEPTH;
    assert(text::texts(r@) + lock_paths(dir@, LOCK_DEPTH as nat) =~= lock_paths(
        dir@,
        LOCK_DEPTH as nat,
    ));
    loop
        invariant_except_break
            text::texts(r@) + lock_paths(here@, left as nat) == lock_paths(
                dir@,
                LOCK_DEPTH as nat,
            ),
        ensures
            text::texts(r@) == lock_paths(dir@, LOCK_DEPTH as nat),
        decreases left,
    {
        let ghost had = text::texts(r@);
        if left == 0 {
            assert(had =~= had + lock_paths(here@, 0));
            break;
        }
        let one = paths::join(here.as_str(), "Cargo.lock");
        let ghost s = one@;
        r.push(one);
        assert(text::texts(r@) =~= had.push(s));
        left = left - 1;
        match paths::parent_of(here.as_str()) {
            None => {
                assert(text::texts(r@) =~= had + lock_paths(here@, (left + 1) as nat));
                break;
            },
            Some(up) => {
                assert(text::texts(r@) + lock_paths(up@, left as nat) =~= had + lock_paths(
                    here@,
                    (left + 1) as nat,
                ));
                here = up;
            },
        }
    }
    r
}

/// A text without the quotes at its end.
pub open spec fn unquoted(s: Seq<char>) -> Seq<char>
    decreases s.len(),
{
    if s.len() > 0 && s.last() == '"' {
        unquoted(s.drop_last())
    } else {
        s
    }
}

fn unquote(s: &str) -> (r: String)
    ensures
        r@ == unquoted(s@),
{
    let cs = text::chars(s);
    let mut n: usize = cs.len();
    assert(s@.subrange(0, s@.len() as int) =~= s@);
    while n > 0 && cs[n - 1] == '"'
        invariant
            n <= cs.len(),
            cs@ == s@,
            unquoted(s@) == unquoted(s@.subrange(0, n as int)),
        decreases n,
    {
        assert(s@.subrange(0, n as int).drop_last() =~= s@.subrange(0, n - 1));
        n = n - 1;
    }
    text::cut(&cs, 0, n)
}

/// The revision in the source of a package: what stands behind its last
/// `#`.
pub open spec fn pinned(rest: Seq<char>) -> Option<Seq<char>> {
    match text::rsplit_once(rest, '#') {
        Some((_, sha)) => Some(unquoted(sha)),
        None => None,
    }
}

/// The revision that the lines from `i` on pin. `inside` is whether they
/// begin within the package of the core.
pub open spec fn pinned_from(lines: Seq<Seq<char>>, i: int, inside: bool) -> Option<Seq<char>>
    decreases lines.len() - i,
{
    if i < 0 || i >= lines.len() {
        None
    } else if text::begins(lines[i], "[[package]]"@) {
        pinned_from(lines, i + 1, false)
    } else if lines[i] == "name = \"diluvium\""@ {
        pinned_from(lines, i + 1, true)
    } else if inside {
        match text::without(lines[i], "source = \"git+"@) {
            Some(rest) => pinned(rest),
            None => pinned_from(lines, i + 1, true),
        }
    } else {
        pinned_from(lines, i + 1, false)
    }
}

/// The revision of the core that a lock file pins, if it pins one.
pub fn revision_of(lock: &str) -> (r: Option<String>)
    ensures
        text::opt(r) == pinned_from(text::lines_of(lock@), 0, false),
{
    let lines = text::lines(lock);
    let ghost all = text::texts(lines@);
    let mut inside: bool = false;
    let mut i: usize = 0;
    while i < lines.len()
        invariant
            i <= lines.len(),
            all == text::texts(lines@),
            all == text::lines_of(lock@),
            pinned_from(all, 0, false) == pinned_from(all, i as int, inside),
        decreases lines.len() - i,
    {
        let line = lines[i].as_str();
        assert(all[i as int] == line@);
        if text::starts(line, "[[package]]") {
            inside = false;
        } else if text::same(line, "name = \"diluvium\"") {
            inside = true;
        } else if inside {
            if let Some(rest) = text::strip(line, "source = \"git+") {
                return match text::cut_at_last(rest.as_str(), '#') {
                    Some((_, sha)) => Some(unquote(sha.as_str())),
                    None => None,
                };
            }
        }
        i = i + 1;
    }
    None
}

// ---- laws ----

/// A package that is not the core's pins nothing, whatever its source.
pub proof fn only_the_core_counts(lines: Seq<Seq<char>>, i: int)
    requires
        0 <= i <= lines.len(),
        forall|k: int| i <= k < lines.len() ==> #[trigger] lines[k] != "name = \"diluvium\""@,
    ensures
        pinned_from(lines, i, false) is None,
    decreases lines.len() - i,
{
    if i < lines.len() {
        only_the_core_counts(lines, i + 1);
    }
}

/// The lock file is looked for in a directory first, then in the one above,
/// and in four at most.
pub proof fn the_nearest_lock_file_comes_first(dir: Seq<char>, n: nat)
    ensures
        lock_paths(dir, n).len() <= n,
        n > 0 ==> lock_paths(dir, n).len() > 0 && lock_paths(dir, n)[0] == paths::joined(
            dir,
            "Cargo.lock"@,
        ),
        n > 1 && paths::parent(dir) is Some ==> lock_paths(dir, n).len() > 1 && lock_paths(
            dir,
            n,
        )[1] == paths::joined(paths::parent(dir)->0, "Cargo.lock"@),
    decreases n,
{
    if n > 0 {
        if let Some(up) = paths::parent(dir) {
            the_nearest_lock_file_comes_first(up, (n - 1) as nat);
        }
    }
}

/// The revision is what stands behind the last `#`, without the quote that
/// ends the line.
pub proof fn a_revision_stands_behind_the_last_mark(url: Seq<char>, sha: Seq<char>)
    requires
        !sha.contains('#'),
        sha.len() == 0 || sha.last() != '"',
    ensures
        pinned(url + seq!['#'] + sha + seq!['"']) == Some(sha),
        pinned(url + seq!['#'] + sha) == Some(sha),
{
    behind_the_last_mark(url, sha);
    let quoted = sha.push('"');
    assert(!quoted.contains('#')) by {
        if quoted.contains('#') {
            let k = choose|k: int| 0 <= k < quoted.len() && quoted[k] == '#';
            assert(sha[k] == '#');
        }
    }
    behind_the_last_mark(url, quoted);
    assert(url + seq!['#'] + quoted =~= url + seq!['#'] + sha + seq!['"']);
    assert(quoted.drop_last() =~= sha);
    reveal_with_fuel(unquoted, 2);
}

proof fn behind_the_last_mark(a: Seq<char>, b: Seq<char>)
    requires
        !b.contains('#'),
    ensures
        text::rsplit_once(a + seq!['#'] + b, '#') == Some((a, b)),
{
    let s = a + seq!['#'] + b;
    let n = a.len() as int;
    text::last_is_latest(s, '#');
    assert(s[n] == '#');
    assert forall|k: int| n < k < s.len() implies s[k] != '#' by {
        assert(s[k] == b[k - n - 1]);
        assert(b.contains(b[k - n - 1]));
    }
    assert(s.subrange(0, n) =~= a);
    assert(s.subrange(n + 1, s.len() as int) =~= b);
}

proof fn pinned_inside(lines: Seq<Seq<char>>, i: int, j: int, rest: Seq<char>)
    requires
        0 <= i <= j < lines.len(),
        lines[j] == "source = \"git+"@ + rest,
        forall|k: int|
            i <= k < j ==> !text::begins(#[trigger] lines[k], "[[package]]"@) && !text::begins(
                lines[k],
                "source = \"git+"@,
            ),
    ensures
        pinned_from(lines, i, true) == pinned(rest),
    decreases j - i,
{
    if i < j {
        pinned_inside(lines, i + 1, j, rest);
    } else {
        reveal_strlit("[[package]]");
        reveal_strlit("source = \"git+");
        reveal_strlit("name = \"diluvium\"");
        text::what_is_stripped_is_the_beginning("source = \"git+"@, rest, lines[j]);
        if text::begins(lines[j], "[[package]]"@) {
            assert(lines[j].subrange(0, 11)[0] == '[');
            assert(lines[j][0] == 's');
        }
        assert(lines[j][0] == 's');
        assert("name = \"diluvium\""@[0] == 'n');
    }
}

/// The core's revision is the one in the source of its own package: behind its
/// name and before the next package begins.
pub proof fn the_core_is_pinned_by_its_own_source(
    lines: Seq<Seq<char>>,
    i: int,
    j: int,
    rest: Seq<char>,
)
    requires
        0 <= i < j < lines.len(),
        lines[i] == "name = \"diluvium\""@,
        lines[j] == "source = \"git+"@ + rest,
        forall|k: int|
            i < k < j ==> !text::begins(#[trigger] lines[k], "[[package]]"@) && !text::begins(
                lines[k],
                "source = \"git+"@,
            ),
    ensures
        pinned_from(lines, i, false) == pinned(rest),
{
    reveal_strlit("[[package]]");
    reveal_strlit("name = \"diluvium\"");
    if text::begins(lines[i], "[[package]]"@) {
        assert(lines[i].subrange(0, 11)[0] == '[');
        assert(lines[i][0] == 'n');
    }
    pinned_inside(lines, i + 1, j, rest);
}

/// The lock file is looked for in the directory and in at most three above it.
pub proof fn a_lock_file_is_looked_for_nearby(dir: Seq<char>, n: nat)
    ensures
        LOCK_DEPTH == 4,
        lock_paths(dir, n).len() <= n,
        n > 0 ==> lock_paths(dir, n).len() > 0 && lock_paths(dir, n)[0] == paths::joined(
            dir,
            "Cargo.lock"@,
        ),
        UNKNOWN@ == "unknown"@,
    decreases n,
{
    if n > 0 {
        if let Some(up) = paths::parent(dir) {
            a_lock_file_is_looked_for_nearby(up, (n - 1) as nat);
        }
    }
}

} // verus!
