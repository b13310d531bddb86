//! Signing keys: what is refused before a key is made or a decision signed,
//! and where the decision goes.

use crate::paths;
use crate::text;
use vstd::prelude::*;

verus! {

/// How long an approval lasts when nobody says, in hours.
pub const DEFAULT_HOURS: i64 = 1;

/// The permissions of a key file: for its owner alone.
pub const KEY_MODE: u32 = 0o600;

/// Tells whether a key may be written. A key file is never overwritten.
pub fn new(path: &str, exists: bool) -> (r: Result<(), String>)
    ensures
        r is Err <==> exists,
        r matches Err(why) ==> why@ == path@ + " already exists; a key file is never overwritten"@,
{
    if exists {
        Err(text::join2(path, " already exists; a key file is never overwritten"))
    } else {
        Ok(())
    }
}

/// When a decision expires: when it is told to, else after the default.
pub open spec fn expiry(not_after: Option<i64>, now: i64) -> int {
    match not_after {
        Some(t) => t as int,
        None => now + DEFAULT_HOURS * 3_600,
    }
}

/// The refusal of a decision that would be over before it could be read.
pub open spec fn overdue(shown: Seq<char>) -> Seq<char> {
    "--not-after "@ + shown
        + " is not in the future; the decision would expire before it could be read"@
}

/// When a decision made at `now` expires, in seconds. One that would be
/// over before it could be read is refused; `shown` is the instant as it is
/// written.
pub fn lifetime(not_after: Option<i64>, now: i64, shown: &str) -> (r: Result<i64, String>)
    requires
        not_after is None ==> now <= i64::MAX - 3_600,
    ensures
        if expiry(not_after, now) > now {
            r matches Ok(t) && t == expiry(not_after, now)
        } else {
            r matches Err(why) && why@ == overdue(shown@)
        },
{
    let at: i64 = match not_after {
        Some(t) => t,
        None => now + DEFAULT_HOURS * 3_600,
    };
    if at > now {
        Ok(at)
    } else {
        Err(
            text::join3(
                "--not-after ",
                shown,
                " is not in the future; the decision would expire before it could be read",
            ),
        )
    }
}

/// The path of the decision about a request: under the name of the request.
pub open spec fn decision_file(decided_dir: Seq<char>, request_path: Seq<char>) -> Seq<char> {
    paths::joined(
        decided_dir,
        match paths::file_name(request_path) {
            Some(n) => n,
            None => "decision.json"@,
        },
    )
}

/// The path that the decision about a request is written to.
pub fn decision_path(decided_dir: &str, request_path: &str) -> (r: String)
    ensures
        r@ == decision_file(decided_dir@, request_path@),
{
    match paths::file_name_of(request_path) {
        Some(n) => paths::join(decided_dir, n.as_str()),
        None => paths::join(decided_dir, "decision.json"),
    }
}

/// Where a decision is written, and when it expires, in seconds.
#[derive(Debug)]
pub struct Signing {
    pub not_after: i64,
    pub path: String,
}

/// Why a file is refused: it could not be read, or is not what it has to be.
pub open spec fn unread(
    path: Seq<char>,
    read: Result<Result<(), String>, String>,
    is_not: Seq<char>,
) -> Option<Seq<char>> {
    match read {
        Err(e) => Some("cannot read "@ + path + ": "@ + e@),
        Ok(Err(e)) => Some(path + is_not + e@),
        Ok(Ok(_)) => None,
    }
}

fn refuse_unread(path: &str, read: &Result<Result<(), String>, String>, is_not: &str) -> (r: Option<
    String,
>)
    ensures
        text::opt(r) == unread(path@, *read, is_not@),
{
    match read {
        Err(e) => Some(text::join4("cannot read ", path, ": ", e.as_str())),
        Ok(Err(e)) => Some(text::join3(path, is_not, e.as_str())),
        Ok(Ok(_)) => None,
    }
}

/// Decides how a decision about a request is signed. `key` and `request` are
/// how the two files read: whether they could be read at all, and whether
/// they hold what they have to. The key comes first.
pub fn sign(
    key_path: &str,
    key: &Result<Result<(), String>, String>,
    request_path: &str,
    request: &Result<Result<(), String>, String>,
    decided_dir: &str,
    not_after: Option<i64>,
    now: i64,
    shown: &str,
) -> (r: Result<Signing, String>)
    requires
        not_after is None ==> now <= i64::MAX - 3_600,
    ensures
        match unread(key_path@, *key, ": "@) {
            Some(what) => r matches Err(why) && why@ == what,
            None => match unread(request_path@, *request, " is not a grant request: "@) {
                Some(what) => r matches Err(why) && why@ == what,
                None => if expiry(not_after, now) > now {
                    r matches Ok(s) && s.not_after == expiry(not_after, now) && s.path@
                        == decision_file(decided_dir@, request_path@)
                } else {
                    r matches Err(why) && why@ == overdue(shown@)
                },
            },
        },
{
    if let Some(why) = refuse_unread(key_path, key, ": ") {
        return Err(why);
    }
    if let Some(why) = refuse_unread(request_path, request, " is not a grant request: ") {
        return Err(why);
    }
    match lifetime(not_after, now, shown) {
        Ok(at) => Ok(Signing { not_after: at, path: decision_path(decided_dir, request_path) }),
        Err(why) => Err(why),
    }
}

// ---- laws ----

/// Where nobody says when, a decision outlives its making: it is never
/// refused as expired.
pub proof fn a_decision_outlives_its_making(not_after: Option<i64>, now: i64)
    ensures
        not_after is None ==> expiry(not_after, now) > now,
{
}

/// A decision lasts until the time that is named, and for an hour where none
/// is.
pub proof fn a_decision_lasts_as_it_is_told(t: i64, now: i64)
    ensures
        expiry(Some(t), now) == t,
        expiry(None, now) == now + 60 * 60,
{
}

/// A file is taken only where it could be read and holds what it has to.
pub proof fn a_file_is_taken_only_where_it_reads(
    path: Seq<char>,
    read: Result<Result<(), String>, String>,
    is_not: Seq<char>,
)
    ensures
        unread(path, read, is_not) is None <==> read matches Ok(Ok(_)),
        read matches Err(e) ==> unread(path, read, is_not) == Some(
            "cannot read "@ + path + ": "@ + e@,
        ),
        read matches Ok(Err(e)) ==> unread(path, read, is_not) == Some(path + is_not + e@),
{
}

/// The private half of a key is for its owner alone to read and to write.
pub proof fn a_key_is_for_its_owner()
    ensures
        KEY_MODE == 6 * 64,
{
}

/// A decision is filed under the name of its request, and one that would be
/// over before it is read is refused with the moment that was named.
pub proof fn a_decision_is_filed_under_its_request(
    dir: Seq<char>,
    request: Seq<char>,
    shown: Seq<char>,
)
    ensures
        paths::file_name(request) matches Some(n) ==> decision_file(dir, request) == paths::joined(
            dir,
            n,
        ),
        paths::file_name(request) is None ==> decision_file(dir, request) == paths::joined(
            dir,
            "decision.json"@,
        ),
        overdue(shown) == "--not-after "@ + shown
            + " is not in the future; the decision would expire before it could be read"@,
{
}

} // verus!
