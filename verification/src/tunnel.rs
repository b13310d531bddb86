//! The tunnel: which of its modes the file and the flags name together, and
//! how a parked device comes back.

use crate::text;
use vstd::prelude::*;

verus! {

/// How a tunnel runs.
#[derive(Debug)]
pub enum Mode {
    /// Bridge this process's own streams to a URL.
    Stdio { claim: String },
    /// Serve a local port, one leg to the URL for each connection.
    Local { claim: String, bind: String },
    /// Accept connections and bridge each to a target.
    Listen { listen: String, to: String },
    /// The device side of the relay.
    Park { park: String, to: String },
}

/// What a mode is.
#[verifier::ext_equal]
pub enum ModeView {
    Stdio { claim: Seq<char> },
    Local { claim: Seq<char>, bind: Seq<char> },
    Listen { listen: Seq<char>, to: Seq<char> },
    Park { park: Seq<char>, to: Seq<char> },
}

impl Mode {
    /// The mode, as mathematics.
    pub open spec fn view(&self) -> ModeView {
        match self {
            Mode::Stdio { claim } => ModeView::Stdio { claim: claim@ },
            Mode::Local { claim, bind } => ModeView::Local { claim: claim@, bind: bind@ },
            Mode::Listen { listen, to } => ModeView::Listen { listen: listen@, to: to@ },
            Mode::Park { park, to } => ModeView::Park { park: park@, to: to@ },
        }
    }
}

/// What the command line says.
#[derive(Debug)]
pub struct Flags {
    pub url: Option<String>,
    pub local: Option<String>,
    pub listen: Option<String>,
    pub to: Option<String>,
    pub park: Option<String>,
    pub extra_root: Vec<String>,
}

/// What the configuration's block says.
#[derive(Debug)]
pub struct TunnelConfig {
    pub claim: Option<String>,
    pub bind: Option<String>,
    pub listen: Option<String>,
    pub to: Option<String>,
    pub park: Option<String>,
    pub extra_roots: Vec<String>,
}

/// What the two come to.
#[derive(Debug)]
pub struct Resolved {
    pub mode: Mode,
    pub extra_roots: Vec<String>,
    /// Where the roots were named, for a refusal that names it.
    pub extra_roots_key: &'static str,
}

/// Where a key was named.
#[derive(Clone, Copy, Debug, PartialEq, Eq, Structural)]
pub enum Source {
    File,
    Flag,
}

/// A key as whoever named it would write it.
pub open spec fn spelling(key: Seq<char>, source: Source) -> Seq<char> {
    match source {
        Source::File => "`tunnel."@ + key + "` in the config"@,
        Source::Flag => if key == "claim"@ {
            "the URL on the command line"@
        } else if key == "bind"@ {
            "`--local`"@
        } else {
            "`--"@ + key + "`"@
        },
    }
}

/// Spells a key as whoever named it would write it.
pub fn spelled(key: &str, source: Source) -> (r: String)
    ensures
        r@ == spelling(key@, source),
{
    match source {
        Source::File => text::join3("`tunnel.", key, "` in the config"),
        Source::Flag => {
            if text::same(key, "claim") {
                "the URL on the command line".to_owned()
            } else if text::same(key, "bind") {
                "`--local`".to_owned()
            } else {
                text::join3("`--", key, "`")
            }
        },
    }
}

/// One key: its value and where it was named. The flag wins.
pub type Picked = Option<(Seq<char>, Source)>;

/// One key from its two sources.
pub open spec fn picked(flag: Option<Seq<char>>, file: Option<Seq<char>>) -> Picked {
    match flag {
        Some(v) => Some((v, Source::Flag)),
        None => match file {
            Some(v) => Some((v, Source::File)),
            None => None,
        },
    }
}

/// The five keys of a tunnel.
pub struct Keys {
    pub claim: Picked,
    pub bind: Picked,
    pub park: Picked,
    pub listen: Picked,
    pub to: Picked,
}

/// The keys that the file and the flags name.
pub open spec fn keys(file: Option<&TunnelConfig>, flags: &Flags) -> Keys {
    Keys {
        claim: picked(
            text::opt(flags.url),
            match file {
                Some(f) => text::opt(f.claim),
                None => None,
            },
        ),
        bind: picked(
            text::opt(flags.local),
            match file {
                Some(f) => text::opt(f.bind),
                None => None,
            },
        ),
        park: picked(
            text::opt(flags.park),
            match file {
                Some(f) => text::opt(f.park),
                None => None,
            },
        ),
        listen: picked(
            text::opt(flags.listen),
            match file {
                Some(f) => text::opt(f.listen),
                None => None,
            },
        ),
        to: picked(
            text::opt(flags.to),
            match file {
                Some(f) => text::opt(f.to),
                None => None,
            },
        ),
    }
}

/// The refusal of two modes in one tunnel.
pub open spec fn two_modes(a: Seq<char>, sa: Source, b: Seq<char>, sb: Source) -> Seq<char> {
    "tunnel: "@ + spelling(a, sa) + " and "@ + spelling(b, sb)
        + " name two modes; a tunnel is one claim, one park, or one listen"@
}

/// The refusal of a key that belongs to another mode.
pub open spec fn stray(key: Seq<char>, source: Source, owner: Seq<char>) -> Seq<char> {
    "tunnel: "@ + spelling(key, source) + " belongs with "@ + owner
        + ", and this tunnel has none"@
}

/// The refusal of a mode that lacks its target.
pub open spec fn untargeted(mode: Seq<char>) -> Seq<char> {
    "tunnel: a "@ + mode
        + " needs `to`, the host:port it delivers to (`--to`, or `tunnel.to` in the config)"@
}

/// The refusal of a tunnel without a mode.
pub open spec fn modeless() -> Seq<char> {
    "name a URL to bridge stdio to (with --local to serve a local port instead), --listen with --to, or --park with --to; or `tunnel` in the --config file, which takes the same keys"@
}

/// The mode that the keys name, or why they name none.
pub open spec fn mode_of(k: Keys) -> Result<ModeView, Seq<char>> {
    match (k.claim, k.park, k.listen) {
        (Some((_, a)), Some((_, b)), _) => Err(two_modes("claim"@, a, "park"@, b)),
        (Some((_, a)), None, Some((_, b))) => Err(two_modes("claim"@, a, "listen"@, b)),
        (None, Some((_, a)), Some((_, b))) => Err(two_modes("park"@, a, "listen"@, b)),
        (Some((claim, _)), None, None) => match k.to {
            Some((_, s)) => Err(stray("to"@, s, "`park` or `listen`"@)),
            None => match k.bind {
                Some((bind, _)) => Ok(ModeView::Local { claim, bind }),
                None => Ok(ModeView::Stdio { claim }),
            },
        },
        (None, Some((park, _)), None) => match k.bind {
            Some((_, s)) => Err(stray("bind"@, s, "`claim`"@)),
            None => match k.to {
                Some((to, _)) => Ok(ModeView::Park { park, to }),
                None => Err(untargeted("park"@)),
            },
        },
        (None, None, Some((listen, _))) => match k.bind {
            Some((_, s)) => Err(stray("bind"@, s, "`claim`"@)),
            None => match k.to {
                Some((to, _)) => Ok(ModeView::Listen { listen, to }),
                None => Err(untargeted("listen"@)),
            },
        },
        (None, None, None) => match k.bind {
            Some((_, s)) => Err(stray("bind"@, s, "`claim`"@)),
            None => match k.to {
                Some((_, s)) => Err(stray("to"@, s, "`park` or `listen`"@)),
                None => Err(modeless()),
            },
        },
    }
}

/// The roots that are trusted beside the public ones, and where they were
/// named. Flags replace the file's list.
pub open spec fn roots_of(file: Option<&TunnelConfig>, flags: &Flags) -> (
    Seq<Seq<char>>,
    Seq<char>,
) {
    if flags.extra_root@.len() > 0 {
        (text::texts(flags.extra_root@), "--extra-root"@)
    } else {
        (
            match file {
                Some(f) => text::texts(f.extra_roots@),
                None => Seq::empty(),
            },
            "tunnel.extra_roots"@,
        )
    }
}

spec fn picked_view(p: Option<(String, Source)>) -> Picked {
    match p {
        Some((v, s)) => Some((v@, s)),
        None => None,
    }
}

fn pick(flag: &Option<String>, file: Option<&String>) -> (r: Option<(String, Source)>)
    ensures
        picked_view(r) == picked(
            text::opt(*flag),
            match file {
                Some(v) => Some(v@),
                None => None,
            },
        ),
{
    match flag {
        Some(v) => Some((v.clone(), Source::Flag)),
        None => match file {
            Some(v) => Some((v.clone(), Source::File)),
            None => None,
        },
    }
}

fn refuse_stray(key: &str, source: Source, owner: &str) -> (r: String)
    ensures
        r@ == stray(key@, source, owner@),
{
    text::join5(
        "tunnel: ",
        spelled(key, source).as_str(),
        " belongs with ",
        owner,
        ", and this tunnel has none",
    )
}

fn refuse_two(a: &str, sa: Source, b: &str, sb: Source) -> (r: String)
    ensures
        r@ == two_modes(a@, sa, b@, sb),
{
    text::join5(
        "tunnel: ",
        spelled(a, sa).as_str(),
        " and ",
        spelled(b, sb).as_str(),
        " name two modes; a tunnel is one claim, one park, or one listen",
    )
}

fn refuse_untargeted(mode: &str) -> (r: String)
    ensures
        r@ == untargeted(mode@),
{
    text::join3(
        "tunnel: a ",
        mode,
        " needs `to`, the host:port it delivers to (`--to`, or `tunnel.to` in the config)",
    )
}

/// Puts the file's block and the flags together. Flags win key by key; keys
/// that disagree are refused by name.
pub fn resolve(file: Option<&TunnelConfig>, flags: &Flags) -> (r: Result<Resolved, String>)
    ensures
        match mode_of(keys(file, flags)) {
            Ok(m) => r matches Ok(v) && v.mode@ == m && (
                text::texts(v.extra_roots@),
                v.extra_roots_key@,
            ) == roots_of(file, flags),
            Err(what) => r matches Err(why) && why@ == what,
        },
{
    let claim = pick(
        &flags.url,
        match file {
            Some(f) => f.claim.as_ref(),
            None => None,
        },
    );
    let bind = pick(
        &flags.local,
        match file {
            Some(f) => f.bind.as_ref(),
            None => None,
        },
    );
    let park = pick(
        &flags.park,
        match file {
            Some(f) => f.park.as_ref(),
            None => None,
        },
    );
    let listen = pick(
        &flags.listen,
        match file {
            Some(f) => f.listen.as_ref(),
            None => None,
        },
    );
    let to = pick(
        &flags.to,
        match file {
            Some(f) => f.to.as_ref(),
            None => None,
        },
    );
    let ghost k = keys(file, flags);
    assert(picked_view(claim) == k.claim);
    assert(picked_view(bind) == k.bind);
    assert(picked_view(park) == k.park);
    assert(picked_view(listen) == k.listen);
    assert(picked_view(to) == k.to);
    let mode: Mode = match (claim, park, listen) {
        (Some((_, a)), Some((_, b)), _) => return Err(refuse_two("claim", a, "park", b)),
        (Some((_, a)), None, Some((_, b))) => return Err(refuse_two("claim", a, "listen", b)),
        (None, Some((_, a)), Some((_, b))) => return Err(refuse_two("park", a, "listen", b)),
        (Some((claim, _)), None, None) => {
            if let Some((_, s)) = to {
                return Err(refuse_stray("to", s, "`park` or `listen`"));
            }
            match bind {
                Some((bind, _)) => Mode::Local { claim, bind },
                None => Mode::Stdio { claim },
            }
        },
        (None, Some((park, _)), None) => {
            if let Some((_, s)) = bind {
                return Err(refuse_stray("bind", s, "`claim`"));
            }
            match to {
                Some((to, _)) => Mode::Park { park, to },
                None => return Err(refuse_untargeted("park")),
            }
        },
        (None, None, Some((listen, _))) => {
            if let Some((_, s)) = bind {
                return Err(refuse_stray("bind", s, "`claim`"));
            }
            match to {
                Some((to, _)) => Mode::Listen { listen, to },
                None => return Err(refuse_untargeted("listen")),
            }
        },
        (None, None, None) => {
            if let Some((_, s)) = bind {
                return Err(refuse_stray("bind", s, "`claim`"));
            }
            if let Some((_, s)) = to {
                return Err(refuse_stray("to", s, "`park` or `listen`"));
            }
            return Err(
                "name a URL to bridge stdio to (with --local to serve a local port instead), --listen with --to, or --park with --to; or `tunnel` in the --config file, which takes the same keys".to_owned(),
            );
        },
    };
    if flags.extra_root.len() > 0 {
        return Ok(
            Resolved {
                mode,
                extra_roots: text::copied(&flags.extra_root),
                extra_roots_key: "--extra-root",
            },
        );
    }
    let extra_roots: Vec<String> = match file {
        Some(f) => text::copied(&f.extra_roots),
        None => Vec::new(),
    };
    if file.is_none() {
        assert(text::texts(extra_roots@) =~= Seq::empty());
    }
    Ok(Resolved { mode, extra_roots, extra_roots_key: "tunnel.extra_roots" })
}

// ---- parking ----

/// The first wait before parking again, in milliseconds.
pub const BACKOFF_FIRST_MS: u64 = 1_000;

/// The longest wait before parking again, in milliseconds.
pub const BACKOFF_LAST_MS: u64 = 60_000;

/// The wait after a leg was dropped, in milliseconds.
pub const DROPPED_MS: u64 = 200;

/// How parking once ended.
#[derive(Clone, Copy, Debug, PartialEq, Eq, Structural)]
pub enum Parked {
    /// A caller claimed the leg.
    Claimed,
    /// The leg was dropped.
    Dropped,
    /// The leg could not be parked.
    Failed,
}

/// How long to wait before parking again, and the wait that the next failure
/// would get.
pub open spec fn after_park(p: Parked, backoff: u64) -> (u64, u64) {
    match p {
        Parked::Claimed => (0, BACKOFF_FIRST_MS),
        Parked::Dropped => (DROPPED_MS, BACKOFF_FIRST_MS),
        Parked::Failed => (
            backoff,
            if backoff * 2 < BACKOFF_LAST_MS {
                (backoff * 2) as u64
            } else {
                BACKOFF_LAST_MS
            },
        ),
    }
}

/// How long to wait before parking again, given how it ended and the wait
/// that a failure gets now.
pub fn park_again(p: Parked, backoff: u64) -> (r: (u64, u64))
    ensures
        r == after_park(p, backoff),
{
    match p {
        Parked::Claimed => (0, BACKOFF_FIRST_MS),
        Parked::Dropped => (DROPPED_MS, BACKOFF_FIRST_MS),
        Parked::Failed => (
            backoff,
            if backoff < BACKOFF_LAST_MS / 2 {
                backoff * 2
            } else {
                BACKOFF_LAST_MS
            },
        ),
    }
}

// ---- what moves over a tunnel ----

/// The most bytes that one read moves.
pub const CHUNK: usize = 65_536;

/// What came over the far leg.
#[derive(Clone, Copy, Debug, PartialEq, Eq, Structural)]
pub enum Frame {
    /// So many bytes.
    Binary(usize),
    Ping,
    Close,
    /// Any other frame.
    Other,
    /// The leg failed.
    Failed,
    /// The leg is gone.
    Gone,
}

/// What a parked leg does with a frame.
#[derive(Clone, Copy, Debug, PartialEq, Eq, Structural)]
pub enum HoldAct {
    /// A caller claimed it: the frame holds the first bytes of a session.
    Claimed,
    /// Answer the ping, and go on holding.
    Pong,
    /// Go on holding.
    Hold,
    /// The relay let it go.
    Dropped,
    /// It failed.
    Failed,
}

/// What a parked leg does with a frame. Only bytes claim it.
pub fn hold_step(frame: Frame) -> (r: HoldAct)
    ensures
        r == (match frame {
            Frame::Binary(n) => if n > 0 {
                HoldAct::Claimed
            } else {
                HoldAct::Hold
            },
            Frame::Ping => HoldAct::Pong,
            Frame::Close | Frame::Gone => HoldAct::Dropped,
            Frame::Other => HoldAct::Hold,
            Frame::Failed => HoldAct::Failed,
        }),
{
    match frame {
        Frame::Binary(n) => if n > 0 {
            HoldAct::Claimed
        } else {
            HoldAct::Hold
        },
        Frame::Ping => HoldAct::Pong,
        Frame::Close => HoldAct::Dropped,
        Frame::Gone => HoldAct::Dropped,
        Frame::Other => HoldAct::Hold,
        Frame::Failed => HoldAct::Failed,
    }
}

/// What happened on either side of a session.
#[derive(Clone, Copy, Debug, PartialEq, Eq, Structural)]
pub enum PumpEvent {
    /// The near side sent so many bytes; none is its end.
    Read(usize),
    /// The near side failed.
    Lost,
    /// A frame came over the far leg.
    Frame(Frame),
    /// What was to be sent or written could not be.
    Stuck,
}

/// What a session does next.
#[derive(Clone, Copy, Debug, PartialEq, Eq, Structural)]
pub enum PumpAct {
    /// Send so many bytes over the far leg.
    Send(usize),
    /// Write so many bytes to the near side.
    Write(usize),
    /// Answer the ping.
    Pong,
    /// Nothing.
    Wait,
    /// Shut the near side down; the session is over.
    End,
}

/// What a session does next: it is over when either side is.
pub fn pump_step(event: PumpEvent) -> (r: PumpAct)
    ensures
        r == (match event {
            PumpEvent::Read(n) => if n == 0 {
                PumpAct::End
            } else {
                PumpAct::Send(n)
            },
            PumpEvent::Lost | PumpEvent::Stuck => PumpAct::End,
            PumpEvent::Frame(Frame::Binary(n)) => PumpAct::Write(n),
            PumpEvent::Frame(Frame::Ping) => PumpAct::Pong,
            PumpEvent::Frame(Frame::Other) => PumpAct::Wait,
            PumpEvent::Frame(_) => PumpAct::End,
        }),
{
    match event {
        PumpEvent::Read(n) => if n == 0 {
            PumpAct::End
        } else {
            PumpAct::Send(n)
        },
        PumpEvent::Lost => PumpAct::End,
        PumpEvent::Stuck => PumpAct::End,
        PumpEvent::Frame(f) => match f {
            Frame::Binary(n) => PumpAct::Write(n),
            Frame::Ping => PumpAct::Pong,
            Frame::Other => PumpAct::Wait,
            _ => PumpAct::End,
        },
    }
}

// ---- laws ----

/// A flag wins over the file, key by key: where the flag names a key, the
/// file's value plays no part.
pub proof fn a_flag_wins(flag: Seq<char>, file: Option<Seq<char>>)
    ensures
        picked(Some(flag), file) == Some((flag, Source::Flag)),
{
}

/// A tunnel that resolves is in one mode: exactly one of the keys that
/// choose a mode was named, and it is the mode's own.
pub proof fn a_tunnel_has_one_mode(k: Keys)
    requires
        mode_of(k) is Ok,
    ensures
        mode_of(k)->Ok_0 is Stdio || mode_of(k)->Ok_0 is Local <==> k.claim is Some,
        mode_of(k)->Ok_0 is Park <==> k.park is Some,
        mode_of(k)->Ok_0 is Listen <==> k.listen is Some,
{
}

/// No key is ignored: a tunnel that resolves uses every key that was named.
pub proof fn no_key_is_ignored(k: Keys)
    requires
        mode_of(k) is Ok,
    ensures
        k.bind is Some ==> mode_of(k)->Ok_0 is Local,
        k.to is Some ==> mode_of(k)->Ok_0 is Park || mode_of(k)->Ok_0 is Listen,
{
}

/// The wait after a failure stays between the first and the longest.
pub proof fn the_wait_stays_bounded(p: Parked, backoff: u64)
    requires
        BACKOFF_FIRST_MS <= backoff <= BACKOFF_LAST_MS,
    ensures
        BACKOFF_FIRST_MS <= after_park(p, backoff).1 <= BACKOFF_LAST_MS,
        after_park(p, backoff).0 <= BACKOFF_LAST_MS,
{
}

/// Each key is the flag's where the command line names it, else the file's,
/// and each is taken from its own place in both.
pub proof fn each_key_has_its_own_flag(file: Option<&TunnelConfig>, flags: &Flags)
    ensures
        ({
            let k = keys(file, flags);
            &&& match flags.url {
                Some(v) => k.claim == Some((v@, Source::Flag)),
                None => k.claim == (if file is Some && file->0.claim is Some {
                    Some((file->0.claim->0@, Source::File))
                } else {
                    None
                }),
            }
            &&& match flags.local {
                Some(v) => k.bind == Some((v@, Source::Flag)),
                None => k.bind == (if file is Some && file->0.bind is Some {
                    Some((file->0.bind->0@, Source::File))
                } else {
                    None
                }),
            }
            &&& match flags.park {
                Some(v) => k.park == Some((v@, Source::Flag)),
                None => k.park == (if file is Some && file->0.park is Some {
                    Some((file->0.park->0@, Source::File))
                } else {
                    None
                }),
            }
            &&& match flags.listen {
                Some(v) => k.listen == Some((v@, Source::Flag)),
                None => k.listen == (if file is Some && file->0.listen is Some {
                    Some((file->0.listen->0@, Source::File))
                } else {
                    None
                }),
            }
            &&& match flags.to {
                Some(v) => k.to == Some((v@, Source::Flag)),
                None => k.to == (if file is Some && file->0.to is Some {
                    Some((file->0.to->0@, Source::File))
                } else {
                    None
                }),
            }
        }),
        flags.extra_root@.len() > 0 ==> roots_of(file, flags) == (
            text::texts(flags.extra_root@),
            "--extra-root"@,
        ),
        flags.extra_root@.len() == 0 ==> roots_of(file, flags) == (
            if file is Some {
                text::texts(file->0.extra_roots@)
            } else {
                Seq::empty()
            },
            "tunnel.extra_roots"@,
        ),
{
}

/// The value of a key, wherever it was named.
pub open spec fn value_of(p: Picked) -> Option<Seq<char>> {
    match p {
        Some((v, _)) => Some(v),
        None => None,
    }
}

/// Which keys make which mode: a claim alone bridges this process's streams, a
/// claim and a port serve that port, and a park or a listen needs its target.
/// Nothing else is a tunnel.
pub proof fn the_keys_make_the_mode(k: Keys)
    ensures
        mode_of(k) is Ok <==> {
            ||| k.claim is Some && k.park is None && k.listen is None && k.to is None
            ||| k.claim is None && k.park is Some && k.listen is None && k.to is Some && k.bind
                is None
            ||| k.claim is None && k.park is None && k.listen is Some && k.to is Some && k.bind
                is None
        },
        mode_of(k) matches Ok(m) ==> match m {
            ModeView::Stdio { claim } => k.bind is None && value_of(k.claim) == Some(claim),
            ModeView::Local { claim, bind } => value_of(k.claim) == Some(claim) && value_of(k.bind)
                == Some(bind),
            ModeView::Listen { listen, to } => value_of(k.listen) == Some(listen) && value_of(k.to)
                == Some(to),
            ModeView::Park { park, to } => value_of(k.park) == Some(park) && value_of(k.to) == Some(
                to,
            ),
        },
{
}

/// A refusal spells a key as it was named: by its place in the file, or as it
/// stands on the command line.
pub proof fn a_key_is_spelled_as_it_was_named(key: Seq<char>)
    ensures
        spelling(key, Source::File) == "`tunnel."@ + key + "` in the config"@,
        spelling("claim"@, Source::Flag) == "the URL on the command line"@,
        spelling("bind"@, Source::Flag) == "`--local`"@,
        key != "claim"@ && key != "bind"@ ==> spelling(key, Source::Flag) == "`--"@ + key + "`"@,
{
    reveal_strlit("claim");
    reveal_strlit("bind");
    assert("claim"@.len() != "bind"@.len());
}

/// A claimed leg is parked again at once, a dropped one after a moment, and
/// after a failure the wait doubles, from a second to a minute; anything but a
/// failure begins it anew.
pub proof fn the_wait_doubles_after_a_failure(backoff: u64)
    ensures
        after_park(Parked::Claimed, backoff) == (0u64, 1_000u64),
        after_park(Parked::Dropped, backoff) == (200u64, 1_000u64),
        after_park(Parked::Failed, backoff).0 == backoff,
        2 * backoff <= 60_000 ==> after_park(Parked::Failed, backoff).1 == 2 * backoff,
        2 * backoff > 60_000 ==> after_park(Parked::Failed, backoff).1 == 60_000,
{
}

/// One read moves at most 65536 bytes.
pub proof fn a_read_is_bounded()
    ensures
        CHUNK == 65_536,
{
}

/// A refusal of a tunnel names the keys as they were named, and what is wrong
/// with them.
pub proof fn a_refused_tunnel_names_its_keys(
    a: Seq<char>,
    sa: Source,
    b: Seq<char>,
    sb: Source,
    mode: Seq<char>,
)
    ensures
        two_modes(a, sa, b, sb) == "tunnel: "@ + spelling(a, sa) + " and "@ + spelling(b, sb)
            + " name two modes; a tunnel is one claim, one park, or one listen"@,
        stray(a, sa, b) == "tunnel: "@ + spelling(a, sa) + " belongs with "@ + b
            + ", and this tunnel has none"@,
        untargeted(mode) == "tunnel: a "@ + mode
            + " needs `to`, the host:port it delivers to (`--to`, or `tunnel.to` in the config)"@,
        modeless()
            == "name a URL to bridge stdio to (with --local to serve a local port instead), --listen with --to, or --park with --to; or `tunnel` in the --config file, which takes the same keys"@,
{
}

} // verus!
