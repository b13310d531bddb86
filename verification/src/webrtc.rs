//! The browser's end of a deployment: what its block has to hold, the
//! commands that come in, and the reports that go out.

use crate::msg;
use crate::msg::{Datum, Msg};
use crate::text;
use std::collections::VecDeque;
use vstd::prelude::*;

verus! {

/// The most reports that are held for a queue that takes none yet.
pub const HELD_MAX: usize = 4096;

/// The longest name of a peer that a command may hold, in bytes.
pub const MAX_PEER: usize = 64;

// ---- the block ----

/// The block, as far as it is checked.
#[derive(Debug)]
pub struct WebrtcConfig {
    pub bind: String,
    pub default: Option<String>,
    pub stun_refresh_s: u64,
    pub max_sessions: usize,
    pub max_streams_per_session: usize,
}

/// What reading the block's addresses came to: whether `bind` is one, what
/// each entry of the scope came to, and for the default, where there is one,
/// whether the scope holds it.
#[derive(Debug)]
pub struct Readings {
    pub bind: bool,
    pub scope: Vec<Result<(), String>>,
    pub default: Option<Result<bool, String>>,
}

/// The first entry of the scope, from `i` on, that does not read.
pub open spec fn bad_entry(scope: Seq<Result<(), String>>, i: int) -> Option<Seq<char>>
    decreases scope.len() - i,
{
    if i < 0 || i >= scope.len() {
        None
    } else {
        match scope[i] {
            Err(e) => Some(e@),
            Ok(_) => bad_entry(scope, i + 1),
        }
    }
}

/// Why the default is refused, if it is.
pub open spec fn bad_default(config: WebrtcConfig, readings: Readings) -> Option<Seq<char>> {
    match (config.default, readings.default) {
        (Some(d), Some(Err(e))) => Some("webrtc.default: "@ + e@),
        (Some(d), Some(Ok(inside))) => if inside {
            None
        } else {
            Some(
                "webrtc.default '"@ + d@
                    + "' is not in webrtc.scope; a browser sent there would be refused"@,
            )
        },
        _ => None,
    }
}

/// Why a block is refused, if it is.
pub open spec fn refused(config: WebrtcConfig, readings: Readings) -> Option<Seq<char>> {
    if !readings.bind {
        Some("webrtc.bind '"@ + config.bind@ + "' is not ip:port"@)
    } else {
        match bad_entry(readings.scope@, 0) {
            Some(e) => Some("webrtc."@ + e),
            None => match bad_default(config, readings) {
                Some(why) => Some(why),
                None => if config.stun_refresh_s == 0 {
                    Some("webrtc.stun_refresh_s must be at least 1"@)
                } else if config.max_sessions == 0 || config.max_streams_per_session == 0 {
                    Some(
                        "webrtc: max_sessions and max_streams_per_session must be at least 1"@,
                    )
                } else {
                    None
                },
            },
        }
    }
}

/// Checks the block before anything is bound.
pub fn host_config(config: &WebrtcConfig, readings: &Readings) -> (r: Result<(), String>)
    requires
        config.default is Some <==> readings.default is Some,
    ensures
        match refused(*config, *readings) {
            Some(what) => r matches Err(why) && why@ == what,
            None => r is Ok,
        },
{
    if !readings.bind {
        return Err(text::join3("webrtc.bind '", config.bind.as_str(), "' is not ip:port"));
    }
    let mut i: usize = 0;
    while i < readings.scope.len()
        invariant
            i <= readings.scope.len(),
            readings.bind,
            bad_entry(readings.scope@, 0) == bad_entry(readings.scope@, i as int),
        decreases readings.scope.len() - i,
    {
        if let Err(e) = &readings.scope[i] {
            return Err(text::join2("webrtc.", e.as_str()));
        }
        i = i + 1;
    }
    if let Some(d) = &config.default {
        match &readings.default {
            Some(Err(e)) => return Err(text::join2("webrtc.default: ", e.as_str())),
            Some(Ok(inside)) => if !*inside {
                return Err(
                    text::join3(
                        "webrtc.default '",
                        d.as_str(),
                        "' is not in webrtc.scope; a browser sent there would be refused",
                    ),
                );
            },
            None => {},
        }
    }
    if config.stun_refresh_s == 0 {
        return Err("webrtc.stun_refresh_s must be at least 1".to_owned());
    }
    if config.max_sessions == 0 || config.max_streams_per_session == 0 {
        return Err(
            "webrtc: max_sessions and max_streams_per_session must be at least 1".to_owned(),
        );
    }
    Ok(())
}

// ---- commands ----

/// What a program tells the host.
#[derive(Debug, PartialEq, Eq)]
pub enum Command {
    Open { peer: String, rtc: String },
    Close { peer: String },
}

/// What a command is.
#[verifier::ext_equal]
pub enum CommandView {
    Open { peer: Seq<char>, rtc: Seq<char> },
    Close { peer: Seq<char> },
}

impl Command {
    /// The command, as mathematics.
    pub open spec fn view(&self) -> CommandView {
        match self {
            Command::Open { peer, rtc } => CommandView::Open { peer: peer@, rtc: rtc@ },
            Command::Close { peer } => CommandView::Close { peer: peer@ },
        }
    }
}

/// The member `key` of a message, where it is text.
pub open spec fn text_in(m: Msg, key: Seq<char>) -> Option<Seq<char>> {
    msg::as_text(msg::member(m, key))
}

/// The peer that a command names.
pub open spec fn peer_in(m: Msg) -> Result<Seq<char>, Seq<char>> {
    match text_in(m, "peer"@) {
        None => Err("a command needs `peer`, a string"@),
        Some(p) => if p.len() == 0 || vstd::utf8::encode_utf8(p).len() > MAX_PEER {
            Err("`peer` must be 1..=64 bytes"@)
        } else {
            Ok(p)
        },
    }
}

/// The command that a message holds, or what is wrong with it.
pub open spec fn command_in(m: Msg) -> Result<CommandView, Seq<char>> {
    match text_in(m, "command"@) {
        None => Err("a command needs `command`, a string"@),
        Some(c) => if c == "open"@ {
            match peer_in(m) {
                Err(why) => Err(why),
                Ok(peer) => match text_in(m, "rtc"@) {
                    None => Err("`open` needs `rtc`, the browser's presence record"@),
                    Some(rtc) => Ok(CommandView::Open { peer, rtc }),
                },
            }
        } else if c == "close"@ {
            match peer_in(m) {
                Err(why) => Err(why),
                Ok(peer) => Ok(CommandView::Close { peer }),
            }
        } else {
            Err("unknown command '"@ + c + "' (open, close)"@)
        },
    }
}

fn peer_of(v: &Datum) -> (r: Result<String, String>)
    ensures
        match peer_in(v@) {
            Ok(p) => r matches Ok(s) && s@ == p,
            Err(what) => r matches Err(why) && why@ == what,
        },
{
    match msg::words(msg::field(v, "peer")) {
        None => Err("a command needs `peer`, a string".to_owned()),
        Some(p) => {
            if p.as_str().is_empty() || p.as_str().as_bytes().len() > MAX_PEER {
                Err("`peer` must be 1..=64 bytes".to_owned())
            } else {
                Ok(p)
            }
        },
    }
}

/// Reads a command.
pub fn command_from(v: &Datum) -> (r: Result<Command, String>)
    ensures
        match command_in(v@) {
            Ok(c) => r matches Ok(d) && d@ == c,
            Err(what) => r matches Err(why) && why@ == what,
        },
{
    let name = match msg::words(msg::field(v, "command")) {
        None => return Err("a command needs `command`, a string".to_owned()),
        Some(c) => c,
    };
    if text::same(name.as_str(), "open") {
        let peer = match peer_of(v) {
            Ok(p) => p,
            Err(why) => return Err(why),
        };
        match msg::words(msg::field(v, "rtc")) {
            None => Err("`open` needs `rtc`, the browser's presence record".to_owned()),
            Some(rtc) => Ok(Command::Open { peer, rtc }),
        }
    } else if text::same(name.as_str(), "close") {
        match peer_of(v) {
            Ok(peer) => Ok(Command::Close { peer }),
            Err(why) => Err(why),
        }
    } else {
        Err(text::join3("unknown command '", name.as_str(), "' (open, close)"))
    }
}

/// Reads the bytes of a command.
pub fn collect(raw: &[u8]) -> (r: Result<Command, String>)
    ensures
        match msg::unpacked(raw@) {
            None => r matches Err(why) && why@ == "a command that is not msgpack: "@
                + msg::unpack_error(raw@),
            Some(m) => match command_in(m) {
                Ok(c) => r matches Ok(d) && d@ == c,
                Err(what) => r matches Err(why) && why@ == what,
            },
        },
{
    match msg::decode(raw) {
        Ok(v) => command_from(&v),
        Err(e) => Err(text::join2("a command that is not msgpack: ", e.as_str())),
    }
}

// ---- reports ----

/// What the host tells the program.
#[derive(Debug)]
pub enum Event {
    /// The host's own presence record.
    Record { rtc: String },
    /// A session came up, or ended.
    Session { peer: String, connected: bool, reason: Option<String> },
    /// A stream of a session came up, or ended.
    Stream {
        peer: String,
        stream: u16,
        host: String,
        port: u16,
        open: bool,
        reason: Option<String>,
        bytes_up: u64,
        bytes_down: u64,
    },
}

/// A text, or nothing.
pub open spec fn reason_msg(s: Option<String>) -> Msg {
    match s {
        Some(s) => Msg::Text(s@),
        None => Msg::Nil,
    }
}

fn reason_value(s: &Option<String>) -> (r: Datum)
    ensures
        r@ == reason_msg(*s),
{
    match s {
        Some(s) => msg::say(s.as_str()),
        None => Datum::Nil,
    }
}

/// The entries of a report.
pub open spec fn report_entries(e: Event) -> Seq<(Msg, Msg)> {
    match e {
        Event::Record { rtc } => seq![
            (Msg::Text("event"@), Msg::Text("webrtc_record"@)),
            (Msg::Text("rtc"@), Msg::Text(rtc@)),
        ],
        Event::Session { peer, connected, reason } => seq![
            (Msg::Text("event"@), Msg::Text("webrtc_session"@)),
            (Msg::Text("peer"@), Msg::Text(peer@)),
            (
                Msg::Text("state"@),
                Msg::Text(
                    if connected {
                        "connected"@
                    } else {
                        "closed"@
                    },
                ),
            ),
            (Msg::Text("reason"@), reason_msg(reason)),
        ],
        Event::Stream { peer, stream, host, port, open, reason, bytes_up, bytes_down } => seq![
            (Msg::Text("event"@), Msg::Text("webrtc_stream"@)),
            (Msg::Text("peer"@), Msg::Text(peer@)),
            (Msg::Text("stream"@), Msg::Int(stream as int)),
            (Msg::Text("host"@), Msg::Text(host@)),
            (Msg::Text("port"@), Msg::Int(port as int)),
            (
                Msg::Text("state"@),
                Msg::Text(
                    if open {
                        "open"@
                    } else {
                        "closed"@
                    },
                ),
            ),
            (Msg::Text("reason"@), reason_msg(reason)),
            (Msg::Text("bytes_up"@), Msg::Int(bytes_up as int)),
            (Msg::Text("bytes_down"@), Msg::Int(bytes_down as int)),
        ],
    }
}

/// A report as a value.
pub fn report_value(e: &Event) -> (r: Datum)
    ensures
        r@ == Msg::Table(report_entries(*e)),
{
    let mut es: Vec<(Datum, Datum)> = Vec::new();
    assert(msg::entries(es@) =~= Seq::empty());
    match e {
        Event::Record { rtc } => {
            msg::put(&mut es, "event", msg::say("webrtc_record"));
            msg::put(&mut es, "rtc", msg::say(rtc.as_str()));
        },
        Event::Session { peer, connected, reason } => {
            let state: &str = if *connected {
                "connected"
            } else {
                "closed"
            };
            msg::put(&mut es, "event", msg::say("webrtc_session"));
            msg::put(&mut es, "peer", msg::say(peer.as_str()));
            msg::put(&mut es, "state", msg::say(state));
            msg::put(&mut es, "reason", reason_value(reason));
        },
        Event::Stream { peer, stream, host, port, open, reason, bytes_up, bytes_down } => {
            let state: &str = if *open {
                "open"
            } else {
                "closed"
            };
            msg::put(&mut es, "event", msg::say("webrtc_stream"));
            msg::put(&mut es, "peer", msg::say(peer.as_str()));
            msg::put(&mut es, "stream", Datum::Uint(*stream as u64));
            msg::put(&mut es, "host", msg::say(host.as_str()));
            msg::put(&mut es, "port", Datum::Uint(*port as u64));
            msg::put(&mut es, "state", msg::say(state));
            msg::put(&mut es, "reason", reason_value(reason));
            msg::put(&mut es, "bytes_up", Datum::Uint(*bytes_up));
            msg::put(&mut es, "bytes_down", Datum::Uint(*bytes_down));
        },
    }
    assert(msg::entries(es@) =~= report_entries(*e));
    msg::table(es)
}

/// The message of a report.
pub fn report_message(e: &Event) -> (r: Vec<u8>)
    ensures
        r@ == msg::packed(Msg::Table(report_entries(*e))),
{
    let v = report_value(e);
    proof {
        let es = report_entries(*e);
        assert forall|i: int| 0 <= i < es.len() implies msg::plain((#[trigger] es[i]).0, 7)
            && msg::plain(es[i].1, 7) by {}
        msg::plain_table(es, 7);
    }
    msg::encode(&v)
}

/// The reports that wait for their queue, the oldest first, and whether one
/// has been dropped.
#[derive(Debug)]
pub struct Held {
    pub held: VecDeque<Vec<u8>>,
    pub dropped: bool,
}

impl Held {
    /// No more wait than are held.
    pub open spec fn wf(&self) -> bool {
        self.held@.len() <= HELD_MAX
    }

    /// Nothing waits.
    pub fn new() -> (r: Held)
        ensures
            r.wf(),
            r.held@.len() == 0,
            !r.dropped,
    {
        Held { held: VecDeque::new(), dropped: false }
    }

    /// Holds a report behind the others. Where there is no room the oldest
    /// is dropped, and the first time that happens it is said.
    pub fn hold(&mut self, message: Vec<u8>, queue: &str) -> (r: Option<String>)
        requires
            old(self).wf(),
        ensures
            final(self).wf(),
            ({
                let full = old(self).held@.len() >= HELD_MAX;
                &&& final(self).held@ == (if full {
                    old(self).held@.subrange(1, old(self).held@.len() as int)
                } else {
                    old(self).held@
                }).push(message)
                &&& final(self).dropped == (old(self).dropped || full)
                &&& if full && !old(self).dropped {
                    r matches Some(line) && line@ == "drt start: webrtc: queue '"@ + queue@
                        + "' is not taking reports; dropping the oldest"@
                } else {
                    r is None
                }
            }),
    {
        let mut line: Option<String> = None;
        if self.held.len() >= HELD_MAX {
            let _ = self.held.pop_front();
            if !self.dropped {
                self.dropped = true;
                line =
                Some(
                    text::join3(
                        "drt start: webrtc: queue '",
                        queue,
                        "' is not taking reports; dropping the oldest",
                    ),
                );
            }
        }
        self.held.push_back(message);
        line
    }

    /// The report that goes next.
    pub fn front(&self) -> (r: Option<&Vec<u8>>)
        ensures
            match r {
                Some(m) => self.held@.len() > 0 && *m == self.held@[0],
                None => self.held@.len() == 0,
            },
    {
        if self.held.len() == 0 {
            None
        } else {
            Some(&self.held[0])
        }
    }

    /// Lets go of the report that went.
    pub fn sent(&mut self)
        requires
            old(self).wf(),
            old(self).held@.len() > 0,
        ensures
            final(self).wf(),
            final(self).dropped == old(self).dropped,
            final(self).held@ == old(self).held@.subrange(1, old(self).held@.len() as int),
    {
        let _ = self.held.pop_front();
    }
}

// ---- laws ----

/// A peer that a command names is a name that can be kept: never empty, and
/// never longer than the bound.
pub proof fn a_peer_is_bounded(m: Msg)
    ensures
        command_in(m) matches Ok(c) ==> {
            let peer = match c {
                CommandView::Open { peer, .. } => peer,
                CommandView::Close { peer } => peer,
            };
            0 < peer.len() && vstd::utf8::encode_utf8(peer).len() <= MAX_PEER
        },
{
}

proof fn bad_entry_is_first(scope: Seq<Result<(), String>>, from: int)
    requires
        0 <= from <= scope.len(),
    ensures
        bad_entry(scope, from) is None <==> forall|k: int|
            from <= k < scope.len() ==> (#[trigger] scope[k]) is Ok,
        forall|i: int|
            from <= i < scope.len() && (#[trigger] scope[i]) is Err && (forall|k: int|
                from <= k < i ==> (#[trigger] scope[k]) is Ok) ==> bad_entry(scope, from) == Some(
                scope[i]->Err_0@,
            ),
    decreases scope.len() - from,
{
    if from < scope.len() && scope[from] is Ok {
        bad_entry_is_first(scope, from + 1);
    }
}

/// A block is taken exactly where its address and every entry of its scope
/// read, its default lies in the scope, and each of its bounds is at least
/// one.
pub proof fn what_a_block_has_to_hold(config: WebrtcConfig, readings: Readings)
    requires
        config.default is Some <==> readings.default is Some,
    ensures
        refused(config, readings) is None <==> {
            &&& readings.bind
            &&& forall|k: int|
                0 <= k < readings.scope@.len() ==> (#[trigger] readings.scope@[k]) is Ok
            &&& config.default is Some ==> readings.default->0 == Ok::<bool, String>(true)
            &&& config.stun_refresh_s >= 1
            &&& config.max_sessions >= 1
            &&& config.max_streams_per_session >= 1
        },
        !readings.bind ==> (refused(config, readings) matches Some(why) && text::contains(
            why,
            config.bind@,
        )),
        forall|i: int|
            readings.bind && 0 <= i < readings.scope@.len() && (#[trigger] readings.scope@[i]) is Err
                && (forall|k: int| 0 <= k < i ==> (#[trigger] readings.scope@[k]) is Ok)
                ==> refused(config, readings) == Some(
                "webrtc."@ + readings.scope@[i]->Err_0@,
            ),
{
    if !readings.bind {
        let why = refused(config, readings)->0;
        assert(why.subrange("webrtc.bind '"@.len() as int, ("webrtc.bind '"@.len()
            + config.bind@.len()) as int) =~= config.bind@);
        assert(text::stands_at(why, config.bind@, "webrtc.bind '"@.len() as int));
    }
    bad_entry_is_first(readings.scope@, 0);
}

/// A command is read as it is written: it opens a session to a peer with the
/// browser's record, or closes the one to a peer, and anything else is none.
pub proof fn a_command_is_read_as_written(m: Msg, peer: Seq<char>, rtc: Seq<char>)
    requires
        msg::member(m, "peer"@) == Some(Msg::Text(peer)),
        peer.len() > 0,
        vstd::utf8::encode_utf8(peer).len() <= 64,
    ensures
        msg::member(m, "command"@) == Some(Msg::Text("open"@)) && msg::member(m, "rtc"@) == Some(
            Msg::Text(rtc),
        ) ==> command_in(m) == Ok::<CommandView, Seq<char>>(CommandView::Open { peer, rtc }),
        msg::member(m, "command"@) == Some(Msg::Text("close"@)) ==> command_in(m) == Ok::<
            CommandView,
            Seq<char>,
        >(CommandView::Close { peer }),
        command_in(m) matches Ok(CommandView::Open { rtc: r, .. }) ==> msg::member(m, "command"@)
            == Some(Msg::Text("open"@)) && msg::member(m, "rtc"@) == Some(Msg::Text(r)),
        command_in(m) matches Ok(CommandView::Close { .. }) ==> msg::member(m, "command"@) == Some(
            Msg::Text("close"@),
        ),
{
    reveal_strlit("open");
    reveal_strlit("close");
    assert("open"@.len() != "close"@.len());
}

/// A peer is named by a text of one to sixty-four bytes.
pub proof fn a_peer_is_named(m: Msg)
    ensures
        peer_in(m) matches Ok(p) ==> msg::member(m, "peer"@) == Some(Msg::Text(p)) && p.len() > 0
            && vstd::utf8::encode_utf8(p).len() <= 64,
        peer_in(m) is Ok <==> (msg::member(m, "peer"@) matches Some(Msg::Text(p)) && p.len() > 0
            && vstd::utf8::encode_utf8(p).len() <= 64),
        command_in(m) is Ok ==> peer_in(m) is Ok,
{
}

/// A report holds what it tells, each under its own name.
pub proof fn a_report_holds_what_it_tells(e: Event)
    ensures
        ({
            let es = report_entries(e);
            match e {
                Event::Record { rtc } => {
                    &&& es.contains((Msg::Text("event"@), Msg::Text("webrtc_record"@)))
                    &&& es.contains((Msg::Text("rtc"@), Msg::Text(rtc@)))
                    &&& es.len() == 2
                },
                Event::Session { peer, connected, reason } => {
                    &&& es.contains((Msg::Text("event"@), Msg::Text("webrtc_session"@)))
                    &&& es.contains((Msg::Text("peer"@), Msg::Text(peer@)))
                    &&& connected ==> es.contains((Msg::Text("state"@), Msg::Text("connected"@)))
                    &&& !connected ==> es.contains((Msg::Text("state"@), Msg::Text("closed"@)))
                    &&& reason matches Some(s) ==> es.contains(
                        (Msg::Text("reason"@), Msg::Text(s@)),
                    )
                    &&& reason is None ==> es.contains((Msg::Text("reason"@), Msg::Nil))
                    &&& es.len() == 4
                },
                Event::Stream { peer, stream, host, port, open, reason, bytes_up, bytes_down } => {
                    &&& es.contains((Msg::Text("event"@), Msg::Text("webrtc_stream"@)))
                    &&& es.contains((Msg::Text("peer"@), Msg::Text(peer@)))
                    &&& es.contains((Msg::Text("stream"@), Msg::Int(stream as int)))
                    &&& es.contains((Msg::Text("host"@), Msg::Text(host@)))
                    &&& es.contains((Msg::Text("port"@), Msg::Int(port as int)))
                    &&& open ==> es.contains((Msg::Text("state"@), Msg::Text("open"@)))
                    &&& !open ==> es.contains((Msg::Text("state"@), Msg::Text("closed"@)))
                    &&& reason matches Some(s) ==> es.contains(
                        (Msg::Text("reason"@), Msg::Text(s@)),
                    )
                    &&& reason is None ==> es.contains((Msg::Text("reason"@), Msg::Nil))
                    &&& es.contains((Msg::Text("bytes_up"@), Msg::Int(bytes_up as int)))
                    &&& es.contains((Msg::Text("bytes_down"@), Msg::Int(bytes_down as int)))
                    &&& es.len() == 9
                },
            }
        }),
{
    let es = report_entries(e);
    assert(es[0] == es[0] && es[1] == es[1]);
    match e {
        Event::Record { .. } => {},
        Event::Session { .. } => {
            assert(es[2] == es[2] && es[3] == es[3]);
        },
        Event::Stream { .. } => {
            assert(es[2] == es[2] && es[3] == es[3] && es[4] == es[4] && es[5] == es[5]);
            assert(es[6] == es[6] && es[7] == es[7] && es[8] == es[8]);
        },
    }
}

/// At most 4096 reports wait for their queue.
pub proof fn so_many_reports_are_held(h: &Held)
    ensures
        h.wf() <==> h.held@.len() <= 4096,
{
}

/// A message that is no command is refused for what it lacks, and a block whose
/// default lies outside its scope for that default.
pub proof fn what_is_no_command_says_why(
    m: Msg,
    c: Seq<char>,
    peer: Seq<char>,
    config: WebrtcConfig,
    readings: Readings,
)
    ensures
        !(msg::member(m, "command"@) matches Some(Msg::Text(_))) ==> command_in(m) == Err::<
            CommandView,
            Seq<char>,
        >("a command needs `command`, a string"@),
        msg::member(m, "command"@) == Some(Msg::Text(c)) && c != "open"@ && c != "close"@
            ==> command_in(m) == Err::<CommandView, Seq<char>>(
            "unknown command '"@ + c + "' (open, close)"@,
        ),
        !(msg::member(m, "peer"@) matches Some(Msg::Text(_))) ==> peer_in(m) == Err::<
            Seq<char>,
            Seq<char>,
        >("a command needs `peer`, a string"@),
        msg::member(m, "peer"@) == Some(Msg::Text(peer)) && (peer.len() == 0
            || vstd::utf8::encode_utf8(peer).len() > 64) ==> peer_in(m) == Err::<
            Seq<char>,
            Seq<char>,
        >("`peer` must be 1..=64 bytes"@),
        msg::member(m, "command"@) == Some(Msg::Text("open"@)) && peer_in(m) is Ok && !(msg::member(
            m,
            "rtc"@,
        ) matches Some(Msg::Text(_))) ==> command_in(m) == Err::<CommandView, Seq<char>>(
            "`open` needs `rtc`, the browser's presence record"@,
        ),
        config.default is Some && readings.default == Some(Ok::<bool, String>(false)) ==> bad_default(
            config,
            readings,
        ) == Some(
            "webrtc.default '"@ + config.default->0@
                + "' is not in webrtc.scope; a browser sent there would be refused"@,
        ),
        config.default is Some && readings.default is Some && readings.default->0 is Err
            ==> bad_default(config, readings) == Some(
            "webrtc.default: "@ + readings.default->0->Err_0@,
        ),
        config.default is Some && readings.default == Some(Ok::<bool, String>(true)) ==> bad_default(
            config,
            readings,
        ) is None,
{
}

} // verus!
