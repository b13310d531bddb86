//! The polled acceptor: every connection a small state machine, stepped from
//! the drive loop. The sockets are the caller's; it says what they did and
//! is told what to do next.

use crate::listen;
use crate::listen::{Ingress, ListenerRt, Outcome, Parsed};
use crate::msg;
use crate::text;
use std::collections::VecDeque;
use vstd::prelude::*;

verus! {

/// Where a connection stands.
#[derive(Debug)]
pub enum State {
    /// Its request is arriving.
    Reading { buf: Vec<u8>, headers_done: bool },
    /// Its request is with the program.
    Waiting { token: u32 },
    /// Its answer is leaving; `off` bytes of it have left.
    Writing { out: Vec<u8>, off: usize },
}

/// One connection.
#[derive(Debug)]
pub struct Conn {
    pub listener: usize,
    /// When its stage began, in nanoseconds; each stage gets the deadline.
    pub since: u128,
    /// Whether it holds one of its listener's places. A connection refused
    /// at the cap is written to and not counted.
    pub counted: bool,
    pub state: State,
}

/// The listeners and the connections on them.
#[derive(Debug)]
pub struct Bound {
    pub listeners: Vec<ListenerRt>,
    pub conns: Vec<Conn>,
    pub ready: VecDeque<Ingress>,
    pub tokens: u32,
}

/// What a state is.
#[verifier::ext_equal]
pub enum StateView {
    Reading { buf: Seq<u8>, headers_done: bool },
    Waiting { token: u32 },
    Writing { out: Seq<u8>, off: nat },
}

/// What a connection is.
#[verifier::ext_equal]
pub struct ConnView {
    pub listener: nat,
    pub since: nat,
    pub counted: bool,
    pub state: StateView,
}

/// What a parsed request is.
#[verifier::ext_equal]
pub struct IngressView {
    pub listener: nat,
    pub token: u32,
    pub message: Seq<u8>,
}

/// The view of a parsed request.
pub open spec fn ingress_view(i: Ingress) -> IngressView {
    IngressView { listener: i.listener as nat, token: i.token, message: i.message@ }
}

impl State {
    pub open spec fn view(&self) -> StateView {
        match self {
            State::Reading { buf, headers_done } => StateView::Reading {
                buf: buf@,
                headers_done: *headers_done,
            },
            State::Waiting { token } => StateView::Waiting { token: *token },
            State::Writing { out, off } => StateView::Writing { out: out@, off: *off as nat },
        }
    }
}

impl Conn {
    pub open spec fn view(&self) -> ConnView {
        ConnView {
            listener: self.listener as nat,
            since: self.since as nat,
            counted: self.counted,
            state: self.state@,
        }
    }
}

/// What the caller does next with a connection.
#[derive(Clone, Copy, Debug, PartialEq, Eq, Structural)]
pub enum Next {
    /// Leave it for the next pass.
    Keep,
    /// Close it and forget it.
    Drop,
    /// Read from it and say what came.
    Read,
    /// Write what is left and say how much left.
    Write,
}

/// What came of a read.
#[derive(Debug)]
pub enum Heard {
    /// The peer sent no more.
    Closed,
    /// These bytes.
    Bytes(Vec<u8>),
    /// Nothing yet.
    Blocked,
    /// The connection broke.
    Failed,
}

/// What came of a write.
#[derive(Debug)]
pub enum Wrote {
    /// So many bytes left.
    Took(usize),
    /// Nothing yet.
    Blocked,
    /// The connection broke.
    Failed,
}

/// The connection in a new state, its stage beginning at `at`.
pub open spec fn turned(c: ConnView, state: StateView, at: nat) -> ConnView {
    ConnView { since: at, state, ..c }
}

/// The state of a connection that is owed these bytes.
pub open spec fn owed(out: Seq<u8>) -> StateView {
    StateView::Writing { out, off: 0 }
}

/// The text that refuses a connection cut short.
pub open spec fn cut_short_text(headers_done: bool) -> Seq<char> {
    if headers_done {
        "the connection went away mid-body\n"@
    } else {
        "unparseable request\n"@
    }
}

/// Whether a stage has taken longer than the deadline.
pub open spec fn is_late(since: nat, deadline_ms: u64, now: nat) -> bool {
    now - since > deadline_ms * 1_000_000
}

/// The connection in a pass that began at `now`, with a new stage beginning
/// at `at`, and what to do with it.
pub open spec fn looked(c: ConnView, deadline_ms: u64, now: nat, at: nat) -> (ConnView, Next) {
    let late = is_late(c.since, deadline_ms, now);
    match c.state {
        StateView::Reading { buf, headers_done } => if late {
            (turned(c, owed(listen::refusal(400, cut_short_text(headers_done))), at), Next::Keep)
        } else {
            (c, Next::Read)
        },
        StateView::Waiting { token } => if late {
            (turned(c, owed(listen::refusal(504, listen::LATE_TEXT@)), at), Next::Keep)
        } else {
            (c, Next::Keep)
        },
        StateView::Writing { out, off } => if late || off >= out.len() {
            (c, Next::Drop)
        } else {
            (c, Next::Write)
        },
    }
}

/// The connection after a write, and what to do with it.
pub open spec fn written(c: ConnView, w: Wrote) -> (ConnView, Next) {
    match (c.state, w) {
        (StateView::Writing { out, off }, Wrote::Took(n)) => {
            let now = if off + n < out.len() {
                off + n as nat
            } else {
                out.len()
            };
            let moved = ConnView { state: StateView::Writing { out, off: now }, ..c };
            (
                moved,
                if n == 0 || now >= out.len() {
                    Next::Drop
                } else {
                    Next::Write
                },
            )
        },
        (_, Wrote::Blocked) => (c, Next::Keep),
        _ => (c, Next::Drop),
    }
}

/// The connection after a read at `at`, what to do with it, and the request
/// that became whole.
pub open spec fn heard_of(
    c: ConnView,
    h: Heard,
    allow: Seq<Seq<char>>,
    max_body: nat,
    token: u32,
    at: nat,
) -> (ConnView, Next, Option<msg::Msg>) {
    match (c.state, h) {
        (StateView::Reading { buf, headers_done }, Heard::Closed) => (
            turned(c, owed(listen::refusal(400, cut_short_text(headers_done))), at),
            Next::Keep,
            None,
        ),
        (StateView::Reading { buf, headers_done }, Heard::Bytes(b)) => {
            let all = buf + b@;
            match listen::judged(listen::head_in(all), all, allow, max_body, token) {
                listen::Judged::Refused((status, why)) => (
                    turned(c, owed(listen::refusal(status, why)), at),
                    Next::Keep,
                    None,
                ),
                listen::Judged::Incomplete { headers_done: done } => (
                    ConnView {
                        state: StateView::Reading { buf: all, headers_done: done },
                        ..c
                    },
                    Next::Read,
                    None,
                ),
                listen::Judged::Complete(m) => (
                    turned(c, StateView::Waiting { token }, at),
                    Next::Keep,
                    Some(m),
                ),
            }
        },
        (_, Heard::Failed) => (c, Next::Drop, None),
        _ => (c, Next::Keep, None),
    }
}

/// How many of the connections hold a place of listener `idx`.
pub open spec fn held(cs: Seq<ConnView>, idx: nat) -> nat
    decreases cs.len(),
{
    if cs.len() == 0 {
        0
    } else {
        held(cs.drop_last(), idx) + (if cs.last().counted && cs.last().listener == idx {
            1nat
        } else {
            0nat
        })
    }
}

/// The first connection, from `i` on, that waits under a token.
pub open spec fn waiter(cs: Seq<ConnView>, token: u32, i: int) -> Option<int>
    decreases cs.len() - i,
{
    if i < 0 || i >= cs.len() {
        None
    } else if cs[i].state == (StateView::Waiting { token }) {
        Some(i)
    } else {
        waiter(cs, token, i + 1)
    }
}

proof fn held_of_update(cs: Seq<ConnView>, i: int, c: ConnView, idx: nat)
    requires
        0 <= i < cs.len(),
        c.listener == cs[i].listener,
        c.counted == cs[i].counted,
    ensures
        held(cs.update(i, c), idx) == held(cs, idx),
    decreases cs.len(),
{
    let us = cs.update(i, c);
    if i == cs.len() - 1 {
        assert(us.drop_last() =~= cs.drop_last());
    } else {
        assert(us.drop_last() =~= cs.drop_last().update(i, c));
        held_of_update(cs.drop_last(), i, c, idx);
    }
}

proof fn held_of_remove(cs: Seq<ConnView>, i: int, idx: nat)
    requires
        0 <= i < cs.len(),
    ensures
        held(cs.remove(i), idx) <= held(cs, idx),
    decreases cs.len(),
{
    let us = cs.remove(i);
    if i == cs.len() - 1 {
        assert(us =~= cs.drop_last());
    } else {
        assert(us.drop_last() =~= cs.drop_last().remove(i));
        held_of_remove(cs.drop_last(), i, idx);
    }
}

impl Bound {
    /// The connections, as mathematics.
    pub open spec fn conn_views(&self) -> Seq<ConnView> {
        Seq::new(self.conns@.len(), |i: int| self.conns@[i]@)
    }

    /// The requests that wait to be taken, as mathematics.
    pub open spec fn ready_views(&self) -> Seq<IngressView> {
        Seq::new(self.ready@.len(), |i: int| ingress_view(self.ready@[i]))
    }

    /// Every connection is on a listener, no more bytes have left than there
    /// are, and no listener holds more connections than its cap.
    pub open spec fn wf(&self) -> bool {
        &&& forall|i: int|
            0 <= i < self.conns@.len() ==> (#[trigger] self.conns@[i]).listener
                < self.listeners@.len()
        &&& forall|i: int|
            0 <= i < self.conns@.len() ==> ((#[trigger] self.conns@[i]).state matches State::Writing {
                out,
                off,
            } ==> off <= out@.len())
        &&& forall|k: int|
            0 <= k < self.listeners@.len() ==> held(self.conn_views(), k as nat)
                <= (#[trigger] self.listeners@[k]).max_conns
    }

    /// Only the connections have changed, and only connection `i` of them.
    pub open spec fn only_conn(&self, before: &Bound, i: int, c: ConnView) -> bool {
        &&& self.listeners == before.listeners
        &&& self.conn_views() == before.conn_views().update(i, c)
    }

    /// The listeners, with no connection yet.
    pub fn new(listeners: Vec<ListenerRt>) -> (r: Bound)
        ensures
            r.wf(),
            r.listeners == listeners,
            r.conns@.len() == 0,
            r.ready@.len() == 0,
            r.tokens == 1,
    {
        let r = Bound { listeners, conns: Vec::new(), ready: VecDeque::new(), tokens: 1 };
        assert forall|k: int| 0 <= k < r.listeners@.len() implies held(r.conn_views(), k as nat)
            <= (#[trigger] r.listeners@[k]).max_conns by {
            assert(r.conn_views().len() == 0);
        }
        r
    }

    fn holding(&self, idx: usize) -> (r: usize)
        ensures
            r == held(self.conn_views(), idx as nat),
    {
        let ghost cs = self.conn_views();
        let mut n: usize = 0;
        let mut i: usize = 0;
        while i < self.conns.len()
            invariant
                i <= self.conns.len(),
                cs == self.conn_views(),
                n <= i,
                n == held(cs.subrange(0, i as int), idx as nat),
            decreases self.conns.len() - i,
        {
            let ghost now = cs.subrange(0, i + 1);
            assert(now.drop_last() == cs.subrange(0, i as int));
            assert(now.last() == self.conns@[i as int]@);
            if self.conns[i].counted && self.conns[i].listener == idx {
                n = n + 1;
            }
            i = i + 1;
        }
        assert(cs.subrange(0, cs.len() as int) == cs);
        n
    }

    /// A connection has come in on listener `idx`: it is read from where the
    /// listener has a place left, and refused where it has none.
    pub fn accept(&mut self, idx: usize, now: u128)
        requires
            old(self).wf(),
            idx < old(self).listeners@.len(),
        ensures
            final(self).wf(),
            final(self).listeners == old(self).listeners,
            final(self).ready == old(self).ready,
            final(self).tokens == old(self).tokens,
            final(self).conn_views() == old(self).conn_views().push(
                ({
                    let full = held(old(self).conn_views(), idx as nat) >= old(
                        self,
                    ).listeners@[idx as int].max_conns;
                    ConnView {
                        listener: idx as nat,
                        since: now as nat,
                        counted: !full,
                        state: if full {
                            owed(listen::refusal(503, listen::CAP_TEXT@))
                        } else {
                            StateView::Reading { buf: Seq::empty(), headers_done: false }
                        },
                    }
                }),
            ),
    {
        let ghost before = self.conn_views();
        let held_now: usize = self.holding(idx);
        let full: bool = held_now >= self.listeners[idx].max_conns;
        let state = if full {
            State::Writing { out: listen::refusal_bytes(503, listen::CAP_TEXT), off: 0 }
        } else {
            State::Reading { buf: Vec::new(), headers_done: false }
        };
        let conn = Conn { listener: idx, since: now, counted: !full, state };
        let ghost c = conn@;
        self.conns.push(conn);
        assert(self.conn_views() =~= before.push(c));
        assert forall|k: int| 0 <= k < self.listeners@.len() implies held(
            self.conn_views(),
            k as nat,
        ) <= (#[trigger] self.listeners@[k]).max_conns by {
            assert(self.conn_views().drop_last() =~= before);
        }
    }

    fn set(&mut self, i: usize, conn: Conn)
        requires
            old(self).wf(),
            i < old(self).conns@.len(),
            conn.listener == old(self).conns@[i as int].listener,
            conn.counted == old(self).conns@[i as int].counted,
            conn.state matches State::Writing { out, off } ==> off <= out@.len(),
        ensures
            final(self).wf(),
            final(self).only_conn(old(self), i as int, conn@),
            final(self).ready == old(self).ready,
            final(self).tokens == old(self).tokens,
    {
        let ghost before = self.conn_views();
        self.conns[i] = conn;
        assert(self.conn_views() =~= before.update(i as int, conn@));
        assert forall|k: int| 0 <= k < self.listeners@.len() implies held(
            self.conn_views(),
            k as nat,
        ) <= (#[trigger] self.listeners@[k]).max_conns by {
            held_of_update(before, i as int, conn@, k as nat);
        }
    }

    fn turn(&mut self, i: usize, state: State, at: u128)
        requires
            old(self).wf(),
            i < old(self).conns@.len(),
            state matches State::Writing { out, off } ==> off <= out@.len(),
        ensures
            final(self).wf(),
            final(self).only_conn(
                old(self),
                i as int,
                turned(old(self).conn_views()[i as int], state@, at as nat),
            ),
            final(self).ready == old(self).ready,
            final(self).tokens == old(self).tokens,
    {
        let listener: usize = self.conns[i].listener;
        let counted: bool = self.conns[i].counted;
        self.set(i, Conn { listener, since: at, counted, state });
    }

    fn late(&self, i: usize, now: u128) -> (r: bool)
        requires
            self.wf(),
            i < self.conns@.len(),
        ensures
            r == is_late(
                self.conns@[i as int].since as nat,
                self.listeners@[self.conns@[i as int].listener as int].deadline_ms,
                now as nat,
            ),
    {
        let since: u128 = self.conns[i].since;
        let deadline: u128 = self.listeners[self.conns[i].listener].deadline_ms as u128 * 1_000_000;
        now > since && now - since > deadline
    }

    /// Comes to connection `i` in a pass that began at `now`: times out what
    /// is late, and says what to do with it.
    pub fn look(&mut self, i: usize, now: u128, at: u128) -> (next: Next)
        requires
            old(self).wf(),
            i < old(self).conns@.len(),
        ensures
            final(self).wf(),
            ({
                let c = old(self).conn_views()[i as int];
                let rt = old(self).listeners@[c.listener as int];
                let (after, what) = looked(c, rt.deadline_ms, now as nat, at as nat);
                &&& next == what
                &&& final(self).only_conn(old(self), i as int, after)
            }),
            final(self).ready == old(self).ready,
            final(self).tokens == old(self).tokens,
    {
        let ghost cs = self.conn_views();
        assert(cs.update(i as int, cs[i as int]) =~= cs);
        let late: bool = self.late(i, now);
        match &self.conns[i].state {
            State::Reading { buf: _, headers_done } => {
                let done: bool = *headers_done;
                if late {
                    let (status, why) = listen::cut_short(done);
                    self.turn(
                        i,
                        State::Writing { out: listen::refusal_bytes(status, why), off: 0 },
                        at,
                    );
                    Next::Keep
                } else {
                    Next::Read
                }
            },
            State::Waiting { .. } => {
                if late {
                    self.turn(
                        i,
                        State::Writing {
                            out: listen::refusal_bytes(504, listen::LATE_TEXT),
                            off: 0,
                        },
                        at,
                    );
                }
                Next::Keep
            },
            State::Writing { out, off } => {
                if late || *off >= out.len() {
                    Next::Drop
                } else {
                    Next::Write
                }
            },
        }
    }

    /// The bytes that connection `i` is still owed.
    pub fn owing(&self, i: usize) -> (r: Vec<u8>)
        requires
            self.wf(),
            i < self.conns@.len(),
        ensures
            r@ == (match self.conns@[i as int].state {
                State::Writing { out, off } => out@.subrange(off as int, out@.len() as int),
                _ => Seq::empty(),
            }),
    {
        match &self.conns[i].state {
            State::Writing { out, off } => vstd::slice::slice_to_vec(
                vstd::slice::slice_subrange(out.as_slice(), *off, out.len()),
            ),
            _ => Vec::new(),
        }
    }

    /// Takes in what a write to connection `i` came to.
    pub fn wrote(&mut self, i: usize, w: Wrote) -> (next: Next)
        requires
            old(self).wf(),
            i < old(self).conns@.len(),
        ensures
            final(self).wf(),
            ({
                let (after, what) = written(old(self).conn_views()[i as int], w);
                &&& next == what
                &&& final(self).only_conn(old(self), i as int, after)
            }),
            final(self).ready == old(self).ready,
            final(self).tokens == old(self).tokens,
    {
        let ghost cs = self.conn_views();
        assert(cs.update(i as int, cs[i as int]) =~= cs);
        match w {
            Wrote::Blocked => Next::Keep,
            Wrote::Failed => Next::Drop,
            Wrote::Took(n) => {
                match &self.conns[i].state {
                    State::Writing { out, off } => {
                        let len: usize = out.len();
                        let now: usize = if n < len - *off {
                            *off + n
                        } else {
                            len
                        };
                        let kept = vstd::slice::slice_to_vec(out.as_slice());
                        let listener: usize = self.conns[i].listener;
                        let counted: bool = self.conns[i].counted;
                        let since: u128 = self.conns[i].since;
                        self.set(
                            i,
                            Conn {
                                listener,
                                since,
                                counted,
                                state: State::Writing { out: kept, off: now },
                            },
                        );
                        if n == 0 || now >= len {
                            Next::Drop
                        } else {
                            Next::Write
                        }
                    },
                    _ => Next::Drop,
                }
            },
        }
    }

    /// Takes in what a read from connection `i` came to. A request that is
    /// now whole joins the others that wait to be taken.
    pub fn heard(&mut self, i: usize, h: Heard, at: u128) -> (next: Next)
        requires
            old(self).wf(),
            i < old(self).conns@.len(),
        ensures
            final(self).wf(),
            ({
                let c = old(self).conn_views()[i as int];
                let rt = old(self).listeners@[c.listener as int];
                let (after, what, whole) = heard_of(
                    c,
                    h,
                    text::texts(rt.hdr_allow@),
                    rt.max_body as nat,
                    old(self).tokens,
                    at as nat,
                );
                &&& next == what
                &&& final(self).only_conn(old(self), i as int, after)
                &&& match whole {
                    Some(m) => {
                        &&& final(self).ready_views() == old(self).ready_views().push(
                            IngressView {
                                listener: c.listener,
                                token: old(self).tokens,
                                message: msg::packed(m),
                            },
                        )
                        &&& final(self).tokens == (if old(self).tokens == u32::MAX {
                            0
                        } else {
                            old(self).tokens + 1
                        })
                    },
                    None => final(self).ready == old(self).ready && final(self).tokens == old(
                        self,
                    ).tokens,
                }
            }),
    {
        let ghost cs = self.conn_views();
        assert(cs.update(i as int, cs[i as int]) =~= cs);
        let listener: usize = self.conns[i].listener;
        match h {
            Heard::Blocked => Next::Keep,
            Heard::Failed => Next::Drop,
            Heard::Closed => {
                let done: bool = match &self.conns[i].state {
                    State::Reading { headers_done, .. } => *headers_done,
                    _ => return Next::Keep,
                };
                let (status, why) = listen::cut_short(done);
                self.turn(
                    i,
                    State::Writing { out: listen::refusal_bytes(status, why), off: 0 },
                    at,
                );
                Next::Keep
            },
            Heard::Bytes(b) => {
                let mut all: Vec<u8> = match &self.conns[i].state {
                    State::Reading { buf, .. } => vstd::slice::slice_to_vec(buf.as_slice()),
                    _ => return Next::Keep,
                };
                let ghost had = all@;
                all.extend_from_slice(b.as_slice());
                assert(all@ =~= had + b@);
                let mut tokens: u32 = self.tokens;
                match listen::parse_request(all.as_slice(), &self.listeners[listener], &mut tokens) {
                    Err((status, why)) => {
                        self.turn(
                            i,
                            State::Writing { out: listen::refusal_bytes(status, why), off: 0 },
                            at,
                        );
                        Next::Keep
                    },
                    Ok(Parsed::Incomplete { headers_done }) => {
                        let since: u128 = self.conns[i].since;
                        let counted: bool = self.conns[i].counted;
                        self.set(
                            i,
                            Conn {
                                listener,
                                since,
                                counted,
                                state: State::Reading { buf: all, headers_done },
                            },
                        );
                        Next::Read
                    },
                    Ok(Parsed::Complete { token, message }) => {
                        let ghost waiting = self.ready_views();
                        self.turn(i, State::Waiting { token }, at);
                        let ghost one = IngressView {
                            listener: listener as nat,
                            token,
                            message: message@,
                        };
                        self.tokens = tokens;
                        self.ready.push_back(Ingress { listener, token, message });
                        assert(self.ready_views() =~= waiting.push(one));
                        assert(self.conn_views() =~= cs.update(
                            i as int,
                            turned(
                                cs[i as int],
                                StateView::Waiting { token },
                                at as nat,
                            ),
                        ));
                        Next::Keep
                    },
                }
            },
        }
    }

    /// Forgets connection `i`; the others keep their order.
    pub fn forget(&mut self, i: usize)
        requires
            old(self).wf(),
            i < old(self).conns@.len(),
        ensures
            final(self).wf(),
            final(self).listeners == old(self).listeners,
            final(self).conn_views() == old(self).conn_views().remove(i as int),
            final(self).ready == old(self).ready,
            final(self).tokens == old(self).tokens,
    {
        let ghost before = self.conn_views();
        self.conns.remove(i);
        assert(self.conn_views() =~= before.remove(i as int));
        assert forall|k: int| 0 <= k < self.listeners@.len() implies held(
            self.conn_views(),
            k as nat,
        ) <= (#[trigger] self.listeners@[k]).max_conns by {
            held_of_remove(before, i as int, k as nat);
        }
    }

    /// Takes the request that has waited longest.
    pub fn take(&mut self) -> (r: Option<Ingress>)
        requires
            old(self).wf(),
        ensures
            final(self).wf(),
            final(self).listeners == old(self).listeners,
            final(self).conns == old(self).conns,
            final(self).tokens == old(self).tokens,
            match r {
                Some(one) => {
                    &&& old(self).ready@.len() > 0
                    &&& one == old(self).ready@[0]
                    &&& final(self).ready@ == old(self).ready@.subrange(
                        1,
                        old(self).ready@.len() as int,
                    )
                },
                None => old(self).ready@.len() == 0 && final(self).ready@ == old(self).ready@,
            },
    {
        let ghost before = self.conn_views();
        let r = self.ready.pop_front();
        assert(self.conn_views() =~= before);
        r
    }

    fn find_waiter(&self, token: u32) -> (r: Option<usize>)
        ensures
            r is Some <==> waiter(self.conn_views(), token, 0) is Some,
            r matches Some(i) ==> waiter(self.conn_views(), token, 0) == Some(i as int) && i
                < self.conns@.len(),
    {
        let ghost cs = self.conn_views();
        let mut i: usize = 0;
        while i < self.conns.len()
            invariant
                i <= self.conns.len(),
                cs == self.conn_views(),
                waiter(cs, token, 0) == waiter(cs, token, i as int),
            decreases self.conns.len() - i,
        {
            assert(cs[i as int] == self.conns@[i as int]@);
            if let State::Waiting { token: t } = &self.conns[i].state {
                if *t == token {
                    return Some(i);
                }
            }
            i = i + 1;
        }
        None
    }

    /// Answers the connection that waits under a token. A token that nobody
    /// waits under changes nothing.
    pub fn answer(&mut self, token: u32, outcome: &Outcome, at: u128)
        requires
            old(self).wf(),
        ensures
            final(self).wf(),
            final(self).ready == old(self).ready,
            final(self).tokens == old(self).tokens,
            match waiter(old(self).conn_views(), token, 0) {
                Some(i) => final(self).only_conn(
                    old(self),
                    i,
                    turned(
                        old(self).conn_views()[i],
                        owed(listen::outcome_wire(*outcome)),
                        at as nat,
                    ),
                ),
                None => *final(self) == *old(self),
            },
    {
        if let Some(i) = self.find_waiter(token) {
            self.turn(i, State::Writing { out: listen::outcome_bytes(outcome), off: 0 }, at);
        }
    }

    /// Which listener a waiting token belongs to.
    pub fn owner_of(&self, token: u32) -> (r: Option<usize>)
        ensures
            match waiter(self.conn_views(), token, 0) {
                Some(i) => r == Some(self.conns@[i].listener),
                None => r is None,
            },
    {
        match self.find_waiter(token) {
            Some(i) => Some(self.conns[i].listener),
            None => None,
        }
    }
}

/// How long to sleep before the next look, in nanoseconds, when the wait is
/// to end at `until`: at most one tick, and `None` once the wait is over.
pub fn nap(until: u128, now: u128) -> (r: Option<u128>)
    ensures
        r == (if now >= until {
            None
        } else if until - now < 1_000_000 {
            Some((until - now) as u128)
        } else {
            Some(1_000_000u128)
        }),
{
    let tick: u128 = listen::POLL_TICK_MS as u128 * 1_000_000;
    if now >= until {
        None
    } else if until - now < tick {
        Some(until - now)
    } else {
        Some(tick)
    }
}

// ---- laws ----

/// What `waiter` finds waits under the token, and nothing before it does.
pub proof fn waiter_is_first(cs: Seq<ConnView>, token: u32, from: int)
    requires
        0 <= from <= cs.len(),
    ensures
        waiter(cs, token, from) matches Some(i) ==> from <= i < cs.len() && cs[i].state
            == (StateView::Waiting { token }) && forall|j: int|
            from <= j < i ==> (#[trigger] cs[j]).state != (StateView::Waiting { token }),
        waiter(cs, token, from) is None ==> forall|j: int|
            from <= j < cs.len() ==> (#[trigger] cs[j]).state != (StateView::Waiting { token }),
    decreases cs.len() - from,
{
    if from < cs.len() {
        waiter_is_first(cs, token, from + 1);
    }
}

/// A connection that has been answered waits no longer: a second answer
/// under the same token finds somebody else or nobody.
pub proof fn an_answer_is_given_once(cs: Seq<ConnView>, token: u32, i: int, out: Seq<u8>, at: nat)
    requires
        waiter(cs, token, 0) == Some(i),
    ensures
        0 <= i < cs.len(),
        waiter(cs.update(i, turned(cs[i], owed(out), at)), token, 0) != Some(i),
{
    waiter_is_first(cs, token, 0);
    let after = cs.update(i, turned(cs[i], owed(out), at));
    waiter_is_first(after, token, 0);
}

/// Whether a connection waits under a token.
pub open spec fn waits(c: ConnView, token: u32) -> bool {
    c.state == (StateView::Waiting { token })
}

/// Whether no two connections wait under one token, and every token in use
/// is below the next.
pub open spec fn tokens_fresh(cs: Seq<ConnView>, next: u32) -> bool {
    &&& forall|i: int, t: u32| 0 <= i < cs.len() && #[trigger] waits(cs[i], t) ==> t < next
    &&& forall|i: int, j: int, t: u32|
        0 <= i < cs.len() && 0 <= j < cs.len() && #[trigger] waits(cs[i], t) && #[trigger] waits(
            cs[j],
            t,
        ) ==> i == j
}

/// As long as the tokens have not run out, no two connections ever wait
/// under one token: a request that becomes whole takes a token that nobody
/// has.
pub proof fn tokens_stay_fresh(
    cs: Seq<ConnView>,
    i: int,
    h: Heard,
    allow: Seq<Seq<char>>,
    max_body: nat,
    next: u32,
    at: nat,
)
    requires
        0 <= i < cs.len(),
        next < u32::MAX,
        tokens_fresh(cs, next),
    ensures
        tokens_fresh(
            cs.update(i, heard_of(cs[i], h, allow, max_body, next, at).0),
            if heard_of(cs[i], h, allow, max_body, next, at).2 is Some {
                (next + 1) as u32
            } else {
                next
            },
        ),
{
    let (c, what, whole) = heard_of(cs[i], h, allow, max_body, next, at);
    let after = cs.update(i, c);
    assert forall|t: u32| waits(c, t) implies (whole is Some && t == next) || waits(cs[i], t) by {}
    assert forall|a: int, t: u32| 0 <= a < after.len() && a != i && #[trigger] waits(
        after[a],
        t,
    ) implies waits(cs[a], t) by {}
    assert forall|a: int, b: int, t: u32|
        0 <= a < after.len() && 0 <= b < after.len() && #[trigger] waits(after[a], t)
            && #[trigger] waits(after[b], t) implies a == b by {
        assert(a != i ==> waits(cs[a], t));
        assert(b != i ==> waits(cs[b], t));
    }
}

/// A listener's places are held by exactly the counted connections on it.
pub proof fn a_place_is_held_by_a_connection(cs: Seq<ConnView>, idx: nat)
    ensures
        held(cs, idx) == cs.filter(|c: ConnView| c.counted && c.listener == idx).len(),
    decreases cs.len(),
{
    reveal(Seq::filter);
    if cs.len() > 0 {
        a_place_is_held_by_a_connection(cs.drop_last(), idx);
    }
}

/// A stage that takes longer than its listener allows, in milliseconds, ends:
/// a request that does not arrive is refused, an answer that does not come is
/// replaced by a timeout, and one that does not leave is given up. Within its
/// time a connection is read from, waited for and written to.
pub proof fn a_stage_has_its_time(c: ConnView, deadline_ms: u64, now: nat, at: nat)
    ensures
        now - c.since <= 1_000_000 * deadline_ms ==> {
            &&& looked(c, deadline_ms, now, at).0 == c
            &&& looked(c, deadline_ms, now, at).1 == (match c.state {
                StateView::Reading { .. } => Next::Read,
                StateView::Waiting { .. } => Next::Keep,
                StateView::Writing { out, off } => if off < out.len() {
                    Next::Write
                } else {
                    Next::Drop
                },
            })
        },
        now - c.since > 1_000_000 * deadline_ms ==> {
            let (after, next) = looked(c, deadline_ms, now, at);
            match c.state {
                StateView::Reading { headers_done, .. } => {
                    &&& next == Next::Keep
                    &&& after.since == at
                    &&& after.listener == c.listener
                    &&& after.counted == c.counted
                    &&& after.state == (StateView::Writing {
                        out: listen::refusal(
                            400,
                            if headers_done {
                                "the connection went away mid-body\n"@
                            } else {
                                "unparseable request\n"@
                            },
                        ),
                        off: 0,
                    })
                },
                StateView::Waiting { .. } => {
                    &&& next == Next::Keep
                    &&& after.since == at
                    &&& after.listener == c.listener
                    &&& after.counted == c.counted
                    &&& after.state == (StateView::Writing {
                        out: listen::refusal(
                            504,
                            "the program did not answer within the deadline\n"@,
                        ),
                        off: 0,
                    })
                },
                StateView::Writing { .. } => next == Next::Drop && after == c,
            }
        },
{
}

/// What leaves is counted from where the last write ended, and a connection
/// that has all it is owed is closed.
pub proof fn what_left_is_not_sent_again(c: ConnView, n: usize)
    requires
        c.state is Writing,
        c.state->off <= c.state->out.len(),
    ensures
        ({
            let (after, next) = written(c, Wrote::Took(n));
            &&& after.state is Writing
            &&& after.state->out == c.state->out
            &&& after.listener == c.listener
            &&& after.counted == c.counted
            &&& after.since == c.since
            &&& n <= c.state->out.len() - c.state->off ==> after.state->off == c.state->off + n
            &&& next == Next::Write <==> n > 0 && c.state->off + n < c.state->out.len()
            &&& next == Next::Write || next == Next::Drop
        }),
        written(c, Wrote::Blocked) == (c, Next::Keep),
        written(c, Wrote::Failed) == (c, Next::Drop),
{
}

/// Bytes are judged behind those that came before. A request that is whole
/// waits under its token and is handed over; one that is refused is answered
/// with the refusal; one that is not whole is read on.
pub proof fn bytes_are_judged_together(
    c: ConnView,
    b: Vec<u8>,
    allow: Seq<Seq<char>>,
    max_body: nat,
    token: u32,
    at: nat,
)
    requires
        c.state is Reading,
    ensures
        ({
            let all = c.state->buf + b@;
            let (after, next, whole) = heard_of(c, Heard::Bytes(b), allow, max_body, token, at);
            &&& after.listener == c.listener
            &&& after.counted == c.counted
            &&& match listen::request_in(all, allow, max_body, token) {
                listen::Judged::Complete(m) => {
                    &&& whole == Some(m)
                    &&& next == Next::Keep
                    &&& after.since == at
                    &&& after.state == (StateView::Waiting { token })
                },
                listen::Judged::Incomplete { headers_done } => {
                    &&& whole is None
                    &&& next == Next::Read
                    &&& after.since == c.since
                    &&& after.state == (StateView::Reading { buf: all, headers_done })
                },
                listen::Judged::Refused((status, why)) => {
                    &&& whole is None
                    &&& next == Next::Keep
                    &&& after.since == at
                    &&& after.state == (StateView::Writing {
                        out: listen::refusal(status, why),
                        off: 0,
                    })
                },
            }
        }),
        ({
            let (after, next, whole) = heard_of(c, Heard::Closed, allow, max_body, token, at);
            &&& whole is None
            &&& next == Next::Keep
            &&& after.since == at
            &&& after.listener == c.listener
            &&& after.counted == c.counted
            &&& after.state == (StateView::Writing {
                out: listen::refusal(
                    400,
                    if c.state->headers_done {
                        "the connection went away mid-body\n"@
                    } else {
                        "unparseable request\n"@
                    },
                ),
                off: 0,
            })
        }),
        heard_of(c, Heard::Blocked, allow, max_body, token, at) == (
            c,
            Next::Keep,
            None::<msg::Msg>,
        ),
        heard_of(c, Heard::Failed, allow, max_body, token, at) == (c, Next::Drop, None::<msg::Msg>),
        heard_of(c, Heard::Closed, allow, max_body, token, at).0.state is Writing,
        heard_of(c, Heard::Closed, allow, max_body, token, at).2 is None,
{
}

/// A step of one connection leaves every other connection, and the listeners,
/// as they were.
pub proof fn a_step_is_of_one_connection(
    after: &Bound,
    before: &Bound,
    i: int,
    c: ConnView,
    k: int,
)
    requires
        after.only_conn(before, i, c),
        0 <= i < before.conns@.len(),
        0 <= k < before.conns@.len(),
    ensures
        after.listeners == before.listeners,
        after.conns@.len() == before.conns@.len(),
        after.conns@[i]@ == c,
        k != i ==> after.conns@[k]@ == before.conns@[k]@,
{
    let now = after.conn_views();
    assert(now.len() == after.conns@.len());
    assert(now[i] == after.conns@[i]@);
    assert(now[k] == after.conns@[k]@);
    assert(before.conn_views()[k] == before.conns@[k]@);
}

} // verus!
