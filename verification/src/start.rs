//! A deployment, driven: which instance does what next, who sleeps when
//! there are too many, how long the host may wait, and what the relay asks
//! and is answered.
//!
//! Times are in nanoseconds on the host's clock.

use crate::config::Program;
use crate::drive;
use crate::drive::{Next, Outcome, QueueStatus, Step, WaitSet};
use crate::listen;
use crate::listen::{Ingress, ListenerRt};
use crate::msg;
use crate::msg::{Datum, Msg};
use crate::polled;
use crate::polled::Bound;
use crate::relay::{Leg, RelayEvent};
use crate::text;
use std::collections::{HashMap, HashSet};
use vstd::prelude::*;

verus! {

broadcast use vstd::std_specs::hash::group_hash_axioms;

/// The longest that the drive loop sleeps when a step moved nothing.
pub const IDLE_TICK: u128 = 1_000_000;

/// A park: what is waited for, and until when.
#[derive(Debug)]
pub struct Park {
    pub wait: WaitSet,
    pub deadline: Option<u128>,
}

/// What drives the instances of a deployment: where each is parked, and when
/// each last did work, counted in drives.
#[derive(Debug)]
pub struct DeployHost {
    pub parked: HashMap<u32, Park>,
    pub tick: u64,
    pub active: HashMap<u32, u64>,
}

/// What is done to an instance next.
#[derive(Clone, Copy, Debug, PartialEq, Eq, Structural)]
pub enum HostMove {
    /// Run it for the first time.
    Run,
    /// Resume it: this queue is ready.
    Resume(u64),
    /// Resume it: its time is up.
    ResumeTimeout,
    /// Leave it parked.
    Stay,
}

/// What became of an instance that was driven.
#[derive(Debug)]
pub enum Driven {
    Alive,
    Exited,
    Faulted(String),
}

/// When a wait that begins at `now` is over.
pub open spec fn due(wait: WaitSet, now: u128) -> Option<int> {
    match wait.timeout {
        Some(t) => Some(now + t),
        None => None,
    }
}

/// Whether a park is one that begins at `now`.
pub open spec fn begins(p: Park, wait: WaitSet, now: u128) -> bool {
    &&& p.wait == wait
    &&& match due(wait, now) {
        Some(d) => p.deadline matches Some(t) && t == d,
        None => p.deadline is None,
    }
}

/// What a parked instance does next: a queue that is ready comes before a
/// deadline.
pub open spec fn woken(p: Park, statuses: Seq<Option<QueueStatus>>, now: u128) -> HostMove {
    match drive::first_ready(statuses, p.wait.for_space, 0) {
        Some(i) => HostMove::Resume(p.wait.queues@[i]),
        None => if p.deadline matches Some(d) && now >= d {
            HostMove::ResumeTimeout
        } else {
            HostMove::Stay
        },
    }
}

fn wake(p: &Park, statuses: &Vec<Option<QueueStatus>>, now: u128) -> (r: HostMove)
    requires
        statuses@.len() == p.wait.queues@.len(),
    ensures
        r == woken(*p, statuses@, now),
{
    match drive::find_ready(statuses, p.wait.for_space) {
        Some(i) => HostMove::Resume(p.wait.queues[i]),
        None => match p.deadline {
            Some(d) => if now >= d {
                HostMove::ResumeTimeout
            } else {
                HostMove::Stay
            },
            None => HostMove::Stay,
        },
    }
}

/// The park of a wait that begins now.
fn park(wait: WaitSet, now: u128) -> (r: Park)
    requires
        due(wait, now) matches Some(d) ==> d <= u128::MAX,
    ensures
        begins(r, wait, now),
{
    let deadline: Option<u128> = match wait.timeout {
        Some(t) => Some(now + t),
        None => None,
    };
    Park { wait, deadline }
}

impl DeployHost {
    /// A host that has driven nothing.
    pub fn new() -> (r: DeployHost)
        ensures
            r.parked@ == Map::<u32, Park>::empty(),
            r.tick == 0,
            r.active@ == Map::<u32, u64>::empty(),
    {
        DeployHost { parked: HashMap::new(), tick: 0, active: HashMap::new() }
    }

    /// The park of an instance: the one that is known, else the one that the
    /// instance itself names, which begins now.
    pub open spec fn park_of(&self, id: u32, current: Option<WaitSet>, now: u128, p: Park) -> bool {
        if self.parked@.contains_key(id) {
            p == self.parked@[id]
        } else {
            current matches Some(w) && begins(p, w, now)
        }
    }

    /// Decides what is done to an instance. `current` is the wait that the
    /// instance itself names, where it is not known to be parked, and
    /// `statuses` is how full each queue is that it waits on.
    pub fn drive(
        &mut self,
        id: u32,
        current: Option<WaitSet>,
        statuses: &Vec<Option<QueueStatus>>,
        now: u128,
    ) -> (r: HostMove)
        requires
            old(self).tick < u64::MAX,
            old(self).parked@.contains_key(id) ==> old(self).parked@[id].wait.queues@.len()
                == statuses@.len(),
            !old(self).parked@.contains_key(id) ==> (current matches Some(w) ==> w.queues@.len()
                == statuses@.len() && (due(w, now) matches Some(d) ==> d <= u128::MAX)),
        ensures
            final(self).tick == old(self).tick + 1,
            r == HostMove::Run <==> !old(self).parked@.contains_key(id) && current is None,
            r == HostMove::Run ==> final(self).parked@ == old(self).parked@,
            r != HostMove::Run ==> exists|p: Park|
                #![trigger woken(p, statuses@, now)]
                old(self).park_of(id, current, now, p) && r == woken(p, statuses@, now)
                    && final(self).parked@ == (if r == HostMove::Stay {
                    old(self).parked@.insert(id, p)
                } else {
                    old(self).parked@
                }),
            final(self).active@ == (if r == HostMove::Stay {
                old(self).active@
            } else {
                old(self).active@.insert(id, final(self).tick)
            }),
    {
        self.tick = self.tick + 1;
        if self.parked.contains_key(&id) {
            let r = match self.parked.get(&id) {
                Some(p) => wake(p, statuses, now),
                None => HostMove::Run,
            };
            proof {
                let p = self.parked@[id];
                assert(old(self).park_of(id, current, now, p));
                assert(r == woken(p, statuses@, now));
                assert(self.parked@.insert(id, p) =~= self.parked@);
            }
            if r != HostMove::Stay {
                self.active.insert(id, self.tick);
            }
            return r;
        }
        match current {
            None => {
                self.active.insert(id, self.tick);
                HostMove::Run
            },
            Some(wait) => {
                let p = park(wait, now);
                let r = wake(&p, statuses, now);
                assert(old(self).park_of(id, current, now, p));
                assert(r == woken(p, statuses@, now));
                if r == HostMove::Stay {
                    self.parked.insert(id, p);
                } else {
                    self.active.insert(id, self.tick);
                }
                r
            },
        }
    }

    /// Takes in what the step of an instance came to.
    pub fn note(&mut self, id: u32, step: Result<Step, String>, now: u128) -> (r: Driven)
        requires
            step matches Ok(Step::Parked(w)) ==> (due(w, now) matches Some(d) ==> d <= u128::MAX),
        ensures
            final(self).tick == old(self).tick,
            final(self).active == old(self).active,
            match step {
                Ok(Step::Parked(w)) => {
                    &&& r is Alive
                    &&& final(self).parked@.contains_key(id)
                    &&& begins(final(self).parked@[id], w, now)
                    &&& final(self).parked@ == old(self).parked@.insert(
                        id,
                        final(self).parked@[id],
                    )
                },
                Ok(Step::Done) => r is Exited && final(self).parked@ == old(self).parked@.remove(
                    id,
                ),
                Err(e) => r == Driven::Faulted(e) && final(self).parked@
                    == old(self).parked@.remove(id),
            },
    {
        match step {
            Ok(Step::Parked(wait)) => {
                self.parked.insert(id, park(wait, now));
                Driven::Alive
            },
            Ok(Step::Done) => {
                self.parked.remove(&id);
                Driven::Exited
            },
            Err(e) => {
                self.parked.remove(&id);
                Driven::Faulted(e)
            },
        }
    }

    /// Forgets the park of an instance that came or went.
    pub fn forget(&mut self, id: u32)
        ensures
            final(self).parked@ == old(self).parked@.remove(id),
            final(self).tick == old(self).tick,
            final(self).active == old(self).active,
    {
        self.parked.remove(&id);
    }

    /// When an instance last did work; one that never did reads as the
    /// oldest.
    pub open spec fn activity(&self, id: u32) -> u64 {
        if self.active@.contains_key(id) {
            self.active@[id]
        } else {
            0
        }
    }

    /// When an instance last did work.
    pub fn last_active(&self, id: u32) -> (r: u64)
        ensures
            r == self.activity(id),
    {
        match self.active.get(&id) {
            Some(t) => *t,
            None => 0,
        }
    }

    /// The earliest deadline of all parks.
    pub fn next_deadline(&self) -> (r: Option<u128>)
        ensures
            match r {
                Some(d) => {
                    &&& exists|id: u32|
                        #[trigger] self.parked@.contains_key(id) && self.parked@[id].deadline
                            == Some(d)
                    &&& forall|id: u32| #[trigger]
                        self.parked@.contains_key(id) ==> (self.parked@[id].deadline matches Some(e)
                            ==> d <= e)
                },
                None => forall|id: u32| #[trigger]
                    self.parked@.contains_key(id) ==> self.parked@[id].deadline is None,
            },
    {
        let mut r: Option<u128> = None;
        let parks = self.parked.values();
        let ghost whole = vstd::std_specs::iter::IteratorSpec::remaining(&parks);
        assert(whole.unref().to_set() == self.parked@.values());
        for p in it: parks
            invariant
                it.seq() == whole,
                match r {
                    Some(d) => {
                        &&& exists|k: int|
                            0 <= k < it.index() && (#[trigger] it.seq()[k]).deadline == Some(d)
                        &&& forall|k: int|
                            0 <= k < it.index() ==> ((#[trigger] it.seq()[k]).deadline matches Some(
                                e,
                            ) ==> d <= e)
                    },
                    None => forall|k: int|
                        0 <= k < it.index() ==> (#[trigger] it.seq()[k]).deadline is None,
                },
        {
            let ghost before = r;
            match (p.deadline, r) {
                (Some(e), Some(d)) => {
                    if e < d {
                        r = Some(e);
                        assert(it.seq()[it.index()].deadline == Some(e));
                    }
                },
                (Some(e), None) => {
                    r = Some(e);
                    assert(it.seq()[it.index()].deadline == Some(e));
                },
                _ => {},
            }
        }
        proof {
            assert forall|id: u32| #[trigger] self.parked@.contains_key(id) implies (exists|k: int|
                0 <= k < whole.len() && *(#[trigger] whole[k]) == self.parked@[id]) by {
                assert(self.parked@.values().contains(self.parked@[id]));
                assert(whole.unref().contains(self.parked@[id]));
                let k = choose|k: int|
                    0 <= k < whole.unref().len() && whole.unref()[k] == self.parked@[id];
                assert(*whole[k] == self.parked@[id]);
            }
            if let Some(d) = r {
                let k = choose|k: int|
                    0 <= k < whole.len() && (#[trigger] whole[k]).deadline == Some(d);
                assert(whole.unref()[k] == *whole[k]);
                assert(whole.unref().to_set().contains(*whole[k]));
                assert(self.parked@.values().contains(*whole[k]));
                let id = choose|id: u32|
                    self.parked@.contains_key(id) && self.parked@[id] == *whole[k];
                assert(self.parked@.contains_key(id) && self.parked@[id].deadline == Some(d));
            }
        }
        r
    }
}

/// What is said of an instance that faulted.
pub fn fault_line(id: u32, why: &str) -> (r: String)
    ensures
        r@ == "drt: instance "@ + text::dec(id as nat) + " faulted: "@ + why@,
{
    text::join4("drt: instance ", text::decimal(id as u64).as_str(), " faulted: ", why)
}

// ---- residency ----

/// An instance, as far as it may be put to sleep.
#[derive(Clone, Copy, Debug, PartialEq, Eq, Structural)]
pub struct Candidate {
    pub id: u32,
    pub resident: bool,
    /// Whether a message wakes it again.
    pub wake_on_message: bool,
    pub last_active: u64,
}

/// Whether an instance may be put to sleep: not the root, and not one that a
/// message would not wake.
pub open spec fn evictable(c: Candidate, root: u32) -> bool {
    c.id != root && c.resident && c.wake_on_message
}

/// The instances that may be put to sleep, in order.
pub open spec fn eligible(all: Seq<Candidate>, root: u32) -> Seq<Candidate>
    decreases all.len(),
{
    if all.len() == 0 {
        Seq::empty()
    } else if evictable(all.last(), root) {
        eligible(all.drop_last(), root).push(all.last())
    } else {
        eligible(all.drop_last(), root)
    }
}

/// Whether `a` goes to sleep before `b`: it has been idle for longer, or for
/// as long with the higher number.
pub open spec fn sooner(a: Candidate, b: Candidate) -> bool {
    a.last_active < b.last_active || (a.last_active == b.last_active && a.id > b.id)
}

/// `c` at its place among instances in order.
pub open spec fn placed(s: Seq<Candidate>, c: Candidate) -> Seq<Candidate>
    decreases s.len(),
{
    if s.len() == 0 || !sooner(c, s.last()) {
        s.push(c)
    } else {
        placed(s.drop_last(), c).push(s.last())
    }
}

/// The instances in the order in which they go to sleep.
pub open spec fn ranked(s: Seq<Candidate>) -> Seq<Candidate>
    decreases s.len(),
{
    if s.len() == 0 {
        Seq::empty()
    } else {
        placed(ranked(s.drop_last()), s.last())
    }
}

/// Who is put to sleep, in order, until so many have been: the host passes
/// over one that cannot be.
#[derive(Debug)]
pub struct Evictions {
    pub order: Vec<Candidate>,
    pub over: usize,
}

/// What is left to be tried, how many still have to sleep, and who is tried
/// next, once it is known whether the one before could.
pub open spec fn stepped(order: Seq<Candidate>, over: nat, slept: bool) -> (
    Seq<Candidate>,
    nat,
    Option<Candidate>,
) {
    let left: nat = if slept && over > 0 {
        (over - 1) as nat
    } else {
        over
    };
    if left == 0 || order.len() == 0 {
        (order, left, None)
    } else {
        (order.subrange(1, order.len() as int), left, Some(order[0]))
    }
}

impl Evictions {
    /// Whom to put to sleep next, if anybody. `slept` says whether the one
    /// that was tried before could be; before the first nobody was.
    pub fn next(&mut self, slept: bool) -> (r: Option<Candidate>)
        ensures
            (final(self).order@, final(self).over as nat, r) == stepped(
                old(self).order@,
                old(self).over as nat,
                slept,
            ),
    {
        if slept && self.over > 0 {
            self.over = self.over - 1;
        }
        if self.over == 0 || self.order.len() == 0 {
            return None;
        }
        let one = self.order.remove(0);
        assert(self.order@ =~= old(self).order@.subrange(1, old(self).order@.len() as int));
        Some(one)
    }
}

/// Everybody that is tried, step by step, where `can` says who can sleep.
pub open spec fn tried(
    order: Seq<Candidate>,
    over: nat,
    slept: bool,
    can: spec_fn(Candidate) -> bool,
) -> Seq<Candidate>
    decreases order.len(),
{
    let (rest, left, next) = stepped(order, over, slept);
    match next {
        Some(c) => seq![c] + tried(rest, left, can(c), can),
        None => Seq::empty(),
    }
}

/// Those of some who can sleep, in order.
pub open spec fn who_can(s: Seq<Candidate>, can: spec_fn(Candidate) -> bool) -> Seq<Candidate>
    decreases s.len(),
{
    if s.len() == 0 {
        Seq::empty()
    } else {
        let rest = who_can(s.subrange(1, s.len() as int), can);
        if can(s[0]) {
            seq![s[0]] + rest
        } else {
            rest
        }
    }
}

/// Who falls asleep when so many have to, one after the other: one that
/// cannot is passed over.
pub open spec fn asleep(
    order: Seq<Candidate>,
    over: nat,
    can: spec_fn(Candidate) -> bool,
) -> Seq<Candidate>
    decreases order.len(),
{
    if over == 0 || order.len() == 0 {
        Seq::empty()
    } else {
        let rest = order.subrange(1, order.len() as int);
        if can(order[0]) {
            seq![order[0]] + asleep(rest, (over - 1) as nat, can)
        } else {
            asleep(rest, over, can)
        }
    }
}

proof fn placed_len(s: Seq<Candidate>, c: Candidate)
    ensures
        placed(s, c).len() == s.len() + 1,
    decreases s.len(),
{
    if s.len() > 0 && sooner(c, s.last()) {
        placed_len(s.drop_last(), c);
    }
}

proof fn ranked_len(s: Seq<Candidate>)
    ensures
        ranked(s).len() == s.len(),
    decreases s.len(),
{
    if s.len() > 0 {
        ranked_len(s.drop_last());
        placed_len(ranked(s.drop_last()), s.last());
    }
}

proof fn placed_at(s: Seq<Candidate>, c: Candidate, n: int)
    requires
        0 <= n <= s.len(),
        forall|i: int| n <= i < s.len() ==> sooner(c, #[trigger] s[i]),
        n == 0 || !sooner(c, s[n - 1]),
    ensures
        placed(s, c) == s.insert(n, c),
    decreases s.len(),
{
    if n == s.len() {
        assert(s.insert(n, c) =~= s.push(c));
    } else {
        assert(sooner(c, s[s.len() - 1]));
        placed_at(s.drop_last(), c, n);
        assert(s.insert(n, c) =~= s.drop_last().insert(n, c).push(s.last()));
    }
}

fn place(order: &mut Vec<Candidate>, c: Candidate)
    ensures
        final(order)@ == placed(old(order)@, c),
{
    let mut n: usize = order.len();
    while n > 0 && (c.last_active < order[n - 1].last_active || (c.last_active == order[n
        - 1].last_active && c.id > order[n - 1].id))
        invariant
            n <= order.len(),
            order@ == old(order)@,
            forall|i: int| n <= i < order@.len() ==> sooner(c, #[trigger] order@[i]),
        decreases n,
    {
        n = n - 1;
    }
    proof {
        placed_at(order@, c, n as int);
    }
    order.insert(n, c);
}

/// Decides who is put to sleep, so that no more than `max_resident` of those
/// that may be stay awake.
pub fn enforce_residency(all: &Vec<Candidate>, root: u32, max_resident: usize) -> (r: Evictions)
    ensures
        ({
            let awake = eligible(all@, root);
            if awake.len() <= max_resident {
                r.order@.len() == 0 && r.over == 0
            } else {
                r.order@ == ranked(awake) && r.over == awake.len() - max_resident
            }
        }),
{
    let mut order: Vec<Candidate> = Vec::new();
    let mut i: usize = 0;
    assert(all@.subrange(0, all@.len() as int) =~= all@);
    while i < all.len()
        invariant
            i <= all.len(),
            order@ == ranked(eligible(all@.subrange(0, i as int), root)),
            all@.subrange(0, all@.len() as int) == all@,
        decreases all.len() - i,
    {
        let c = all[i];
        let ghost now = all@.subrange(0, i + 1);
        assert(now.drop_last() =~= all@.subrange(0, i as int));
        if c.id != root && c.resident && c.wake_on_message {
            let ghost had = eligible(all@.subrange(0, i as int), root);
            assert(had.push(c).drop_last() =~= had);
            place(&mut order, c);
        }
        i = i + 1;
    }
    proof {
        ranked_len(eligible(all@, root));
    }
    if order.len() <= max_resident {
        return Evictions { order: Vec::new(), over: 0 };
    }
    let over: usize = order.len() - max_resident;
    Evictions { order, over }
}

// ---- the clock ----

/// How long the host may sleep: until the earliest deadline, and never
/// longer than a tick.
pub open spec fn idle_for(next: Option<u128>, now: u128) -> int {
    match next {
        Some(d) => if d <= now {
            0
        } else if d - now < IDLE_TICK {
            d - now
        } else {
            IDLE_TICK as int
        },
        None => IDLE_TICK as int,
    }
}

/// How long the host may sleep.
pub fn idle(next: Option<u128>, now: u128) -> (r: u128)
    ensures
        r == idle_for(next, now),
{
    match next {
        Some(d) => if d <= now {
            0
        } else if d - now < IDLE_TICK {
            d - now
        } else {
            IDLE_TICK
        },
        None => IDLE_TICK,
    }
}

/// What a deployment needs of its host after a step that left so many
/// instances alive.
pub fn tick(alive: usize, next: Option<u128>, now: u128) -> (r: Next)
    ensures
        if alive == 0 {
            r == Next::Done(Outcome::Exited)
        } else {
            r matches Next::Sleep(t) && t == idle_for(next, now)
        },
{
    if alive == 0 {
        Next::Done(Outcome::Exited)
    } else {
        Next::Sleep(idle(next, now))
    }
}

/// Refuses a deployment with listeners on a host that cannot bind one.
pub fn prepare(listeners: usize) -> (r: Result<(), String>)
    ensures
        if listeners == 0 {
            r is Ok
        } else {
            r matches Err(why) && why@ == "this config names "@ + text::dec(listeners as nat)
                + " listener(s), and this build does not carry `listen` \u{2014} running the deployment while silently not binding the port the config asked for is the worst of both. Build with the `listen` feature, or remove the `listeners` block"@
        },
{
    if listeners == 0 {
        return Ok(());
    }
    Err(
        text::join3(
            "this config names ",
            text::decimal(listeners as u64).as_str(),
            " listener(s), and this build does not carry `listen` \u{2014} running the deployment while silently not binding the port the config asked for is the worst of both. Build with the `listen` feature, or remove the `listeners` block",
        ),
    )
}

/// The source of the root program. `read` is what reading the file came to,
/// where the program is one.
pub fn root_source(program: &Option<Program>, read: Result<String, String>) -> (r: Result<
    String,
    String,
>)
    ensures
        match program {
            Some(Program::Path(path)) => match read {
                Ok(source) => r matches Ok(s) && s@ == source@,
                Err(e) => r matches Err(why) && why@ == "cannot read "@ + path@ + ": "@ + e@,
            },
            Some(Program::Source(source)) => r matches Ok(s) && s@ == source@,
            None => r matches Err(why) && why@
                == "the config names no program, and a deployment is config + a program.\n  name one:  \"program\": {\"path\": \"...\"}\n  or fetch one: dollup fetches and verifies them \u{2014} https://dollup.aloecraft.org"@,
        },
{
    match program {
        Some(Program::Path(path)) => match read {
            Ok(source) => Ok(source),
            Err(e) => Err(text::join4("cannot read ", path.as_str(), ": ", e.as_str())),
        },
        Some(Program::Source(source)) => Ok(source.clone()),
        None => Err(
            "the config names no program, and a deployment is config + a program.\n  name one:  \"program\": {\"path\": \"...\"}\n  or fetch one: dollup fetches and verifies them \u{2014} https://dollup.aloecraft.org".to_owned(),
        ),
    }
}

// ---- requests and replies ----

/// Why a message did not reach a queue.
#[derive(Clone, Copy, Debug, PartialEq, Eq, Structural)]
pub enum PushError {
    UnknownQueue,
    Gone,
    Unknown,
    Limit,
    Other,
}

/// What becomes of a request after a try to push it onto the root's queue.
#[derive(Debug, PartialEq, Eq)]
pub enum Delivery {
    /// It is on the queue; the program answers it.
    Delivered,
    /// Its queue does not exist yet: it is tried again on the next pass.
    Hold,
    /// It is refused on the program's behalf.
    Refuse(listen::Outcome),
}

/// What becomes of a request that has waited so long for its queue to exist,
/// in nanoseconds, of the milliseconds that its listener gives it.
pub open spec fn delivery(pushed: Result<(), PushError>, waited: nat, admit_ms: u64) -> Delivery {
    match pushed {
        Ok(_) => Delivery::Delivered,
        Err(PushError::UnknownQueue) => if waited < admit_ms * 1_000_000 {
            Delivery::Hold
        } else {
            Delivery::Refuse(
                listen::Outcome::Refused {
                    status: 503,
                    text: "the program declares no request queue\n",
                },
            )
        },
        Err(PushError::Gone) | Err(PushError::Unknown) => Delivery::Refuse(
            listen::Outcome::Refused { status: 503, text: "the root instance is not resident\n" },
        ),
        Err(PushError::Limit) => Delivery::Refuse(
            listen::Outcome::Refused { status: 503, text: "the request queue is full; try again\n" },
        ),
        Err(PushError::Other) => Delivery::Refuse(
            listen::Outcome::Refused { status: 500, text: "delivery failed\n" },
        ),
    }
}

/// Decides what becomes of a request. One whose queue does not exist yet
/// waits for it as long as its listener says, and is refused after that.
pub fn deliver(pushed: Result<(), PushError>, waited: u128, admit_ms: u64) -> (r: Delivery)
    ensures
        r == delivery(pushed, waited as nat, admit_ms),
{
    match pushed {
        Ok(_) => Delivery::Delivered,
        Err(PushError::UnknownQueue) => if waited < admit_ms as u128 * 1_000_000 {
            Delivery::Hold
        } else {
            Delivery::Refuse(
                listen::Outcome::refused(503, "the program declares no request queue\n"),
            )
        },
        Err(PushError::Gone) => Delivery::Refuse(
            listen::Outcome::refused(503, "the root instance is not resident\n"),
        ),
        Err(PushError::Unknown) => Delivery::Refuse(
            listen::Outcome::refused(503, "the root instance is not resident\n"),
        ),
        Err(PushError::Limit) => Delivery::Refuse(
            listen::Outcome::refused(503, "the request queue is full; try again\n"),
        ),
        Err(PushError::Other) => Delivery::Refuse(
            listen::Outcome::refused(500, "delivery failed\n"),
        ),
    }
}

/// A request that waits for its queue to exist, and since when.
#[derive(Debug)]
pub struct HeldRequest {
    pub ingress: Ingress,
    pub since: u128,
}

/// How long a request has waited at `now`.
pub open spec fn waited_at(since: u128, now: u128) -> nat {
    if now > since {
        (now - since) as nat
    } else {
        0
    }
}

/// What becomes of a held request that was tried again at `now`.
pub open spec fn retried(
    h: HeldRequest,
    pushed: Result<(), PushError>,
    listeners: Seq<ListenerRt>,
    now: u128,
) -> Delivery {
    delivery(pushed, waited_at(h.since, now), listeners[h.ingress.listener as int].admit_ms)
}

/// The requests that are still held once each was tried again, in order.
pub open spec fn still_held(
    held: Seq<HeldRequest>,
    tries: Seq<Result<(), PushError>>,
    listeners: Seq<ListenerRt>,
    now: u128,
) -> Seq<HeldRequest>
    decreases held.len(),
{
    if held.len() == 0 {
        Seq::empty()
    } else {
        let before = still_held(held.drop_last(), tries, listeners, now);
        if retried(held.last(), tries[held.len() - 1], listeners, now) is Hold {
            before.push(held.last())
        } else {
            before
        }
    }
}

/// The connections whose requests are refused once each was tried again, in
/// order, and with what.
pub open spec fn given_up(
    held: Seq<HeldRequest>,
    tries: Seq<Result<(), PushError>>,
    listeners: Seq<ListenerRt>,
    now: u128,
) -> Seq<(u32, listen::Outcome)>
    decreases held.len(),
{
    if held.len() == 0 {
        Seq::empty()
    } else {
        let before = given_up(held.drop_last(), tries, listeners, now);
        match retried(held.last(), tries[held.len() - 1], listeners, now) {
            Delivery::Refuse(outcome) => before.push((held.last().ingress.token, outcome)),
            _ => before,
        }
    }
}

/// The requests that wait for their queue to exist, oldest first.
#[derive(Debug)]
pub struct Holding {
    pub held: Vec<HeldRequest>,
}

impl Holding {
    /// Every request came in on one of the listeners.
    pub open spec fn wf(&self, listeners: Seq<ListenerRt>) -> bool {
        forall|i: int|
            0 <= i < self.held@.len() ==> (#[trigger] self.held@[i]).ingress.listener
                < listeners.len()
    }

    /// None waits yet.
    pub fn new() -> (r: Holding)
        ensures
            r.held@.len() == 0,
            forall|ls: Seq<ListenerRt>| #[trigger] r.wf(ls),
    {
        Holding { held: Vec::new() }
    }

    /// A request whose first try said to hold it waits from `now` on.
    pub fn hold(&mut self, ingress: Ingress, now: u128)
        ensures
            final(self).held@ == old(self).held@.push(HeldRequest { ingress, since: now }),
            forall|ls: Seq<ListenerRt>|
                old(self).wf(ls) && ingress.listener < ls.len() ==> #[trigger] final(self).wf(ls),
    {
        self.held.push(HeldRequest { ingress, since: now });
    }

    /// Every held request was tried again, and `tries` says what came of each:
    /// those whose queue still does not exist stay, as long as they may, and
    /// the refusals are handed back.
    pub fn retry_held(
        &mut self,
        tries: &Vec<Result<(), PushError>>,
        listeners: &Vec<ListenerRt>,
        now: u128,
    ) -> (r: Vec<(u32, listen::Outcome)>)
        requires
            old(self).wf(listeners@),
            tries@.len() == old(self).held@.len(),
        ensures
            final(self).wf(listeners@),
            final(self).held@ == still_held(old(self).held@, tries@, listeners@, now),
            r@ == given_up(old(self).held@, tries@, listeners@, now),
    {
        let ghost all = self.held@;
        let mut rest: Vec<HeldRequest> = Vec::new();
        std::mem::swap(&mut rest, &mut self.held);
        let mut refused: Vec<(u32, listen::Outcome)> = Vec::new();
        let mut i: usize = 0;
        assert(all.subrange(0, 0) =~= Seq::empty());
        assert(rest@ =~= all.subrange(0, all.len() as int));
        while rest.len() > 0
            invariant
                i + rest.len() == tries.len(),
                tries@.len() == all.len(),
                rest@ == all.subrange(i as int, all.len() as int),
                forall|k: int|
                    0 <= k < all.len() ==> (#[trigger] all[k]).ingress.listener < listeners@.len(),
                self.wf(listeners@),
                self.held@ == still_held(all.subrange(0, i as int), tries@, listeners@, now),
                refused@ == given_up(all.subrange(0, i as int), tries@, listeners@, now),
            decreases rest.len(),
        {
            let h = rest.remove(0);
            assert(h == all[i as int]);
            let ghost upto = all.subrange(0, i + 1);
            assert(upto.drop_last() =~= all.subrange(0, i as int));
            assert(upto.last() == h);
            let waited: u128 = if now > h.since {
                now - h.since
            } else {
                0
            };
            let token: u32 = h.ingress.token;
            match deliver(tries[i], waited, listeners[h.ingress.listener].admit_wait()) {
                Delivery::Delivered => {},
                Delivery::Hold => {
                    self.held.push(h);
                },
                Delivery::Refuse(outcome) => {
                    refused.push((token, outcome));
                },
            }
            assert(rest@ =~= all.subrange(i + 1, all.len() as int));
            i = i + 1;
        }
        assert(all.subrange(0, i as int) =~= all);
        refused
    }
}

/// The names of the reply queues, a listener's after the other's.
pub open spec fn reply_names(listeners: Seq<ListenerRt>) -> Seq<Seq<char>> {
    listeners.map_values(|l: ListenerRt| l.reply_queue@)
}

/// The names, each where it stands first.
pub open spec fn once(names: Seq<Seq<char>>) -> Seq<Seq<char>>
    decreases names.len(),
{
    if names.len() == 0 {
        Seq::empty()
    } else if names.drop_last().contains(names.last()) {
        once(names.drop_last())
    } else {
        once(names.drop_last()).push(names.last())
    }
}

proof fn once_keeps(names: Seq<Seq<char>>)
    ensures
        forall|n: Seq<char>| #![trigger once(names).contains(n)]
            names.contains(n) <==> once(names).contains(n),
    decreases names.len(),
{
    if names.len() > 0 {
        let head = names.drop_last();
        let x = names.last();
        once_keeps(head);
        assert forall|n: Seq<char>| #![trigger once(names).contains(n)]
            names.contains(n) <==> once(names).contains(n) by {
            if names.contains(n) {
                let i = choose|i: int| 0 <= i < names.len() && names[i] == n;
                if i < head.len() {
                    assert(head[i] == n);
                    assert(head.contains(n));
                }
            }
            if head.contains(n) {
                let i = choose|i: int| 0 <= i < head.len() && head[i] == n;
                assert(names[i] == n);
            }
            assert(names[names.len() - 1] == x);
            assert(once(head).contains(n) <==> head.contains(n));
            if !head.contains(x) {
                let all = once(head).push(x);
                assert(all[all.len() - 1] == x);
                if once(head).contains(n) {
                    let i = choose|i: int| 0 <= i < once(head).len() && once(head)[i] == n;
                    assert(all[i] == n);
                }
                if all.contains(n) {
                    let i = choose|i: int| 0 <= i < all.len() && all[i] == n;
                    if i < once(head).len() {
                        assert(once(head)[i] == n);
                    }
                }
            }
        }
    }
}

/// The reply queues to drain, each once however many listeners name it.
pub fn reply_queues(listeners: &Vec<ListenerRt>) -> (r: Vec<String>)
    ensures
        text::texts(r@) == once(reply_names(listeners@)),
{
    let ghost all = reply_names(listeners@);
    let mut r: Vec<String> = Vec::new();
    let mut i: usize = 0;
    assert(text::texts(r@) =~= once(all.subrange(0, 0)));
    assert(all.subrange(0, all.len() as int) =~= all);
    while i < listeners.len()
        invariant
            i <= listeners.len(),
            all == reply_names(listeners@),
            all.subrange(0, all.len() as int) == all,
            text::texts(r@) == once(all.subrange(0, i as int)),
        decreases listeners.len() - i,
    {
        let ghost now = all.subrange(0, i + 1);
        let ghost had = text::texts(r@);
        assert(now.drop_last() =~= all.subrange(0, i as int));
        assert(now.last() == listeners@[i as int].reply_queue@);
        proof {
            once_keeps(all.subrange(0, i as int));
            assert(once(all.subrange(0, i as int)).contains(now.last()) <==> all.subrange(
                0,
                i as int,
            ).contains(now.last()));
        }
        if !text::among(&r, listeners[i].reply_queue.as_str()) {
            let one = listeners[i].reply_queue.clone();
            let ghost s = one@;
            r.push(one);
            assert(text::texts(r@) =~= had.push(s));
        }
        i = i + 1;
    }
    r
}

/// Finishes the connection that a reply names. A reply that names none that
/// waits is used up all the same, and changes nothing.
pub fn settle_reply(bound: &mut Bound, raw: &[u8], at: u128)
    requires
        old(bound).wf(),
    ensures
        final(bound).wf(),
        final(bound).ready == old(bound).ready,
        final(bound).tokens == old(bound).tokens,
        ({
            let token = listen::token_in(listen::reply_in(raw@));
            match polled::waiter(old(bound).conn_views(), token, 0) {
                Some(i) => exists|o: listen::Outcome|
                    #![trigger listen::outcome_wire(o)]
                    {
                        &&& listen::says(
                            o,
                            listen::reply_in(raw@),
                            text::texts(
                                old(bound).listeners@[old(
                                    bound,
                                ).conns@[i].listener as int].resp_allow@,
                            ),
                        )
                        &&& final(bound).only_conn(
                            old(bound),
                            i,
                            polled::turned(
                                old(bound).conn_views()[i],
                                polled::owed(listen::outcome_wire(o)),
                                at as nat,
                            ),
                        )
                    },
                None => *final(bound) == *old(bound),
            }
        }),
{
    let token: u32 = listen::reply_token(raw);
    let owner: usize = match bound.owner_of(token) {
        Some(l) => l,
        None => return,
    };
    proof {
        polled::waiter_is_first(bound.conn_views(), token, 0);
    }
    let outcome = listen::parse_reply(raw, &bound.listeners[owner]);
    bound.answer(token, &outcome, at);
    assert(listen::outcome_wire(outcome) == listen::outcome_wire(outcome));
}

// ---- the relay's control plane ----

/// A flat table of text, numbers and the like.
pub open spec fn flat(entries: Seq<(Msg, Msg)>) -> Msg {
    Msg::Table(entries)
}

/// An event as the program sees it.
pub open spec fn event_msg(event: RelayEvent) -> Msg {
    match event {
        RelayEvent::Parked { label } => flat(
            seq![
                (Msg::Text("event"@), Msg::Text("parked"@)),
                (Msg::Text("label"@), Msg::Text(label@)),
            ],
        ),
        RelayEvent::Claimed { label, session } => flat(
            seq![
                (Msg::Text("event"@), Msg::Text("claimed"@)),
                (Msg::Text("label"@), Msg::Text(label@)),
                (Msg::Text("session"@), Msg::Int(session as int)),
            ],
        ),
        RelayEvent::Closed { label, session, bytes } => flat(
            seq![
                (Msg::Text("event"@), Msg::Text("closed"@)),
                (Msg::Text("label"@), Msg::Text(label@)),
                (Msg::Text("session"@), Msg::Int(session as int)),
                (Msg::Text("bytes"@), Msg::Int(bytes as int)),
            ],
        ),
    }
}

/// An event as a value.
pub fn event_value(event: &RelayEvent) -> (r: Datum)
    ensures
        r@ == event_msg(*event),
{
    let mut es: Vec<(Datum, Datum)> = Vec::new();
    assert(msg::entries(es@) =~= Seq::empty());
    match event {
        RelayEvent::Parked { label } => {
            msg::put(&mut es, "event", msg::say("parked"));
            msg::put(&mut es, "label", msg::say(label.as_str()));
        },
        RelayEvent::Claimed { label, session } => {
            msg::put(&mut es, "event", msg::say("claimed"));
            msg::put(&mut es, "label", msg::say(label.as_str()));
            msg::put(&mut es, "session", Datum::Uint(*session));
        },
        RelayEvent::Closed { label, session, bytes } => {
            msg::put(&mut es, "event", msg::say("closed"));
            msg::put(&mut es, "label", msg::say(label.as_str()));
            msg::put(&mut es, "session", Datum::Uint(*session));
            msg::put(&mut es, "bytes", Datum::Uint(*bytes));
        },
    }
    let r = msg::table(es);
    assert(r@->Table_0 =~= event_msg(*event)->Table_0);
    r
}

/// The message of an event.
pub fn event_message(event: &RelayEvent) -> (r: Vec<u8>)
    ensures
        r@ == msg::packed(event_msg(*event)),
{
    let v = event_value(event);
    proof {
        let es = event_msg(*event)->Table_0;
        assert forall|i: int| 0 <= i < es.len() implies msg::plain((#[trigger] es[i]).0, 7)
            && msg::plain(es[i].1, 7) by {}
        msg::plain_table(es, 7);
    }
    msg::encode(&v)
}

/// The question whether a leg may come in.
pub open spec fn admit_msg(tok: u64, label: Seq<char>, leg: Seq<char>) -> Msg {
    flat(
        seq![
            (Msg::Text("event"@), Msg::Text("admit"@)),
            (Msg::Text("tok"@), Msg::Int(tok as int)),
            (Msg::Text("label"@), Msg::Text(label)),
            (Msg::Text("leg"@), Msg::Text(leg)),
        ],
    )
}

/// The questions of a relay that wait for an answer, by their tokens.
#[derive(Debug)]
pub struct RelayBridge {
    pub pending: HashSet<u64>,
    pub next_tok: u64,
}

impl RelayBridge {
    /// Every token that waits has been given out.
    pub open spec fn wf(&self) -> bool {
        forall|t: u64| #[trigger] self.pending@.contains(t) ==> t <= self.next_tok
    }

    /// No question yet.
    pub fn new() -> (r: RelayBridge)
        ensures
            r.wf(),
            r.pending@ == Set::<u64>::empty(),
            r.next_tok == 0,
    {
        RelayBridge { pending: HashSet::new(), next_tok: 0 }
    }

    /// Makes the message of a question, under a token of its own.
    pub fn ask(&mut self, label: &str, leg: Leg) -> (r: (u64, Vec<u8>))
        requires
            old(self).wf(),
            old(self).next_tok < u64::MAX,
        ensures
            final(self).wf(),
            final(self).pending@ == old(self).pending@,
            final(self).next_tok == old(self).next_tok + 1,
            r.0 == final(self).next_tok,
            !old(self).pending@.contains(r.0),
            r.1@ == msg::packed(
                admit_msg(
                    r.0,
                    label@,
                    match leg {
                        Leg::Park => "park"@,
                        Leg::Caller => "caller"@,
                    },
                ),
            ),
    {
        self.next_tok = self.next_tok + 1;
        let tok: u64 = self.next_tok;
        let name = leg.name();
        let mut es: Vec<(Datum, Datum)> = Vec::new();
        assert(msg::entries(es@) =~= Seq::empty());
        msg::put(&mut es, "event", msg::say("admit"));
        msg::put(&mut es, "tok", Datum::Uint(tok));
        msg::put(&mut es, "label", msg::say(label));
        msg::put(&mut es, "leg", msg::say(name));
        let v = msg::table(es);
        proof {
            assert(v@->Table_0 =~= admit_msg(tok, label@, name@)->Table_0);
            let all = v@->Table_0;
            assert forall|i: int| 0 <= i < all.len() implies msg::plain((#[trigger] all[i]).0, 7)
                && msg::plain(all[i].1, 7) by {}
            msg::plain_table(all, 7);
        }
        (tok, msg::encode(&v))
    }

    /// Takes in whether a question reached the deployment. One that did not
    /// is refused: nothing waits under it.
    pub fn asked(&mut self, tok: u64, pushed: bool)
        requires
            old(self).wf(),
            tok <= old(self).next_tok,
        ensures
            final(self).wf(),
            final(self).next_tok == old(self).next_tok,
            final(self).pending@ == (if pushed {
                old(self).pending@.insert(tok)
            } else {
                old(self).pending@
            }),
    {
        if pushed {
            self.pending.insert(tok);
        }
    }

    /// Takes in an answer: the token of the question that it settles, and
    /// whether it lets the leg in. Only `true` does.
    pub fn collect_value(&mut self, value: &Datum) -> (r: Option<(u64, bool)>)
        requires
            old(self).wf(),
        ensures
            final(self).wf(),
            final(self).next_tok == old(self).next_tok,
            match msg::as_u64(msg::member(value@, "tok"@)) {
                Some(t) if old(self).pending@.contains(t) => {
                    &&& r == Some((t, msg::as_bool(msg::member(value@, "ok"@)) == Some(true)))
                    &&& final(self).pending@ == old(self).pending@.remove(t)
                },
                _ => r is None && final(self).pending@ == old(self).pending@,
            },
    {
        let ok: bool = match msg::truth(msg::field(value, "ok")) {
            Some(b) => b,
            None => false,
        };
        match msg::unsigned(msg::field(value, "tok")) {
            Some(t) => {
                if self.pending.contains(&t) {
                    self.pending.remove(&t);
                    Some((t, ok))
                } else {
                    None
                }
            },
            None => None,
        }
    }

    /// Takes in the bytes of an answer. Bytes that are no message settle
    /// nothing.
    pub fn collect(&mut self, raw: &[u8]) -> (r: Option<(u64, bool)>)
        requires
            old(self).wf(),
        ensures
            final(self).wf(),
            final(self).next_tok == old(self).next_tok,
            match msg::unpacked(raw@) {
                None => r is None && final(self).pending@ == old(self).pending@,
                Some(m) => match msg::as_u64(msg::member(m, "tok"@)) {
                    Some(t) if old(self).pending@.contains(t) => {
                        &&& r == Some((t, msg::as_bool(msg::member(m, "ok"@)) == Some(true)))
                        &&& final(self).pending@ == old(self).pending@.remove(t)
                    },
                    _ => r is None && final(self).pending@ == old(self).pending@,
                },
            },
    {
        match msg::decode(raw) {
            Ok(value) => self.collect_value(&value),
            Err(_) => None,
        }
    }
}

// ---- laws ----

/// The root is never put to sleep, nor one that a message would not wake.
pub proof fn the_front_door_stays_open(all: Seq<Candidate>, root: u32)
    ensures
        forall|i: int|
            0 <= i < ranked(eligible(all, root)).len() ==> evictable(
                #[trigger] ranked(eligible(all, root))[i],
                root,
            ),
    decreases all.len(),
{
    eligible_is(all, root);
    ranked_among(eligible(all, root), root);
}

proof fn eligible_is(all: Seq<Candidate>, root: u32)
    ensures
        forall|i: int|
            0 <= i < eligible(all, root).len() ==> evictable(#[trigger] eligible(all, root)[i], root),
    decreases all.len(),
{
    if all.len() > 0 {
        eligible_is(all.drop_last(), root);
        let head = eligible(all.drop_last(), root);
        assert forall|i: int| 0 <= i < eligible(all, root).len() implies evictable(
            #[trigger] eligible(all, root)[i],
            root,
        ) by {
            if i < head.len() {
                assert(eligible(all, root)[i] == head[i]);
            }
        }
    }
}

proof fn placed_among(s: Seq<Candidate>, c: Candidate, root: u32)
    requires
        evictable(c, root),
        forall|i: int| 0 <= i < s.len() ==> evictable(#[trigger] s[i], root),
    ensures
        forall|i: int| 0 <= i < placed(s, c).len() ==> evictable(#[trigger] placed(s, c)[i], root),
    decreases s.len(),
{
    if s.len() > 0 && sooner(c, s.last()) {
        placed_among(s.drop_last(), c, root);
        let head = placed(s.drop_last(), c);
        assert forall|i: int| 0 <= i < placed(s, c).len() implies evictable(
            #[trigger] placed(s, c)[i],
            root,
        ) by {
            if i < head.len() {
                assert(placed(s, c)[i] == head[i]);
            }
        }
    }
}

proof fn ranked_among(s: Seq<Candidate>, root: u32)
    requires
        forall|i: int| 0 <= i < s.len() ==> evictable(#[trigger] s[i], root),
    ensures
        forall|i: int| 0 <= i < ranked(s).len() ==> evictable(#[trigger] ranked(s)[i], root),
    decreases s.len(),
{
    if s.len() > 0 {
        ranked_among(s.drop_last(), root);
        placed_among(ranked(s.drop_last()), s.last(), root);
    }
}

/// Whoever has been idle for longest goes to sleep first.
pub proof fn the_idlest_sleep_first(s: Seq<Candidate>)
    ensures
        in_turn(ranked(s)),
    decreases s.len(),
{
    if s.len() > 0 {
        the_idlest_sleep_first(s.drop_last());
        placed_in_turn(ranked(s.drop_last()), s.last());
    }
}

/// Whether no instance goes to sleep after one that should go later.
pub open spec fn in_turn(s: Seq<Candidate>) -> bool {
    forall|i: int, j: int| 0 <= i < j < s.len() ==> !sooner(#[trigger] s[j], #[trigger] s[i])
}

proof fn placed_in_turn(s: Seq<Candidate>, c: Candidate)
    requires
        in_turn(s),
    ensures
        in_turn(placed(s, c)),
        forall|x: Candidate|
            (forall|i: int| 0 <= i < s.len() ==> !sooner(x, #[trigger] s[i])) && !sooner(x, c)
                ==> #[trigger] none_after(placed(s, c), x),
    decreases s.len(),
{
    let all = placed(s, c);
    if s.len() == 0 || !sooner(c, s.last()) {
        assert forall|i: int, j: int| 0 <= i < j < all.len() implies !sooner(
            #[trigger] all[j],
            #[trigger] all[i],
        ) by {
            if j < s.len() {
                assert(s[j] == all[j] && s[i] == all[i]);
            } else {
                assert(s[i] == all[i]);
                if i < s.len() - 1 {
                    assert(!sooner(s[s.len() - 1], s[i]));
                }
            }
        }
        assert forall|x: Candidate|
            (forall|i: int| 0 <= i < s.len() ==> !sooner(x, #[trigger] s[i])) && !sooner(
                x,
                c,
            ) implies #[trigger] none_after(all, x) by {
            assert forall|i: int| 0 <= i < all.len() implies !sooner(x, #[trigger] all[i]) by {
                if i < s.len() {
                    assert(all[i] == s[i]);
                }
            }
        }
    } else {
        let head = s.drop_last();
        placed_in_turn(head, c);
        let rest = placed(head, c);
        let z = s.last();
        assert(none_after(rest, z)) by {
            assert forall|i: int| 0 <= i < head.len() implies !sooner(z, #[trigger] head[i]) by {
                assert(head[i] == s[i]);
                assert(!sooner(s[s.len() - 1], s[i]));
            }
        }
        assert forall|i: int, j: int| 0 <= i < j < all.len() implies !sooner(
            #[trigger] all[j],
            #[trigger] all[i],
        ) by {
            assert(all[i] == rest[i]);
            if j < rest.len() {
                assert(all[j] == rest[j]);
            }
        }
        assert forall|x: Candidate|
            (forall|i: int| 0 <= i < s.len() ==> !sooner(x, #[trigger] s[i])) && !sooner(
                x,
                c,
            ) implies #[trigger] none_after(all, x) by {
            assert forall|i: int| 0 <= i < head.len() implies !sooner(x, #[trigger] head[i]) by {
                assert(head[i] == s[i]);
            }
            assert(none_after(rest, x));
            assert(!sooner(x, s[s.len() - 1]));
            assert forall|i: int| 0 <= i < all.len() implies !sooner(x, #[trigger] all[i]) by {
                if i < rest.len() {
                    assert(all[i] == rest[i]);
                }
            }
        }
    }
}

/// Whether `x` goes to sleep before none of these.
pub open spec fn none_after(s: Seq<Candidate>, x: Candidate) -> bool {
    forall|i: int| 0 <= i < s.len() ==> !sooner(x, #[trigger] s[i])
}

/// Stepping from one to the next tries the first in order, as many as it
/// takes, and those of them that can sleep are the ones that fall asleep.
pub proof fn stepping_puts_to_sleep(
    order: Seq<Candidate>,
    over: nat,
    can: spec_fn(Candidate) -> bool,
)
    ensures
        who_can(tried(order, over, false, can), can) == asleep(order, over, can),
        tried(order, over, false, can).len() <= order.len(),
        tried(order, over, false, can) == order.subrange(
            0,
            tried(order, over, false, can).len() as int,
        ),
        tried(order, over, false, can).len() < order.len() ==> asleep(order, over, can).len()
            == over,
    decreases order.len(),
{
    let all = tried(order, over, false, can);
    if over > 0 && order.len() > 0 {
        let rest = order.subrange(1, order.len() as int);
        let left: nat = if can(order[0]) {
            (over - 1) as nat
        } else {
            over
        };
        stepping_puts_to_sleep(rest, left, can);
        let then = tried(rest, over, can(order[0]), can);
        assert(then == tried(rest, left, false, can));
        assert(all.subrange(1, all.len() as int) =~= then);
        assert(all =~= order.subrange(0, all.len() as int)) by {
            assert forall|i: int| 0 <= i < all.len() implies all[i] == order[i] by {
                if i > 0 {
                    assert(all[i] == then[i - 1]);
                    assert(then[i - 1] == rest[i - 1]);
                }
            }
        }
        assert(who_can(all, can) =~= asleep(order, over, can));
    } else {
        assert(all =~= order.subrange(0, 0));
    }
}

/// No more fall asleep than have to, and none stays awake that could sleep
/// while more have to.
pub proof fn as_many_sleep_as_have_to(
    order: Seq<Candidate>,
    over: nat,
    can: spec_fn(Candidate) -> bool,
)
    ensures
        asleep(order, over, can).len() <= over,
        asleep(order, over, can).len() < over ==> forall|i: int|
            0 <= i < order.len() && can(#[trigger] order[i]) ==> asleep(order, over, can).contains(
                order[i],
            ),
    decreases order.len(),
{
    if over > 0 && order.len() > 0 {
        let rest = order.subrange(1, order.len() as int);
        let left: nat = if can(order[0]) {
            (over - 1) as nat
        } else {
            over
        };
        as_many_sleep_as_have_to(rest, left, can);
        let all = asleep(order, over, can);
        let tail = asleep(rest, left, can);
        if all.len() < over {
            assert forall|i: int| 0 <= i < order.len() && can(#[trigger] order[i]) implies
                all.contains(order[i]) by {
                if i == 0 {
                    assert(all[0] == order[0]);
                } else {
                    assert(rest[i - 1] == order[i]);
                    let k = choose|k: int| 0 <= k < tail.len() && tail[k] == order[i];
                    assert(all[k + all.len() - tail.len()] == order[i]);
                }
            }
        }
    }
}

/// The host never sleeps past a deadline that is still to come, nor longer
/// than a tick.
pub proof fn no_deadline_is_slept_through(next: Option<u128>, now: u128)
    ensures
        0 <= idle_for(next, now) <= IDLE_TICK,
        next matches Some(d) ==> d > now ==> now + idle_for(next, now) <= d,
{
}

/// Every reply queue that a listener names is drained.
pub proof fn every_reply_queue_is_drained(listeners: Seq<ListenerRt>, i: int)
    requires
        0 <= i < listeners.len(),
    ensures
        once(reply_names(listeners)).contains(listeners[i].reply_queue@),
{
    once_keeps(reply_names(listeners));
    assert(reply_names(listeners)[i] == listeners[i].reply_queue@);
    assert(reply_names(listeners).contains(listeners[i].reply_queue@));
}

/// A request never waits past its time for its queue to exist: tried again
/// then, it is delivered or refused.
pub proof fn a_wait_for_a_queue_ends(
    held: Seq<HeldRequest>,
    tries: Seq<Result<(), PushError>>,
    listeners: Seq<ListenerRt>,
    now: u128,
    i: int,
)
    requires
        tries.len() == held.len(),
        0 <= i < still_held(held, tries, listeners, now).len(),
    ensures
        ({
            let h = still_held(held, tries, listeners, now)[i];
            &&& held.contains(h)
            &&& waited_at(h.since, now) < listeners[h.ingress.listener as int].admit_ms * 1_000_000
        }),
    decreases held.len(),
{
    if held.len() > 0 {
        let head = held.drop_last();
        let before = still_held(head, tries, listeners, now);
        let h = still_held(held, tries, listeners, now)[i];
        if i < before.len() {
            still_held_uses_its_tries(head, tries, tries.drop_last(), listeners, now);
            a_wait_for_a_queue_ends(head, tries.drop_last(), listeners, now, i);
            let k = choose|k: int| 0 <= k < head.len() && head[k] == h;
            assert(held[k] == h);
        } else {
            assert(held[held.len() - 1] == h);
        }
    }
}

proof fn still_held_uses_its_tries(
    held: Seq<HeldRequest>,
    a: Seq<Result<(), PushError>>,
    b: Seq<Result<(), PushError>>,
    listeners: Seq<ListenerRt>,
    now: u128,
)
    requires
        a.len() >= held.len(),
        b.len() >= held.len(),
        forall|k: int| 0 <= k < held.len() ==> #[trigger] a[k] == b[k],
    ensures
        still_held(held, a, listeners, now) == still_held(held, b, listeners, now),
    decreases held.len(),
{
    if held.len() > 0 {
        assert(a[held.len() - 1] == b[held.len() - 1]);
        still_held_uses_its_tries(held.drop_last(), a, b, listeners, now);
    }
}

/// A parked instance goes on with the first queue that has what it waits for,
/// else where its time is up; else it stays.
pub proof fn a_parked_instance_goes_on_in_turn(
    p: Park,
    statuses: Seq<Option<QueueStatus>>,
    now: u128,
    k: int,
)
    requires
        0 <= k <= statuses.len(),
        forall|j: int| 0 <= j < k ==> !drive::serves(#[trigger] statuses[j], p.wait.for_space),
        k < statuses.len() ==> drive::serves(statuses[k], p.wait.for_space),
    ensures
        woken(p, statuses, now) == (if k < statuses.len() {
            HostMove::Resume(p.wait.queues@[k])
        } else if p.deadline is Some && p.deadline->0 <= now {
            HostMove::ResumeTimeout
        } else {
            HostMove::Stay
        }),
{
    drive::the_first_ready_queue_is_taken(statuses, p.wait.for_space, 0);
    assert forall|j: int| 0 <= j < k implies !drive::is_ready(
        #[trigger] statuses[j],
        p.wait.for_space,
    ) by {
        assert(!drive::serves(statuses[j], p.wait.for_space));
    }
    if k < statuses.len() {
        assert(drive::is_ready(statuses[k], p.wait.for_space));
    }
}

/// A wait is over when its time has passed since it began, and one without a
/// time is never over.
pub proof fn a_wait_lasts_its_time(p: Park, wait: WaitSet, now: u128)
    requires
        begins(p, wait, now),
    ensures
        p.wait == wait,
        wait.timeout is None ==> p.deadline is None,
        wait.timeout matches Some(t) ==> p.deadline is Some && p.deadline->0 - now == t,
{
}

/// Exactly the instances that are awake, are not the root and wake on a
/// message may be put to sleep.
pub proof fn who_may_sleep(all: Seq<Candidate>, root: u32)
    ensures
        eligible(all, root) == all.filter(
            |c: Candidate| c.resident && c.wake_on_message && c.id != root,
        ),
    decreases all.len(),
{
    reveal(Seq::filter);
    if all.len() > 0 {
        who_may_sleep(all.drop_last(), root);
    }
}

proof fn placed_keeps(s: Seq<Candidate>, c: Candidate)
    ensures
        placed(s, c).to_multiset() == s.to_multiset().insert(c),
    decreases s.len(),
{
    broadcast use vstd::seq_lib::group_to_multiset_ensures;

    if s.len() == 0 || !sooner(c, s.last()) {
        assert(placed(s, c).to_multiset() =~= s.to_multiset().insert(c));
    } else {
        placed_keeps(s.drop_last(), c);
        assert(s.drop_last().push(s.last()) =~= s);
        assert(placed(s, c).to_multiset() =~= s.to_multiset().insert(c));
    }
}

/// Everybody has a turn, once, whoever did work least recently first, and of
/// two that did so together the one that came later.
pub proof fn everybody_has_a_turn(s: Seq<Candidate>)
    ensures
        ranked(s).to_multiset() == s.to_multiset(),
        forall|i: int, j: int|
            0 <= i < j < ranked(s).len() ==> (#[trigger] ranked(s)[i]).last_active < (
            #[trigger] ranked(s)[j]).last_active || (ranked(s)[i].last_active == ranked(
                s,
            )[j].last_active && ranked(s)[i].id >= ranked(s)[j].id),
    decreases s.len(),
{
    broadcast use vstd::seq_lib::group_to_multiset_ensures;

    the_idlest_sleep_first(s);
    let all = ranked(s);
    assert forall|i: int, j: int| 0 <= i < j < all.len() implies (#[trigger] all[i]).last_active < (
    #[trigger] all[j]).last_active || (all[i].last_active == all[j].last_active && all[i].id
        >= all[j].id) by {
        assert(!sooner(all[j], all[i]));
    }
    if s.len() > 0 {
        everybody_has_a_turn(s.drop_last());
        placed_keeps(ranked(s.drop_last()), s.last());
        assert(s.drop_last().push(s.last()) =~= s);
    }
}

/// Where everybody can, the first in turn fall asleep, exactly as many as have
/// to.
pub proof fn the_first_in_turn_fall_asleep(order: Seq<Candidate>, over: nat)
    requires
        over <= order.len(),
    ensures
        asleep(order, over, |c: Candidate| true) == order.subrange(0, over as int),
    decreases order.len(),
{
    let can = |c: Candidate| true;
    if over > 0 {
        let rest = order.subrange(1, order.len() as int);
        the_first_in_turn_fall_asleep(rest, (over - 1) as nat);
        assert(asleep(order, over, can) =~= order.subrange(0, over as int));
    } else {
        assert(asleep(order, over, can) =~= order.subrange(0, 0));
    }
}

/// One step of putting to sleep: one that slept is counted off; the next is
/// tried while any still has to sleep and any is left.
pub proof fn a_step_counts_who_slept(order: Seq<Candidate>, over: nat, slept: bool)
    ensures
        ({
            let (rest, left, next) = stepped(order, over, slept);
            &&& slept && over > 0 ==> left == over - 1
            &&& !slept || over == 0 ==> left == over
            &&& next is Some <==> left > 0 && order.len() > 0
            &&& next is Some ==> order == seq![next->0] + rest
            &&& next is None ==> rest == order
        }),
{
    let (rest, left, next) = stepped(order, over, slept);
    if next is Some {
        assert(order =~= seq![next->0] + rest);
    }
}

/// The host sleeps until the next deadline, but for a millisecond at most.
pub proof fn the_host_sleeps_until_the_next_deadline(next: Option<u128>, now: u128)
    ensures
        next is None ==> idle_for(next, now) == 1_000_000,
        next matches Some(d) ==> idle_for(next, now) == (if d <= now {
            0
        } else if d <= now + 1_000_000 {
            d - now
        } else {
            1_000_000
        }),
{
}

/// A request that reached its queue is the program's; one whose queue does not
/// exist yet is held for as long as its listener says, in milliseconds;
/// everything else is refused on the program's behalf.
pub proof fn a_request_is_delivered_held_or_refused(
    pushed: Result<(), PushError>,
    waited: nat,
    admit_ms: u64,
)
    ensures
        delivery(pushed, waited, admit_ms) is Delivered <==> pushed is Ok,
        delivery(pushed, waited, admit_ms) is Hold <==> pushed == Err::<(), PushError>(
            PushError::UnknownQueue,
        ) && waited < 1_000_000 * admit_ms,
        match delivery(pushed, waited, admit_ms) {
            Delivery::Refuse(o) => o matches listen::Outcome::Refused { status, text } && match pushed {
                Err(PushError::UnknownQueue) => status == 503 && text@
                    == "the program declares no request queue\n"@,
                Err(PushError::Gone) => status == 503 && text@
                    == "the root instance is not resident\n"@,
                Err(PushError::Unknown) => status == 503 && text@
                    == "the root instance is not resident\n"@,
                Err(PushError::Limit) => status == 503 && text@
                    == "the request queue is full; try again\n"@,
                Err(PushError::Other) => status == 500 && text@ == "delivery failed\n"@,
                Ok(_) => false,
            },
            _ => true,
        },
{
}

proof fn refusals_are_kept(
    held: Seq<HeldRequest>,
    tries: Seq<Result<(), PushError>>,
    listeners: Seq<ListenerRt>,
    now: u128,
    e: (u32, listen::Outcome),
)
    ensures
        given_up(held, tries, listeners, now).contains(e) <==> exists|i: int|
            0 <= i < held.len() && (#[trigger] held[i]).ingress.token == e.0 && retried(
                held[i],
                tries[i],
                listeners,
                now,
            ) == Delivery::Refuse(e.1),
    decreases held.len(),
{
    if held.len() > 0 {
        let head = held.drop_last();
        let n = held.len() - 1;
        refusals_are_kept(head, tries, listeners, now, e);
        assert(forall|i: int| 0 <= i < n ==> (#[trigger] held[i]) == head[i]);
        assert(forall|i: int| 0 <= i < n ==> held[i] == (#[trigger] head[i]));
        assert(held[n] == held.last());
        let before = given_up(head, tries, listeners, now);
        let all = given_up(held, tries, listeners, now);
        if before.contains(e) {
            let k = choose|k: int| 0 <= k < before.len() && before[k] == e;
            assert(all[k] == e);
        }
        if retried(held[n], tries[n], listeners, now) is Refuse {
            assert(all[before.len() as int].0 == held[n].ingress.token);
            assert(Delivery::Refuse(all[before.len() as int].1) == retried(
                held[n],
                tries[n],
                listeners,
                now,
            ));
        }
        if all.contains(e) && !before.contains(e) {
            let k = choose|k: int| 0 <= k < all.len() && all[k] == e;
            if k < before.len() {
                assert(before[k] == e);
            }
        }
    }
}

proof fn holds_are_kept(
    held: Seq<HeldRequest>,
    tries: Seq<Result<(), PushError>>,
    listeners: Seq<ListenerRt>,
    now: u128,
    h: HeldRequest,
)
    ensures
        still_held(held, tries, listeners, now).contains(h) <==> exists|i: int|
            0 <= i < held.len() && (#[trigger] held[i]) == h && retried(
                held[i],
                tries[i],
                listeners,
                now,
            ) is Hold,
    decreases held.len(),
{
    if held.len() > 0 {
        let head = held.drop_last();
        let n = held.len() - 1;
        holds_are_kept(head, tries, listeners, now, h);
        assert(forall|i: int| 0 <= i < n ==> (#[trigger] held[i]) == head[i]);
        assert(forall|i: int| 0 <= i < n ==> held[i] == (#[trigger] head[i]));
        assert(held[n] == held.last());
        let before = still_held(head, tries, listeners, now);
        let all = still_held(held, tries, listeners, now);
        if before.contains(h) {
            let k = choose|k: int| 0 <= k < before.len() && before[k] == h;
            assert(all[k] == h);
        }
        if retried(held[n], tries[n], listeners, now) is Hold {
            assert(all[before.len() as int] == held[n]);
        }
        if all.contains(h) && !before.contains(h) {
            let k = choose|k: int| 0 <= k < all.len() && all[k] == h;
            if k < before.len() {
                assert(before[k] == h);
            }
        }
    }
}

/// A held request that is tried again is judged by how long it has waited and
/// by its own listener: it is held on, or refused to its own connection, or
/// delivered, and nothing is lost.
pub proof fn a_held_request_is_judged_by_its_own_listener(
    held: Seq<HeldRequest>,
    tries: Seq<Result<(), PushError>>,
    listeners: Seq<ListenerRt>,
    now: u128,
    i: int,
)
    requires
        0 <= i < held.len(),
        held[i].since <= now,
    ensures
        ({
            let what = delivery(
                tries[i],
                (now - held[i].since) as nat,
                listeners[held[i].ingress.listener as int].admit_ms,
            );
            &&& what is Hold ==> still_held(held, tries, listeners, now).contains(held[i])
            &&& what matches Delivery::Refuse(o) ==> given_up(
                held,
                tries,
                listeners,
                now,
            ).contains((held[i].ingress.token, o))
            &&& still_held(held, tries, listeners, now).len() + given_up(
                held,
                tries,
                listeners,
                now,
            ).len() <= held.len()
        }),
{
    let what = retried(held[i], tries[i], listeners, now);
    holds_are_kept(held, tries, listeners, now, held[i]);
    if let Delivery::Refuse(o) = what {
        refusals_are_kept(held, tries, listeners, now, (held[i].ingress.token, o));
    }
    nothing_is_doubled(held, tries, listeners, now);
}

proof fn nothing_is_doubled(
    held: Seq<HeldRequest>,
    tries: Seq<Result<(), PushError>>,
    listeners: Seq<ListenerRt>,
    now: u128,
)
    ensures
        still_held(held, tries, listeners, now).len() + given_up(held, tries, listeners, now).len()
            <= held.len(),
    decreases held.len(),
{
    if held.len() > 0 {
        nothing_is_doubled(held.drop_last(), tries, listeners, now);
    }
}

/// A reply queue that several listeners name is drained once.
pub proof fn a_queue_is_drained_once(names: Seq<Seq<char>>)
    ensures
        once(names).no_duplicates(),
        forall|n: Seq<char>| #[trigger] once(names).contains(n) <==> names.contains(n),
    decreases names.len(),
{
    once_keeps(names);
    if names.len() > 0 {
        a_queue_is_drained_once(names.drop_last());
        let rest = once(names.drop_last());
        let all = once(names);
        assert forall|i: int, j: int| 0 <= i < all.len() && 0 <= j < all.len() && i != j implies all[i]
            != all[j] by {
            if i < rest.len() && j < rest.len() {
                assert(all[i] == rest[i] && all[j] == rest[j]);
            } else if i < rest.len() {
                assert(rest.contains(rest[i]));
                assert(names.drop_last().contains(rest[i]));
            } else if j < rest.len() {
                assert(rest.contains(rest[j]));
                assert(names.drop_last().contains(rest[j]));
            }
        }
    }
}

/// An event tells the program what happened, to which label, and of a session
/// its number and how much passed.
pub proof fn an_event_says_what_happened(event: RelayEvent)
    ensures
        ({
            let m = event_msg(event);
            match event {
                RelayEvent::Parked { label } => {
                    &&& msg::member(m, "event"@) == Some(Msg::Text("parked"@))
                    &&& msg::member(m, "label"@) == Some(Msg::Text(label@))
                },
                RelayEvent::Claimed { label, session } => {
                    &&& msg::member(m, "event"@) == Some(Msg::Text("claimed"@))
                    &&& msg::member(m, "label"@) == Some(Msg::Text(label@))
                    &&& msg::member(m, "session"@) == Some(Msg::Int(session as int))
                },
                RelayEvent::Closed { label, session, bytes } => {
                    &&& msg::member(m, "event"@) == Some(Msg::Text("closed"@))
                    &&& msg::member(m, "label"@) == Some(Msg::Text(label@))
                    &&& msg::member(m, "session"@) == Some(Msg::Int(session as int))
                    &&& msg::member(m, "bytes"@) == Some(Msg::Int(bytes as int))
                },
            }
        }),
{
    reveal_strlit("event");
    reveal_strlit("label");
    reveal_strlit("session");
    reveal_strlit("bytes");
    assert("event"@[0] != "label"@[0] && "event"@[0] != "session"@[0] && "event"@[0]
        != "bytes"@[0] && "label"@[0] != "session"@[0] && "label"@[0] != "bytes"@[0]
        && "session"@[0] != "bytes"@[0]);
    reveal_with_fuel(msg::seek, 5);
}

/// A question whether a leg may come in names its token, the label and the
/// leg.
pub proof fn a_question_says_who_asks(tok: u64, label: Seq<char>, leg: Seq<char>)
    ensures
        ({
            let m = admit_msg(tok, label, leg);
            &&& msg::member(m, "event"@) == Some(Msg::Text("admit"@))
            &&& msg::as_u64(msg::member(m, "tok"@)) == Some(tok)
            &&& msg::member(m, "label"@) == Some(Msg::Text(label))
            &&& msg::member(m, "leg"@) == Some(Msg::Text(leg))
        }),
{
    reveal_strlit("event");
    reveal_strlit("tok");
    reveal_strlit("label");
    reveal_strlit("leg");
    assert("event"@[0] != "label"@[0] && "event"@[0] != "tok"@[0] && "event"@[0] != "leg"@[0]
        && "label"@[0] != "tok"@[0] && "label"@.len() != "leg"@.len() && "tok"@[0] != "leg"@[0]);
    reveal_with_fuel(msg::seek, 5);
}

/// An instance was last active when it was noted to be; one that never was
/// counts as active before any other.
pub proof fn who_never_worked_is_the_oldest(s: &DeployHost, id: u32, other: u32)
    ensures
        s.active@.contains_key(id) ==> s.activity(id) == s.active@[id],
        !s.active@.contains_key(id) ==> s.activity(id) <= s.activity(other),
{
}

} // verus!
