//! The drive loop as a state machine: what an instance needs of its host
//! next, and what becomes of it when the host has done that.
//!
//! Times are in nanoseconds on the host's clock.

use vstd::prelude::*;

verus! {

/// How long the host sleeps while the answer of a connector is in flight.
pub const POLL_TICK: u128 = 1_000_000;

/// How a run ended.
#[derive(Clone, Copy, Debug, PartialEq, Eq, Structural)]
pub enum Outcome {
    Exited,
    /// It finished, but ran past its budget on the way.
    Exceeded,
}

/// What the host does next.
#[derive(Debug)]
pub enum Next {
    /// Nothing to do until this many nanoseconds have passed.
    Sleep(u128),
    /// The instance waits on the queue that the host reads input into.
    Input,
    /// Parked on something that nobody will ever push to; `for_space` where
    /// it waits for room in a queue that nothing drains.
    Stuck { for_space: bool },
    /// It ran to completion.
    Done(Outcome),
    /// It failed; every later tick says so again.
    Failed(String),
}

/// What an instance is parked on.
#[derive(Debug)]
pub struct WaitSet {
    /// The queues, in the order in which the program named them.
    pub queues: Vec<u64>,
    /// Whether it waits for room rather than for a message.
    pub for_space: bool,
    /// How long it waits, where that is bounded.
    pub timeout: Option<u128>,
}

/// How full a queue is.
#[derive(Clone, Copy, Debug, PartialEq, Eq, Structural)]
pub struct QueueStatus {
    pub len: usize,
    pub capacity: usize,
}

/// What a step of an instance came to.
#[derive(Debug)]
pub enum Step {
    Parked(WaitSet),
    Done,
}

/// Where an instance stands.
#[derive(Debug)]
pub enum State {
    /// Loaded, and not run yet.
    Fresh,
    Parked { wait: WaitSet, deadline: Option<u128> },
    Done(Outcome),
    Failed(String),
}

/// What is done to an instance next, or asked of its host.
#[derive(Debug)]
pub enum Move {
    /// Run it for the first time.
    Run,
    /// Resume it: this queue is ready.
    Resume(u64),
    /// Resume it: its time is up.
    ResumeTimeout,
    /// Ask the host.
    Ask(Next),
}

/// One instance, driven.
#[derive(Debug)]
pub struct Solo {
    pub state: State,
}

/// Whether a queue is ready for an instance that waits for room, or for a
/// message.
pub open spec fn is_ready(status: Option<QueueStatus>, for_space: bool) -> bool {
    match status {
        Some(q) => if for_space {
            q.len < q.capacity
        } else {
            q.len > 0
        },
        None => false,
    }
}

/// The place of the first queue, from `i` on, that is ready.
pub open spec fn first_ready(
    statuses: Seq<Option<QueueStatus>>,
    for_space: bool,
    i: int,
) -> Option<int>
    decreases statuses.len() - i,
{
    if i < 0 || i >= statuses.len() {
        None
    } else if is_ready(statuses[i], for_space) {
        Some(i)
    } else {
        first_ready(statuses, for_space, i + 1)
    }
}

/// How long the host sleeps until a deadline.
pub open spec fn nap(deadline: u128, now: u128, outstanding: bool) -> int {
    let left = deadline - now;
    if outstanding && left > POLL_TICK {
        POLL_TICK as int
    } else {
        left
    }
}

/// What a parked instance needs next. A queue that is ready comes before a
/// deadline, and input before time.
pub open spec fn parked_next(
    wait: WaitSet,
    deadline: Option<u128>,
    statuses: Seq<Option<QueueStatus>>,
    input: Option<u64>,
    outstanding: bool,
    now: u128,
    r: Move,
) -> bool {
    match first_ready(statuses, wait.for_space, 0) {
        Some(i) => r matches Move::Resume(q) && q == wait.queues@[i],
        None => if input matches Some(q) && wait.queues@.contains(q) {
            r matches Move::Ask(Next::Input)
        } else {
            match deadline {
                Some(d) => if now >= d {
                    r is ResumeTimeout
                } else {
                    r matches Move::Ask(Next::Sleep(t)) && t == nap(d, now, outstanding)
                },
                None => if outstanding {
                    r matches Move::Ask(Next::Sleep(t)) && t == POLL_TICK
                } else {
                    r matches Move::Ask(Next::Stuck { for_space }) && for_space == wait.for_space
                },
            }
        },
    }
}

pub(crate) fn find_ready(statuses: &Vec<Option<QueueStatus>>, for_space: bool) -> (r: Option<usize>)
    ensures
        match r {
            Some(i) => first_ready(statuses@, for_space, 0) == Some(i as int) && i
                < statuses.len(),
            None => first_ready(statuses@, for_space, 0) is None,
        },
{
    let mut i: usize = 0;
    while i < statuses.len()
        invariant
            i <= statuses.len(),
            first_ready(statuses@, for_space, 0) == first_ready(statuses@, for_space, i as int),
        decreases statuses.len() - i,
    {
        let ready: bool = match &statuses[i] {
            Some(q) => if for_space {
                q.len < q.capacity
            } else {
                q.len > 0
            },
            None => false,
        };
        if ready {
            return Some(i);
        }
        i = i + 1;
    }
    None
}

fn waits_on(queues: &Vec<u64>, q: u64) -> (r: bool)
    ensures
        r == queues@.contains(q),
{
    let mut i: usize = 0;
    while i < queues.len()
        invariant
            i <= queues.len(),
            forall|k: int| 0 <= k < i ==> queues@[k] != q,
        decreases queues.len() - i,
    {
        if queues[i] == q {
            return true;
        }
        i = i + 1;
    }
    false
}

impl Solo {
    /// An instance that is loaded; nothing runs until the first tick.
    pub fn load() -> (r: Solo)
        ensures
            r.state is Fresh,
    {
        Solo { state: State::Fresh }
    }

    /// What the instance needs next. Its hostcalls have been answered;
    /// `statuses` is how full each queue is that it waits on, `input` the
    /// queue that the host feeds lines into, and `outstanding` whether an
    /// answer is in flight.
    pub fn tick(
        &self,
        statuses: &Vec<Option<QueueStatus>>,
        input: Option<u64>,
        outstanding: bool,
        now: u128,
    ) -> (r: Move)
        requires
            self.state matches State::Parked { wait, .. } ==> statuses@.len() == wait.queues@.len(),
        ensures
            match self.state {
                State::Fresh => r is Run,
                State::Done(how) => r matches Move::Ask(Next::Done(o)) && o == how,
                State::Failed(what) => r matches Move::Ask(Next::Failed(why)) && why@ == what@,
                State::Parked { wait, deadline } => parked_next(
                    wait,
                    deadline,
                    statuses@,
                    input,
                    outstanding,
                    now,
                    r,
                ),
            },
    {
        match &self.state {
            State::Fresh => Move::Run,
            State::Done(how) => Move::Ask(Next::Done(*how)),
            State::Failed(why) => Move::Ask(Next::Failed(why.clone())),
            State::Parked { wait, deadline } => {
                if let Some(i) = find_ready(statuses, wait.for_space) {
                    return Move::Resume(wait.queues[i]);
                }
                if let Some(q) = input {
                    if waits_on(&wait.queues, q) {
                        return Move::Ask(Next::Input);
                    }
                }
                match deadline {
                    Some(d) => {
                        if now >= *d {
                            return Move::ResumeTimeout;
                        }
                        let left: u128 = *d - now;
                        if outstanding && left > POLL_TICK {
                            Move::Ask(Next::Sleep(POLL_TICK))
                        } else {
                            Move::Ask(Next::Sleep(left))
                        }
                    },
                    None => if outstanding {
                        Move::Ask(Next::Sleep(POLL_TICK))
                    } else {
                        Move::Ask(Next::Stuck { for_space: wait.for_space })
                    },
                }
            },
        }
    }

    /// Takes in what a step came to. `exceeded` is whether the instance has
    /// run past its budget.
    pub fn settle(&mut self, step: Result<Step, String>, exceeded: bool, now: u128)
        requires
            step matches Ok(Step::Parked(w)) && w.timeout matches Some(t) ==> now + t <= u128::MAX,
        ensures
            match step {
                Ok(Step::Parked(w)) => final(self).state matches State::Parked { wait, deadline }
                    && wait == w && match w.timeout {
                    Some(t) => deadline matches Some(d) && d == now + t,
                    None => deadline is None,
                },
                Ok(Step::Done) => final(self).state == State::Done(
                    if exceeded {
                        Outcome::Exceeded
                    } else {
                        Outcome::Exited
                    },
                ),
                Err(why) => final(self).state == State::Failed(why),
            },
    {
        self.state =
        match step {
            Ok(Step::Parked(wait)) => {
                let deadline: Option<u128> = match wait.timeout {
                    Some(t) => Some(now + t),
                    None => None,
                };
                State::Parked { wait, deadline }
            },
            Ok(Step::Done) => State::Done(
                if exceeded {
                    Outcome::Exceeded
                } else {
                    Outcome::Exited
                },
            ),
            Err(why) => State::Failed(why),
        };
    }
}

// ---- laws ----

/// A message that is there comes before a deadline, however late it is.
pub proof fn a_ready_queue_comes_first(
    wait: WaitSet,
    deadline: Option<u128>,
    statuses: Seq<Option<QueueStatus>>,
    input: Option<u64>,
    outstanding: bool,
    now: u128,
    r: Move,
)
    requires
        parked_next(wait, deadline, statuses, input, outstanding, now, r),
        first_ready(statuses, wait.for_space, 0) is Some,
    ensures
        r is Resume,
{
}

/// A sleep is never longer than what is left until the deadline, nor than a
/// tick while an answer is in flight, and it always passes some time.
pub proof fn a_sleep_is_bounded(
    wait: WaitSet,
    deadline: Option<u128>,
    statuses: Seq<Option<QueueStatus>>,
    input: Option<u64>,
    outstanding: bool,
    now: u128,
    t: u128,
)
    requires
        parked_next(
            wait,
            deadline,
            statuses,
            input,
            outstanding,
            now,
            Move::Ask(Next::Sleep(t)),
        ),
    ensures
        0 < t,
        deadline matches Some(d) ==> now + t <= d,
        outstanding ==> t <= POLL_TICK,
{
}

/// An instance is called stuck only where nothing can wake it: no queue of
/// its is ready, no deadline runs, and no answer is in flight.
pub proof fn stuck_means_stuck(
    wait: WaitSet,
    deadline: Option<u128>,
    statuses: Seq<Option<QueueStatus>>,
    input: Option<u64>,
    outstanding: bool,
    now: u128,
    r: Move,
)
    requires
        parked_next(wait, deadline, statuses, input, outstanding, now, r),
        r matches Move::Ask(Next::Stuck { .. }),
    ensures
        first_ready(statuses, wait.for_space, 0) is None,
        deadline is None,
        !outstanding,
        input matches Some(q) ==> !wait.queues@.contains(q),
{
}

/// The queue that is resumed is the first that is ready, in the order in
/// which the program named them.
pub proof fn the_first_ready_queue_is_taken(
    statuses: Seq<Option<QueueStatus>>,
    for_space: bool,
    i: int,
)
    requires
        0 <= i <= statuses.len(),
    ensures
        match first_ready(statuses, for_space, i) {
            Some(k) => i <= k < statuses.len() && is_ready(statuses[k], for_space) && forall|j: int|
                i <= j < k ==> !is_ready(#[trigger] statuses[j], for_space),
            None => forall|j: int|
                i <= j < statuses.len() ==> !is_ready(#[trigger] statuses[j], for_space),
        },
    decreases statuses.len() - i,
{
    if i < statuses.len() && !is_ready(statuses[i], for_space) {
        the_first_ready_queue_is_taken(statuses, for_space, i + 1);
    }
}

/// Whether a queue has what is waited for: room below its capacity, or a
/// message.
pub open spec fn serves(status: Option<QueueStatus>, for_space: bool) -> bool {
    match status {
        Some(q) => (for_space && q.len < q.capacity) || (!for_space && q.len != 0),
        None => false,
    }
}

/// What becomes of a parked instance: the first queue that has what it waits
/// for resumes it; else its input is read where it waits on that; else its
/// time is up, or the host sleeps until it is, in short naps while an answer
/// is in flight; and where nothing can wake it, it is stuck.
pub proof fn a_parked_instance_is_woken_in_turn(
    wait: WaitSet,
    deadline: Option<u128>,
    statuses: Seq<Option<QueueStatus>>,
    input: Option<u64>,
    outstanding: bool,
    now: u128,
    r: Move,
    k: int,
)
    requires
        parked_next(wait, deadline, statuses, input, outstanding, now, r),
        0 <= k <= statuses.len(),
        statuses.len() == wait.queues@.len(),
        forall|j: int| 0 <= j < k ==> !serves(#[trigger] statuses[j], wait.for_space),
        k < statuses.len() ==> serves(statuses[k], wait.for_space),
    ensures
        if k < statuses.len() {
            r == Move::Resume(wait.queues@[k])
        } else if input is Some && wait.queues@.contains(input->0) {
            r == Move::Ask(Next::Input)
        } else if deadline is Some && deadline->0 <= now {
            r == Move::ResumeTimeout
        } else if deadline is Some {
            r == Move::Ask(
                Next::Sleep(
                    if outstanding && deadline->0 - now > 1_000_000 {
                        1_000_000u128
                    } else {
                        (deadline->0 - now) as u128
                    },
                ),
            )
        } else if outstanding {
            r == Move::Ask(Next::Sleep(1_000_000u128))
        } else {
            r == Move::Ask(Next::Stuck { for_space: wait.for_space })
        },
{
    the_first_ready_queue_is_taken(statuses, wait.for_space, 0);
    assert forall|j: int| 0 <= j < k implies !is_ready(#[trigger] statuses[j], wait.for_space) by {
        assert(!serves(statuses[j], wait.for_space));
    }
    if k < statuses.len() {
        assert(is_ready(statuses[k], wait.for_space));
    }
}

} // verus!
