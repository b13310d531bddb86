//! A run of one program: what each answer of the drive loop means for it,
//! and what is said when it ends.

use crate::drive::{Next, Outcome};
use crate::text;
use vstd::prelude::*;

verus! {

/// Where an escape from the budget is explained.
pub const BUDGET_ESCAPE_DOC: &'static str = "doc/Ask-0.5.0-Reply.md \u{a7}1.2";

/// What the end of a run comes to, where `lost` is what the connectors lost
/// when they were taken down.
pub open spec fn ending(lost: Seq<Seq<char>>) -> Result<(), Seq<char>> {
    if lost.len() == 0 {
        Ok(())
    } else {
        Err(text::joined(lost, "; "@))
    }
}

/// Tells whether a run ended cleanly. Work that a connector lost is an
/// error, not a note.
pub fn finish(lost: &Vec<String>) -> (r: Result<(), String>)
    ensures
        match ending(text::texts(lost@)) {
            Ok(_) => r is Ok,
            Err(what) => r matches Err(why) && why@ == what,
        },
{
    if lost.len() == 0 {
        return Ok(());
    }
    Err(text::join(lost, "; "))
}

/// What an answer of the drive loop means for a run: `None` where the host
/// sleeps and goes on.
pub open spec fn meaning(next: Next, lost: Seq<Seq<char>>) -> Option<Result<(), Seq<char>>> {
    match next {
        Next::Sleep(_) => None,
        Next::Done(Outcome::Exited) => Some(ending(lost)),
        Next::Done(Outcome::Exceeded) => Some(
            Err(
                "the program exhausted its instruction budget and then continued: the budget was caught as an ordinary error and stopped being enforced. Exit status reports it because nothing else can ("@
                    + BUDGET_ESCAPE_DOC@ + ")."@,
            ),
        ),
        Next::Failed(why) => Some(Err(why@)),
        Next::Stuck { for_space } => Some(
            if for_space {
                Err("the program is parked waiting for space in a queue this run never drains"@)
            } else {
                Err(
                    "the program is parked waiting on queues nothing in `drt run` will push to (a served deployment or a swarm parent would); it will never wake"@,
                )
            },
        ),
        Next::Input => Some(
            Err("the program is waiting for input, and `drt run` has none to give"@),
        ),
    }
}

/// What an answer of the drive loop means for a run.
pub fn settle(next: &Next, lost: &Vec<String>) -> (r: Option<Result<(), String>>)
    ensures
        match meaning(*next, text::texts(lost@)) {
            None => r is None,
            Some(Ok(_)) => r matches Some(Ok(_)),
            Some(Err(what)) => r matches Some(Err(why)) && why@ == what,
        },
{
    match next {
        Next::Sleep(_) => None,
        Next::Done(Outcome::Exited) => Some(finish(lost)),
        Next::Done(Outcome::Exceeded) => Some(
            Err(
                text::join3(
                    "the program exhausted its instruction budget and then continued: the budget was caught as an ordinary error and stopped being enforced. Exit status reports it because nothing else can (",
                    BUDGET_ESCAPE_DOC,
                    ").",
                ),
            ),
        ),
        Next::Failed(why) => Some(Err(why.clone())),
        Next::Stuck { for_space } => Some(
            Err(
                if *for_space {
                    "the program is parked waiting for space in a queue this run never drains".to_owned()
                } else {
                    "the program is parked waiting on queues nothing in `drt run` will push to (a served deployment or a swarm parent would); it will never wake".to_owned()
                },
            ),
        ),
        Next::Input => Some(
            Err("the program is waiting for input, and `drt run` has none to give".to_owned()),
        ),
    }
}

// ---- laws ----

/// A run reports success only where the program finished inside its budget
/// and no connector lost anything.
pub proof fn success_hides_nothing(next: Next, lost: Seq<Seq<char>>)
    requires
        meaning(next, lost) matches Some(Ok(_)),
    ensures
        next == Next::Done(Outcome::Exited),
        lost.len() == 0,
{
}

/// A run goes on while the host sleeps and ends with everything else: well
/// where the program finished inside its budget and nothing was lost, and
/// otherwise with what went wrong.
pub proof fn a_run_ends_with_what_happened(next: Next, lost: Seq<Seq<char>>)
    ensures
        meaning(next, lost) is None <==> next is Sleep,
        next == Next::Done(Outcome::Exited) ==> meaning(next, lost) == (if lost.len() == 0 {
            Some(Ok::<(), Seq<char>>(()))
        } else {
            Some(Err(text::joined(lost, "; "@)))
        }),
        next == Next::Done(Outcome::Exceeded) ==> meaning(next, lost) matches Some(Err(_)),
        next matches Next::Failed(why) ==> meaning(next, lost) == Some(Err::<(), Seq<char>>(why@)),
        next is Stuck ==> meaning(next, lost) matches Some(Err(_)),
        next is Input ==> meaning(next, lost) matches Some(Err(_)),
        next matches Next::Stuck { for_space } ==> meaning(next, lost) == Some(
            Err::<(), Seq<char>>(
                if for_space {
                    "the program is parked waiting for space in a queue this run never drains"@
                } else {
                    "the program is parked waiting on queues nothing in `drt run` will push to (a served deployment or a swarm parent would); it will never wake"@
                },
            ),
        ),
{
}

/// A run that cannot go on says which kind of wait it is in.
pub proof fn a_stuck_run_says_what_it_waits_for(lost: Seq<Seq<char>>, one: Seq<char>)
    ensures
        meaning(Next::Stuck { for_space: true }, lost) == Some(
            Err::<(), Seq<char>>(
                "the program is parked waiting for space in a queue this run never drains"@,
            ),
        ),
        meaning(Next::Stuck { for_space: false }, lost) == Some(
            Err::<(), Seq<char>>(
                "the program is parked waiting on queues nothing in `drt run` will push to (a served deployment or a swarm parent would); it will never wake"@,
            ),
        ),
        meaning(Next::Input, lost) == Some(
            Err::<(), Seq<char>>(
                "the program is waiting for input, and `drt run` has none to give"@,
            ),
        ),
        meaning(Next::Done(Outcome::Exceeded), lost) == Some(
            Err::<(), Seq<char>>(
                "the program exhausted its instruction budget and then continued: the budget was caught as an ordinary error and stopped being enforced. Exit status reports it because nothing else can ("@
                    + BUDGET_ESCAPE_DOC@ + ")."@,
            ),
        ),
        ending(Seq::empty()) == Ok::<(), Seq<char>>(()),
        ending(seq![one]) == Err::<(), Seq<char>>(one),
        lost.len() > 0 ==> ending(lost.push(one)) == Err::<(), Seq<char>>(
            ending(lost)->Err_0 + "; "@ + one,
        ),
{
    if lost.len() > 0 {
        text::a_join_puts_the_separator_between(lost, one, "; "@);
    }
}

} // verus!
