//! A terminal over an instance: lines in, answers out, and when a line goes
//! on in the next.

use crate::drive::Next;
use crate::msg;
use crate::msg::{Datum, Msg};
use crate::text;
use vstd::prelude::*;

verus! {

/// The queue that lines go in by.
pub const IN: &'static str = "repl/in";

/// The queue that answers come out by.
pub const OUT: &'static str = "repl/out";

/// The terminal's half of the instance.
#[derive(Debug)]
pub struct Repl {
    /// What earlier lines of an unfinished text held.
    pub pending: String,
    /// Whether the last answer said that the text is unfinished.
    pub want_more: bool,
}

/// Where a line of an answer goes.
#[derive(Debug)]
pub enum Shown {
    Nothing,
    Out(String),
    Error(String),
}

/// Where a line of an answer goes, as mathematics.
#[verifier::ext_equal]
pub enum ShownView {
    Nothing,
    Out(Seq<char>),
    Error(Seq<char>),
}

impl Shown {
    /// The line, as mathematics.
    pub open spec fn view(&self) -> ShownView {
        match self {
            Shown::Nothing => ShownView::Nothing,
            Shown::Out(s) => ShownView::Out(s@),
            Shown::Error(s) => ShownView::Error(s@),
        }
    }
}

/// Whether an answer says that the text is unfinished.
pub open spec fn unfinished(m: Msg) -> bool {
    msg::as_bool(msg::member(m, "more"@)) == Some(true)
}

/// What an answer shows.
pub open spec fn answer_shown(m: Msg) -> ShownView {
    if unfinished(m) {
        ShownView::Nothing
    } else {
        match (msg::as_bool(msg::member(m, "ok"@)) == Some(true), msg::as_text(
            msg::member(m, "text"@),
        )) {
            (true, Some(t)) => ShownView::Out(t),
            (true, None) => ShownView::Nothing,
            (false, Some(t)) => ShownView::Error(t),
            (false, None) => ShownView::Error("the repl answered nothing"@),
        }
    }
}

/// What an answer shows, and whether it says that the text is unfinished.
pub fn show_answer(value: &Datum) -> (r: (Shown, bool))
    ensures
        r.0@ == answer_shown(value@),
        r.1 == unfinished(value@),
{
    let more: bool = match msg::truth(msg::field(value, "more")) {
        Some(b) => b,
        None => false,
    };
    if more {
        return (Shown::Nothing, true);
    }
    let ok: bool = match msg::truth(msg::field(value, "ok")) {
        Some(b) => b,
        None => false,
    };
    match msg::words(msg::field(value, "text")) {
        Some(t) => if ok {
            (Shown::Out(t), false)
        } else {
            (Shown::Error(t), false)
        },
        None => if ok {
            (Shown::Nothing, false)
        } else {
            (Shown::Error("the repl answered nothing".to_owned()), false)
        },
    }
}

/// What the bytes of an answer show; bytes that are no message show
/// nothing.
pub fn print_answer(raw: &[u8]) -> (r: (Shown, bool))
    ensures
        match msg::unpacked(raw@) {
            Some(m) => r.0@ == answer_shown(m) && r.1 == unfinished(m),
            None => r.0 is Nothing && !r.1,
        },
{
    match msg::decode(raw) {
        Ok(value) => show_answer(&value),
        Err(_) => (Shown::Nothing, false),
    }
}

/// Whether one of the answers says that the text is unfinished.
pub open spec fn any_unfinished(raws: Seq<Vec<u8>>) -> bool {
    exists|i: int|
        0 <= i < raws.len() && (msg::unpacked((#[trigger] raws[i])@) matches Some(m) && unfinished(
            m,
        ))
}

/// Whether a line is worth sending: one that is blank is not, unless it goes
/// on with an unfinished text.
pub open spec fn worth(want_more: bool, line: Seq<char>) -> bool {
    want_more || text::trimmed(line).len() > 0
}

/// The text that is sent with one more line.
pub open spec fn with_line(pending: Seq<char>, line: Seq<char>) -> Seq<char> {
    if pending.len() == 0 {
        line
    } else {
        pending.push('\n') + line
    }
}

impl Repl {
    /// A terminal that has read nothing.
    pub fn new() -> (r: Repl)
        ensures
            r.pending@.len() == 0,
            !r.want_more,
    {
        let r = Repl { pending: String::new(), want_more: false };
        r
    }

    /// What the answer of the drive loop means for a terminal: a park that
    /// no line can end is a failure.
    pub fn tick(next: Next) -> (r: Next)
        ensures
            match next {
                Next::Stuck { .. } => r matches Next::Failed(why) && why@
                    == "the repl parked on something the terminal cannot wake"@,
                _ => r == next,
            },
    {
        match next {
            Next::Stuck { .. } => Next::Failed(
                "the repl parked on something the terminal cannot wake".to_owned(),
            ),
            other => other,
        }
    }

    /// Whether the next line goes on with an unfinished text.
    pub fn continuing(&self) -> (r: bool)
        ensures
            r == self.want_more,
    {
        self.want_more
    }

    /// The prompt for the next line.
    pub fn prompt(&self) -> (r: &'static str)
        ensures
            r@ == (if self.want_more {
                ">> "@
            } else {
                "dv> "@
            }),
    {
        if self.want_more {
            ">> "
        } else {
            "dv> "
        }
    }

    /// Takes in a line, and gives the message to send: `None` where there is
    /// nothing to send.
    pub fn feed(&mut self, line: &str) -> (r: Option<Vec<u8>>)
        ensures
            final(self).want_more == old(self).want_more,
            if worth(old(self).want_more, line@) {
                &&& final(self).pending@ == with_line(old(self).pending@, line@)
                &&& r matches Some(sent) && sent@ == msg::packed(Msg::Text(final(self).pending@))
            } else {
                &&& final(self).pending@ == old(self).pending@
                &&& r is None
            },
    {
        if !self.want_more && text::trim(line).as_str().is_empty() {
            return None;
        }
        if !self.pending.as_str().is_empty() {
            self.pending.push('\n');
            self.pending.append(line);
        } else {
            self.pending.append(line);
            assert(self.pending@ =~= line@);
        }
        let value = msg::say(self.pending.as_str());
        Some(msg::encode(&value))
    }

    /// Takes in the answers that came since the last line, and gives what
    /// they show, in order. The text is kept only where one of them says
    /// that it is unfinished.
    pub fn print_answers(&mut self, raws: &Vec<Vec<u8>>) -> (r: Vec<Shown>)
        ensures
            r@.len() == raws@.len(),
            forall|i: int|
                0 <= i < r@.len() ==> (#[trigger] r@[i])@ == (match msg::unpacked(raws@[i]@) {
                    Some(m) => answer_shown(m),
                    None => ShownView::Nothing,
                }),
            final(self).want_more == any_unfinished(raws@),
            final(self).pending@ == (if any_unfinished(raws@) {
                old(self).pending@
            } else {
                Seq::<char>::empty()
            }),
    {
        let mut r: Vec<Shown> = Vec::new();
        let mut more: bool = false;
        let mut i: usize = 0;
        while i < raws.len()
            invariant
                i <= raws.len(),
                r@.len() == i,
                forall|k: int|
                    0 <= k < i ==> (#[trigger] r@[k])@ == (match msg::unpacked(raws@[k]@) {
                        Some(m) => answer_shown(m),
                        None => ShownView::Nothing,
                    }),
                more == exists|k: int|
                    0 <= k < i && (msg::unpacked((#[trigger] raws@[k])@) matches Some(m)
                        && unfinished(m)),
            decreases raws.len() - i,
        {
            let (shown, unfinished_now) = print_answer(raws[i].as_slice());
            r.push(shown);
            if unfinished_now {
                more = true;
            }
            i = i + 1;
        }
        self.want_more = more;
        if !more {
            self.pending = String::new();
        }
        r
    }
}

/// What sending a line came to: the program has to have declared its input
/// queue, and the queue has to have room.
pub fn sent(declared: bool, accepted: bool) -> (r: Result<(), String>)
    ensures
        if !declared {
            r matches Err(why) && why@ == "the repl program never declared its input queue"@
        } else if !accepted {
            r matches Err(why) && why@ == "the repl's input queue is full"@
        } else {
            r is Ok
        },
{
    if !declared {
        Err("the repl program never declared its input queue".to_owned())
    } else if !accepted {
        Err("the repl's input queue is full".to_owned())
    } else {
        Ok(())
    }
}

// ---- laws ----

/// A text that goes on over lines is sent whole, line for line, each time
/// one more has come: the earlier lines stay in front.
pub proof fn earlier_lines_stay(pending: Seq<char>, line: Seq<char>)
    ensures
        text::begins(with_line(pending, line), pending),
        text::ends(with_line(pending, line), line),
{
    let all = with_line(pending, line);
    assert(all.subrange(0, pending.len() as int) =~= pending);
    assert(all.subrange(all.len() - line.len(), all.len() as int) =~= line);
}

/// What an answer shows: its text, where things go well or where they do not,
/// and nothing while the text is unfinished.
pub proof fn an_answer_shows_its_text(m: Msg, t: Seq<char>)
    ensures
        msg::member(m, "more"@) == Some(Msg::Bool(true)) ==> answer_shown(m)
            == ShownView::Nothing && unfinished(m),
        msg::member(m, "more"@) != Some(Msg::Bool(true)) ==> !unfinished(m),
        !unfinished(m) && msg::member(m, "ok"@) == Some(Msg::Bool(true)) && msg::member(m, "text"@)
            == Some(Msg::Text(t)) ==> answer_shown(m) == ShownView::Out(t),
        !unfinished(m) && msg::member(m, "ok"@) != Some(Msg::Bool(true)) && msg::member(m, "text"@)
            == Some(Msg::Text(t)) ==> answer_shown(m) == ShownView::Error(t),
        !unfinished(m) && msg::member(m, "ok"@) != Some(Msg::Bool(true)) && msg::member(m, "text"@)
            is None ==> answer_shown(m) == ShownView::Error("the repl answered nothing"@),
{
}

/// A line is sent alone, or behind the lines before it with a line feed
/// between; a blank one is sent only where it goes on with a text.
pub proof fn a_line_goes_behind_those_before(pending: Seq<char>, line: Seq<char>)
    ensures
        with_line(Seq::empty(), line) == line,
        pending.len() > 0 ==> with_line(pending, line) == pending + seq!['\n'] + line,
        worth(true, line),
        worth(false, line) <==> text::trimmed(line).len() > 0,
{
    assert(pending.push('\n') + line =~= pending + seq!['\n'] + line);
}

/// A text is unfinished where one of its answers says so.
pub proof fn one_answer_can_ask_for_more(raws: Seq<Vec<u8>>, raw: Vec<u8>)
    ensures
        !any_unfinished(Seq::empty()),
        any_unfinished(raws.push(raw)) <==> any_unfinished(raws) || (msg::unpacked(raw@) is Some
            && unfinished(msg::unpacked(raw@)->0)),
{
    let all = raws.push(raw);
    if any_unfinished(raws) {
        let i = choose|i: int|
            0 <= i < raws.len() && (msg::unpacked((#[trigger] raws[i])@) matches Some(m)
                && unfinished(m));
        assert(all[i] == raws[i]);
    }
    if msg::unpacked(raw@) is Some && unfinished(msg::unpacked(raw@)->0) {
        assert(all[raws.len() as int] == raw);
    }
    if any_unfinished(all) {
        let i = choose|i: int|
            0 <= i < all.len() && (msg::unpacked((#[trigger] all[i])@) matches Some(m)
                && unfinished(m));
        if i < raws.len() {
            assert(raws[i] == all[i]);
        }
    }
}

/// What is typed goes to the program's one queue, and what it answers comes
/// from the other.
pub proof fn the_two_queues_are_named()
    ensures
        IN@ == "repl/in"@,
        OUT@ == "repl/out"@,
{
}

} // verus!
