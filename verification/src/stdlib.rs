//! The programs that this binary carries, and the report of one of them:
//! what a start would resolve, with nothing run.

use crate::consent_gate::ConsentCheck;
use crate::drt_root;
use crate::resolve;
use crate::resolve::{ArgValue, Resolution};
use crate::text;
use vstd::prelude::*;

verus! {

/// The name of the setup report.
pub const PREFLIGHT: &'static str = "preflight";

/// What a name of the registry stands for.
#[derive(Clone, Copy, Debug, PartialEq, Eq)]
pub enum Kind {
    /// Source that an instance loads like any other program.
    Source(&'static str),
    /// A program that the host runs; nothing is loaded.
    Native(&'static str),
}

/// The registry: what a name stands for.
pub open spec fn carried(name: Seq<char>) -> Option<Kind> {
    if name == PREFLIGHT@ {
        Some(Kind::Native(PREFLIGHT))
    } else {
        None
    }
}

/// Looks a name up in the registry.
pub fn lookup(name: &str) -> (r: Option<Kind>)
    ensures
        r == carried(name@),
{
    if text::same(name, PREFLIGHT) {
        Some(Kind::Native(PREFLIGHT))
    } else {
        None
    }
}

/// Every name that this build carries.
pub fn names() -> (r: Vec<&'static str>)
    ensures
        r@ == seq![PREFLIGHT],
        forall|name: Seq<char>|
            (#[trigger] carried(name) is Some) <==> exists|i: int|
                0 <= i < r.len() && (#[trigger] r@[i])@ == name,
{
    let mut r: Vec<&'static str> = Vec::new();
    if lookup(PREFLIGHT).is_some() {
        r.push(PREFLIGHT);
    }
    assert(r@[0]@ == PREFLIGHT@);
    r
}

/// The names that this build carries, as a refusal lists them.
pub open spec fn listed() -> Seq<char> {
    text::joined(seq![PREFLIGHT@], ", "@)
}

/// Lists the names that this build carries.
pub fn listing() -> (r: String)
    ensures
        r@ == listed(),
{
    let all = names();
    let mut texts: Vec<String> = Vec::new();
    texts.push(all[0].to_owned());
    assert(text::texts(texts@) =~= seq![PREFLIGHT@]);
    text::join(&texts, ", ")
}

/// Whether the host runs the program itself.
pub fn is_native(name: &str) -> (r: bool)
    ensures
        r == (carried(name@) matches Some(Kind::Native(_))),
{
    match lookup(name) {
        Some(Kind::Native(_)) => true,
        _ => false,
    }
}

/// An argument as the report shows it.
pub open spec fn shown(value: ArgValue) -> Seq<char> {
    match value {
        ArgValue::Bool(b) => if b {
            "true"@
        } else {
            "false"@
        },
        ArgValue::Int(n) => text::dec_int(n as int),
        ArgValue::Str(s) => s@,
        ArgValue::List(items) => "["@ + text::joined(text::texts(items@), ", "@) + "]"@,
    }
}

/// Shows an argument.
pub fn render(value: &ArgValue) -> (r: String)
    ensures
        r@ == shown(*value),
{
    match value {
        ArgValue::Bool(b) => if *b {
            "true".to_owned()
        } else {
            "false".to_owned()
        },
        ArgValue::Int(n) => text::decimal_signed(*n),
        ArgValue::Str(s) => s.clone(),
        ArgValue::List(items) => text::join3("[", text::join(items, ", ").as_str(), "]"),
    }
}

/// What the report says of the consent to the ceiling.
pub open spec fn standing(consent: Option<&ConsentCheck>) -> Seq<char> {
    match consent {
        Some(ConsentCheck::Unchanged) => ", consent: listed, matches\n"@,
        Some(ConsentCheck::First { .. }) => ", consent: not yet accepted\n"@,
        Some(ConsentCheck::Narrowed { .. }) => ", consent: listed, narrowed since\n"@,
        Some(ConsentCheck::Widened { .. }) =>
            ", consent: listed, WIDENED since -- start would prompt\n"@,
        Some(ConsentCheck::Blanket { .. }) => ", consent: blanket operator consent\n"@,
        None => ", consent: does not apply (no root)\n"@,
    }
}

/// The arguments as the report shows them, each behind its name.
pub open spec fn shown_args(args: Seq<(String, ArgValue)>) -> Seq<Seq<char>> {
    args.map_values(|a: (String, ArgValue)| a.0@ + ": "@ + shown(a.1))
}

/// The findings from the first on, a line for each.
pub open spec fn finding_lines(findings: Seq<resolve::Finding>) -> Seq<char>
    decreases findings.len(),
{
    if findings.len() == 0 {
        Seq::empty()
    } else {
        finding_lines(findings.drop_last()) + ("- "@ + findings.last().text@ + "\n"@)
    }
}

/// The line on the profile.
pub open spec fn profile_line(resolution: Resolution) -> Seq<char> {
    match resolution.profile {
        Some(p) => "profile: "@ + p.shown() + "\n"@,
        None => Seq::empty(),
    }
}

/// The line on the pin of this binary.
pub open spec fn pin_line(pinned: Option<Seq<char>>, present: Seq<char>) -> Seq<char> {
    match pinned {
        Some(pin) => "drt: "@ + pin + " pinned, "@ + present + " present\n"@,
        None => "drt: not pinned, "@ + present + " present\n"@,
    }
}

/// The line on the ceiling.
pub open spec fn ceiling_line(resolution: Resolution, consent: Option<&ConsentCheck>) -> Seq<char> {
    match resolution.ceiling {
        Some(c) => "ceiling: "@ + text::dec(c@.len()) + " caps"@ + standing(consent),
        None => Seq::empty(),
    }
}

/// The line on the entry.
pub open spec fn entry_line(resolution: Resolution) -> Seq<char> {
    match resolution.entry {
        Some(e) => "entry: "@ + e.shown() + ", present\n"@,
        None => Seq::empty(),
    }
}

/// The line on the arguments.
pub open spec fn args_line(resolution: Resolution) -> Seq<char> {
    if resolution.args@.len() == 0 {
        Seq::empty()
    } else {
        "args: { "@ + text::joined(shown_args(resolution.args@), ", "@) + " }\n"@
    }
}

/// The line on what a start would do.
pub open spec fn verdict_line(resolution: Resolution) -> Seq<char> {
    match resolve::first_blocking(resolution.findings@, 0) {
        Some(i) => "start would refuse: "@ + resolution.findings@[i].text@ + "\n"@,
        None => "start would run. nothing started.\n"@,
    }
}

/// The whole report.
pub open spec fn report(
    resolution: Resolution,
    pinned: Option<Seq<char>>,
    present: Seq<char>,
    consent: Option<&ConsentCheck>,
) -> Seq<char> {
    profile_line(resolution) + pin_line(pinned, present) + ceiling_line(resolution, consent)
        + entry_line(resolution) + args_line(resolution) + finding_lines(resolution.findings@)
        + verdict_line(resolution)
}

fn argument_texts(args: &Vec<(String, ArgValue)>) -> (r: Vec<String>)
    ensures
        text::texts(r@) == shown_args(args@),
{
    let mut r: Vec<String> = Vec::new();
    let mut i: usize = 0;
    while i < args.len()
        invariant
            i <= args.len(),
            text::texts(r@) == shown_args(args@.subrange(0, i as int)),
        decreases args.len() - i,
    {
        let ghost had = text::texts(r@);
        let one = text::join3(args[i].0.as_str(), ": ", render(&args[i].1).as_str());
        let ghost s = one@;
        r.push(one);
        assert(text::texts(r@) =~= had.push(s));
        assert(shown_args(args@.subrange(0, i + 1)) =~= shown_args(
            args@.subrange(0, i as int),
        ).push(s));
        i = i + 1;
    }
    assert(args@.subrange(0, args@.len() as int) =~= args@);
    r
}

fn finding_text(findings: &Vec<resolve::Finding>) -> (r: String)
    ensures
        r@ == finding_lines(findings@),
{
    let mut r = String::new();
    let mut i: usize = 0;
    while i < findings.len()
        invariant
            i <= findings.len(),
            r@ == finding_lines(findings@.subrange(0, i as int)),
        decreases findings.len() - i,
    {
        let ghost now = findings@.subrange(0, i + 1);
        assert(now.drop_last() =~= findings@.subrange(0, i as int));
        r.append(text::join3("- ", findings[i].text.as_str(), "\n").as_str());
        i = i + 1;
    }
    assert(findings@.subrange(0, findings@.len() as int) =~= findings@);
    r
}

/// The report on what a start would resolve: the profile, this binary, the
/// ceiling and the consent to it, the entry, the arguments, every finding,
/// and whether the start would go ahead.
pub fn preflight(
    resolution: &Resolution,
    pinned: Option<&str>,
    present: &str,
    consent: Option<&ConsentCheck>,
) -> (r: String)
    ensures
        r@ == report(*resolution, drt_root::opt_str(pinned), present@, consent),
{
    let mut out = String::new();
    if let Some(p) = &resolution.profile {
        out.append(text::join3("profile: ", p.show().as_str(), "\n").as_str());
    }
    assert(out@ =~= profile_line(*resolution));
    match pinned {
        Some(pin) => {
            out.append(text::join5("drt: ", pin, " pinned, ", present, " present\n").as_str());
        },
        None => {
            out.append(text::join3("drt: not pinned, ", present, " present\n").as_str());
        },
    }
    let ghost so_far = out@;
    if let Some(c) = &resolution.ceiling {
        let state: &str = match consent {
            Some(ConsentCheck::Unchanged) => ", consent: listed, matches\n",
            Some(ConsentCheck::First { .. }) => ", consent: not yet accepted\n",
            Some(ConsentCheck::Narrowed { .. }) => ", consent: listed, narrowed since\n",
            Some(ConsentCheck::Widened { .. }) =>
                ", consent: listed, WIDENED since -- start would prompt\n",
            Some(ConsentCheck::Blanket { .. }) => ", consent: blanket operator consent\n",
            None => ", consent: does not apply (no root)\n",
        };
        let count = text::decimal(c.len() as u64);
        out.append(text::join4("ceiling: ", count.as_str(), " caps", state).as_str());
    }
    assert(out@ =~= so_far + ceiling_line(*resolution, consent));
    let ghost so_far = out@;
    if let Some(e) = &resolution.entry {
        out.append(text::join3("entry: ", e.show().as_str(), ", present\n").as_str());
    }
    assert(out@ =~= so_far + entry_line(*resolution));
    let ghost so_far = out@;
    if resolution.args.len() > 0 {
        let args = text::join(&argument_texts(&resolution.args), ", ");
        out.append(text::join3("args: { ", args.as_str(), " }\n").as_str());
    }
    assert(out@ =~= so_far + args_line(*resolution));
    out.append(finding_text(&resolution.findings).as_str());
    match resolution.blocker() {
        Some(b) => {
            out.append(text::join3("start would refuse: ", b.text.as_str(), "\n").as_str());
        },
        None => {
            out.append("start would run. nothing started.\n");
        },
    }
    out
}

// ---- laws ----

/// A name that stands for a program is one that the registry lists, and no
/// other: nothing is advertised that does not resolve.
pub proof fn a_name_resolves_to_itself(name: Seq<char>)
    ensures
        carried(name) matches Some(Kind::Native(n)) ==> n@ == name,
        carried(name) matches Some(Kind::Source(n)) ==> n@ == name,
{
}

/// The setup report is carried, run by the host itself, and nothing else is.
pub proof fn the_setup_report_is_carried(name: Seq<char>)
    ensures
        carried(name) is Some <==> name == "preflight"@,
        carried(name) is Some ==> carried(name) matches Some(Kind::Native(_)),
        listed() == "preflight"@,
{
    text::a_join_puts_the_separator_between(Seq::empty(), "preflight"@, ", "@);
}

/// An argument is shown as it would be written.
pub proof fn an_argument_is_shown_as_written(value: ArgValue)
    ensures
        match value {
            ArgValue::Bool(b) => b ==> shown(value) == "true"@,
            ArgValue::Int(n) => n >= 0 ==> shown(value) == text::dec(n as nat),
            ArgValue::Str(s) => shown(value) == s@,
            ArgValue::List(items) => shown(value) == "["@ + text::joined(
                text::texts(items@),
                ", "@,
            ) + "]"@,
        },
        value == ArgValue::Bool(false) ==> shown(value) == "false"@,
        value matches ArgValue::Int(n) ==> n < 0 ==> shown(value) == seq!['-'] + text::dec(
            (-n) as nat,
        ),
{
}

/// The report says of each state of consent what a start would do about it.
pub proof fn a_state_of_consent_is_told(consent: ConsentCheck)
    ensures
        standing(None) == ", consent: does not apply (no root)\n"@,
        standing(Some(&consent)) == (match consent {
            ConsentCheck::Blanket { .. } => ", consent: blanket operator consent\n"@,
            ConsentCheck::Unchanged => ", consent: listed, matches\n"@,
            ConsentCheck::First { .. } => ", consent: not yet accepted\n"@,
            ConsentCheck::Narrowed { .. } => ", consent: listed, narrowed since\n"@,
            ConsentCheck::Widened { .. } =>
                ", consent: listed, WIDENED since -- start would prompt\n"@,
        }),
{
}

/// The report tells every finding, and ends in what a start would do: refuse
/// for the first finding that stops one, or run.
pub proof fn a_report_ends_in_the_verdict(
    resolution: Resolution,
    pinned: Option<Seq<char>>,
    present: Seq<char>,
    consent: Option<&ConsentCheck>,
    i: int,
)
    ensures
        (forall|k: int|
            0 <= k < resolution.findings@.len() ==> !(#[trigger] resolution.findings@[k]).blocks)
            ==> text::ends(
            report(resolution, pinned, present, consent),
            "start would run. nothing started.\n"@,
        ),
        0 <= i < resolution.findings@.len() && resolution.findings@[i].blocks && (forall|k: int|
            0 <= k < i ==> !(#[trigger] resolution.findings@[k]).blocks) ==> text::ends(
            report(resolution, pinned, present, consent),
            "start would refuse: "@ + resolution.findings@[i].text@ + "\n"@,
        ),
        0 <= i < resolution.findings@.len() ==> text::contains(
            report(resolution, pinned, present, consent),
            "- "@ + resolution.findings@[i].text@ + "\n"@,
        ),
{
    let fs = resolution.findings@;
    resolve::the_blocker_is_the_first(fs, 0);
    let r = report(resolution, pinned, present, consent);
    let back = verdict_line(resolution);
    assert(r.subrange(r.len() - back.len(), r.len() as int) =~= back);
    if 0 <= i < fs.len() {
        findings_are_told(fs, i);
        let line = "- "@ + fs[i].text@ + "\n"@;
        let mid = finding_lines(fs);
        let at = choose|at: int| text::stands_at(mid, line, at);
        let front = profile_line(resolution) + pin_line(pinned, present) + ceiling_line(
            resolution,
            consent,
        ) + entry_line(resolution) + args_line(resolution);
        assert(r =~= front + mid + back);
        assert(r.subrange(front.len() + at, front.len() + at + line.len()) =~= mid.subrange(
            at,
            at + line.len(),
        ));
        assert(text::stands_at(r, line, front.len() + at));
    }
}

proof fn findings_are_told(fs: Seq<resolve::Finding>, i: int)
    requires
        0 <= i < fs.len(),
    ensures
        text::contains(finding_lines(fs), "- "@ + fs[i].text@ + "\n"@),
    decreases fs.len(),
{
    let less = fs.drop_last();
    let all = finding_lines(fs);
    let rest = finding_lines(less);
    let line = "- "@ + fs[i].text@ + "\n"@;
    if i < less.len() {
        findings_are_told(less, i);
        assert(less[i] == fs[i]);
        let at = choose|at: int| text::stands_at(rest, line, at);
        assert(all.subrange(at, at + line.len()) =~= rest.subrange(at, at + line.len()));
        assert(text::stands_at(all, line, at));
    } else {
        assert(all.subrange(rest.len() as int, (rest.len() + line.len()) as int) =~= line);
        assert(text::stands_at(all, line, rest.len() as int));
    }
}

/// Each line of the setup report says what it is about, and a line about what
/// did not resolve is left out.
pub proof fn a_line_says_what_it_is_about(
    resolution: Resolution,
    pin: Seq<char>,
    present: Seq<char>,
    consent: Option<&ConsentCheck>,
)
    ensures
        resolution.profile matches Some(p) ==> profile_line(resolution) == "profile: "@ + (p.value@
            + " ("@ + p.rule@ + ")"@) + "\n"@,
        resolution.profile is None ==> profile_line(resolution).len() == 0,
        pin_line(Some(pin), present) == "drt: "@ + pin + " pinned, "@ + present + " present\n"@,
        pin_line(None, present) == "drt: not pinned, "@ + present + " present\n"@,
        resolution.ceiling matches Some(c) ==> ceiling_line(resolution, consent) == "ceiling: "@
            + text::dec(c@.len()) + " caps"@ + standing(consent),
        resolution.ceiling is None ==> ceiling_line(resolution, consent).len() == 0,
        resolution.entry matches Some(e) ==> entry_line(resolution) == "entry: "@ + e.shown()
            + ", present\n"@,
        resolution.entry is None ==> entry_line(resolution).len() == 0,
        resolution.args@.len() > 0 ==> args_line(resolution) == "args: { "@ + text::joined(
            shown_args(resolution.args@),
            ", "@,
        ) + " }\n"@,
        resolution.args@.len() == 0 ==> args_line(resolution).len() == 0,
{
}

} // verus!
