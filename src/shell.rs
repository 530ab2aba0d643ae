use crate::dates::{date_formats, views};
use crate::flags::{apply_set, set_args, set_chars, Flags, SetError, EXITONFAIL, LPEXEC, PEXEC};
use crate::prompt::{format_text, render, TemplateError, TemplateFault};
use crate::table::SubstitutionTable;
use crate::text::{chars_of, push_char};
use vstd::prelude::*;
use vstd::string::*;

verus! {

/// The words that shell-style splitting makes of a line, or `None` where
/// its quoting is malformed.
pub uninterp spec fn shell_words(line: Seq<char>) -> Option<Seq<Seq<char>>>;

/// The words quoted for a shell and joined with spaces.
pub uninterp spec fn shell_joined(words: Seq<Seq<char>>) -> Seq<char>;

/// Relies on `shlex::split`: splits a line into words by POSIX-shell
/// quoting rules, `None` on unbalanced quotes or a trailing backslash. The
/// result depends on the line alone.
#[verifier::external_body]
fn split_words(line: &str) -> (r: Option<Vec<String>>)
    ensures
        match r {
            Some(v) => shell_words(line@) == Some(views(v@)),
            None => shell_words(line@) is None,
        },
{
    shlex::split(line)
}

/// Relies on `shlex::join`: quotes each word for a shell and joins them
/// with spaces. The result depends on the words alone.
#[verifier::external_body]
#[allow(deprecated)]
fn join_words(words: &Vec<String>) -> (r: String)
    ensures
        r@ == shell_joined(views(words@)),
{
    shlex::join(words.iter().map(|w| w.as_str()))
}

/// Where the loop stands: waiting to read a line, or holding one to run.
pub enum ShellState {
    AwaitingCommand,
    Executing(String),
}

/// What reading a line gave.
pub enum ReadEvent {
    Line(String),
    Interrupted,
    EndOfInput,
    Failed,
}

/// What running a line has to show, in order.
#[derive(Debug)]
pub enum Report {
    /// The command, quoted again, to show after the echo prompt.
    Echo(String),
    /// A line that could not be split, with an odd count of one quote.
    UnclosedQuote(String),
    /// A line that could not be split for another reason.
    InvalidSyntax(String),
    /// What `format` rendered.
    Formatted(String),
    /// Why `format` could not render its text.
    FormatFailed(TemplateError),
    /// Why `set` stopped.
    SetFailed(SetError),
}

/// The reports of one step of the loop, and whether the loop ends.
pub struct StepOutcome {
    pub reports: Vec<Report>,
    pub terminate: bool,
}

/// The shell's state, owned by the loop.
pub struct Shell {
    pub state: ShellState,
    pub flags: Flags,
    pub command_count: u64,
    pub status: i32,
}

/// Commands are shown before they run.
pub open spec fn echoes(bits: u16) -> bool {
    bits & (PEXEC | LPEXEC) != 0
}

/// The loop ends after a command that left `status`.
pub open spec fn stops_after(bits: u16, status: i32) -> bool {
    bits & EXITONFAIL != 0 && status != 0
}

/// How many times `c` occurs in `s`.
pub open spec fn count_of(s: Seq<char>, c: char) -> nat
    decreases s.len(),
{
    if s.len() == 0 {
        0
    } else {
        count_of(s.drop_last(), c) + if s.last() == c {
            1nat
        } else {
            0nat
        }
    }
}

/// One of the two quote characters occurs an odd number of times.
pub open spec fn quotes_unbalanced(s: Seq<char>) -> bool {
    count_of(s, '"') % 2 == 1 || count_of(s, '\'') % 2 == 1
}

/// The words from position `i` on, joined with single spaces.
pub open spec fn spaced_from(words: Seq<Seq<char>>, i: int) -> Seq<char>
    decreases words.len() - i,
{
    if i < 0 || i >= words.len() {
        Seq::empty()
    } else if i == words.len() - 1 {
        words[i]
    } else {
        words[i] + seq![' '] + spaced_from(words, i + 1)
    }
}

/// What a report of `format` says of its text.
pub open spec fn format_report(rep: Report) -> Result<Seq<char>, TemplateFault> {
    match rep {
        Report::FormatFailed(e) => Err(e@),
        Report::Formatted(t) => Ok(t@),
        _ => Ok(Seq::empty()),
    }
}

/// The text of each word, where there are words.
pub open spec fn opt_views(v: Option<Vec<String>>) -> Option<Seq<Seq<char>>> {
    match v {
        Some(v) => Some(views(v@)),
        None => None,
    }
}

/// What one run of `line` does, where splitting it gave `argv`: the state
/// `s0` becomes `s1`, and `r` is shown.
pub open spec fn dispatched(
    s0: Shell,
    s1: Shell,
    line: Seq<char>,
    argv: Option<Seq<Seq<char>>>,
    table: Map<char, Seq<char>>,
    r: StepOutcome,
) -> bool {
    &&& s1.state is AwaitingCommand
    &&& s1.command_count == s0.command_count
    &&& match argv {
        None => {
            &&& s1.flags == s0.flags
            &&& s1.status == 1
            &&& r.reports@.len() == 1
            &&& if quotes_unbalanced(line) {
                r.reports@[0] is UnclosedQuote && r.reports@[0]->UnclosedQuote_0@ == line
            } else {
                r.reports@[0] is InvalidSyntax && r.reports@[0]->InvalidSyntax_0@ == line
            }
            &&& r.terminate == stops_after(s0.flags.bits, 1)
        },
        Some(w) => {
            let e: int = if echoes(s0.flags.bits) {
                1
            } else {
                0
            };
            if w.len() == 0 {
                &&& s1.flags == s0.flags
                &&& s1.status == s0.status
                &&& r.reports@.len() == 0
                &&& !r.terminate
            } else {
                &&& echoes(s0.flags.bits) ==> (r.reports@[0] is Echo
                    && r.reports@[0]->Echo_0@ == shell_joined(w))
                &&& if w[0] == word_exit() {
                    &&& s1.flags == s0.flags
                    &&& s1.status == s0.status
                    &&& r.reports@.len() == e
                    &&& r.terminate
                } else if w[0] == word_set() {
                    let (bits, err) = set_args(s0.flags.bits, w, 1);
                    &&& s1.flags.bits == bits
                    &&& s1.status == if err is Some {
                        1
                    } else {
                        s0.status
                    }
                    &&& r.reports@.len() == if err is Some {
                        e + 1
                    } else {
                        e
                    }
                    &&& err is Some ==> r.reports@[e] == Report::SetFailed(err->0)
                    &&& r.terminate == stops_after(bits, s1.status)
                } else if w[0] == word_format() {
                    let text = spaced_from(w, 1);
                    &&& s1.flags == s0.flags
                    &&& r.reports@.len() == e + 1
                    &&& (r.reports@[e] is Formatted || r.reports@[e] is FormatFailed)
                    &&& s1.status == if r.reports@[e] is Formatted {
                        s0.status
                    } else {
                        1
                    }
                    &&& exists|stamps: Seq<Seq<char>>|
                        stamps.len() == date_formats(text).len() && #[trigger] render(
                            text,
                            stamps,
                            table,
                        ) == format_report(r.reports@[e])
                    &&& r.terminate == stops_after(
                        s1.flags.bits,
                        s1.status,
                    )
                } else {
                    &&& s1.flags == s0.flags
                    &&& s1.status == 0
                    &&& r.reports@.len() == e
                    &&& !r.terminate
                }
            }
        },
    }
}

pub open spec fn word_exit() -> Seq<char> {
    seq!['e', 'x', 'i', 't']
}

pub open spec fn word_format() -> Seq<char> {
    seq!['f', 'o', 'r', 'm', 'a', 't']
}

pub open spec fn word_set() -> Seq<char> {
    seq!['s', 'e', 't']
}

fn same_text(a: &str, b: &str) -> (r: bool)
    ensures
        r == (a@ == b@),
{
    let x = chars_of(a);
    let y = chars_of(b);
    if x.len() != y.len() {
        return false;
    }
    let mut i: usize = 0;
    while i < x.len()
        invariant
            x@ == a@,
            y@ == b@,
            x@.len() == y@.len(),
            i <= x@.len(),
            forall|k: int| 0 <= k < i ==> x@[k] == y@[k],
        decreases x@.len() - i,
    {
        if x[i] != y[i] {
            return false;
        }
        i = i + 1;
    }
    assert(x@ =~= y@);
    true
}

fn count_char(s: &Vec<char>, c: char) -> (r: usize)
    ensures
        r as nat == count_of(s@, c),
{
    let mut n: usize = 0;
    let mut i: usize = 0;
    while i < s.len()
        invariant
            i <= s@.len(),
            n as nat == count_of(s@.take(i as int), c),
            n <= i,
        decreases s@.len() - i,
    {
        assert(s@.take(i + 1).drop_last() =~= s@.take(i as int));
        if s[i] == c {
            n = n + 1;
        }
        i = i + 1;
    }
    assert(s@.take(i as int) =~= s@);
    n
}

/// Whether one of the two quote characters occurs an odd number of times in
/// `line`.
pub fn has_unbalanced_quotes(line: &str) -> (r: bool)
    ensures
        r == quotes_unbalanced(line@),
{
    let v = chars_of(line);
    count_char(&v, '"') % 2 == 1 || count_char(&v, '\'') % 2 == 1
}

/// The words of `args` from position 1 on, joined with single spaces.
pub fn spaced_args(args: &Vec<String>) -> (r: String)
    ensures
        r@ == spaced_from(views(args@), 1),
{
    let ghost w = views(args@);
    let mut r = String::new();
    if args.len() <= 1 {
        return r;
    }
    let mut i: usize = args.len() - 1;
    r.append(args[i].as_str());
    while i > 1
        invariant
            w == views(args@),
            1 <= i < args@.len(),
            r@ == spaced_from(w, i as int),
        decreases i,
    {
        let mut s = args[i - 1].clone();
        push_char(&mut s, ' ');
        s.append(r.as_str());
        assert(s@ == w[i - 1] + seq![' '] + spaced_from(w, i as int));
        r = s;
        i = i - 1;
    }
    r
}

} // verus!

verus! {

impl Shell {
    /// A shell waiting for its first line, with no flag set.
    pub fn new() -> (r: Shell)
        ensures
            r.state is AwaitingCommand,
            r.flags.bits == 0,
            r.command_count == 0,
            r.status == 0,
    {
        Shell { state: ShellState::AwaitingCommand, flags: Flags::empty(), command_count: 0, status: 0 }
    }

    /// Takes what reading a line gave; returns whether the loop ends. A line
    /// is counted and held to run; the end of input ends the loop; an
    /// interrupt or a failed read leaves the shell waiting.
    pub fn receive(&mut self, ev: ReadEvent) -> (r: bool)
        ensures
            final(self).flags == old(self).flags,
            final(self).status == old(self).status,
            match ev {
                ReadEvent::Line(l) => {
                    &&& !r
                    &&& final(self).state is Executing
                    &&& final(self).state->Executing_0@ == l@
                    &&& final(self).command_count as int == if old(self).command_count
                        < u64::MAX {
                        old(self).command_count + 1
                    } else {
                        old(self).command_count as int
                    }
                },
                ReadEvent::EndOfInput => {
                    &&& r
                    &&& final(self).command_count == old(self).command_count
                },
                _ => {
                    &&& !r
                    &&& final(self).state is AwaitingCommand
                    &&& final(self).command_count == old(self).command_count
                },
            },
    {
        match ev {
            ReadEvent::Line(l) => {
                if self.command_count < u64::MAX {
                    self.command_count = self.command_count + 1;
                }
                self.state = ShellState::Executing(l);
                false
            },
            ReadEvent::EndOfInput => true,
            _ => {
                self.state = ShellState::AwaitingCommand;
                false
            },
        }
    }

    /// Runs `line`, whose words shell-style splitting gave as `argv`: shows
    /// the command first where echoing is on, then runs `exit`, `format` or
    /// `set`; any other command only sets the status to 0. The loop ends on
    /// `exit`, and after a command that failed while `e` is set.
    pub fn dispatch(&mut self, line: &String, argv: Option<Vec<String>>, table: &SubstitutionTable) -> (r:
        StepOutcome)
        ensures
            dispatched(*old(self), *final(self), line@, opt_views(argv), table@, r),
    {
        self.state = ShellState::AwaitingCommand;
        let mut reports: Vec<Report> = Vec::new();
        match argv {
            None => {
                if has_unbalanced_quotes(line.as_str()) {
                    reports.push(Report::UnclosedQuote(line.clone()));
                } else {
                    reports.push(Report::InvalidSyntax(line.clone()));
                }
                self.status = 1;
                let terminate = self.flags.bits & EXITONFAIL != 0 && self.status != 0;
                StepOutcome { reports, terminate }
            },
            Some(v) => {
                let ghost w = views(v@);
                if v.len() == 0 {
                    return StepOutcome { reports, terminate: false };
                }
                if self.flags.bits & (PEXEC | LPEXEC) != 0 {
                    reports.push(Report::Echo(join_words(&v)));
                }
                let ghost e = reports@.len();
                proof {
                    reveal_strlit("exit");
                    reveal_strlit("set");
                    reveal_strlit("format");
                }
                assert(v@[0]@ == w[0]);
                if same_text(v[0].as_str(), "exit") {
                    assert("exit"@ =~= word_exit());
                    return StepOutcome { reports, terminate: true };
                }
                assert("exit"@ =~= word_exit());
                assert("set"@ =~= word_set());
                assert("format"@ =~= word_format());
                if same_text(v[0].as_str(), "set") {
                    let (f, err) = apply_set(self.flags, &v);
                    self.flags = f;
                    match err {
                        Some(x) => {
                            reports.push(Report::SetFailed(x));
                            self.status = 1;
                        },
                        None => {},
                    }
                } else if same_text(v[0].as_str(), "format") {
                    let text = spaced_args(&v);
                    match format_text(text, table) {
                        Ok(out) => {
                            reports.push(Report::Formatted(out));
                        },
                        Err(x) => {
                            reports.push(Report::FormatFailed(x));
                            self.status = 1;
                        },
                    }
                    assert(format_report(reports@[e as int]) == format_report(reports@.last()));
                } else {
                    self.status = 0;
                }
                let terminate = self.flags.bits & EXITONFAIL != 0 && self.status != 0;
                StepOutcome { reports, terminate }
            },
        }
    }

    /// One step of the loop while a line is held: splits it into words and
    /// runs it as `dispatch` does. While waiting for a line there is nothing
    /// to run, and nothing changes.
    pub fn execute(&mut self, table: &SubstitutionTable) -> (r: StepOutcome)
        ensures
            old(self).state is AwaitingCommand ==> {
                &&& final(self).flags == old(self).flags
                &&& final(self).status == old(self).status
                &&& final(self).command_count == old(self).command_count
                &&& final(self).state is AwaitingCommand
                &&& r.reports@.len() == 0
                &&& !r.terminate
            },
            old(self).state is Executing ==> dispatched(
                *old(self),
                *final(self),
                old(self).state->Executing_0@,
                shell_words(old(self).state->Executing_0@),
                table@,
                r,
            ),
    {
        let line = match &self.state {
            ShellState::AwaitingCommand => {
                return StepOutcome { reports: Vec::new(), terminate: false };
            },
            ShellState::Executing(l) => l.clone(),
        };
        let argv = split_words(line.as_str());
        self.dispatch(&line, argv, table)
    }
}

} // verus!

verus! {

/// `set -x` turns echoing on, from any flags; `set +x` turns it off again
/// where `X` is not set as well.
pub proof fn lemma_set_x_toggles_echo(bits: u16)
    ensures
        set_args(bits, seq![word_set(), seq!['-', 'x']], 1).1 is None,
        echoes(set_args(bits, seq![word_set(), seq!['-', 'x']], 1).0),
        set_args(bits, seq![word_set(), seq!['+', 'x']], 1).1 is None,
        bits & LPEXEC == 0 ==> !echoes(set_args(bits, seq![word_set(), seq!['+', 'x']], 1).0),
{
    let on = seq!['-', 'x'];
    let off = seq!['+', 'x'];
    let args_on = seq![word_set(), on];
    let args_off = seq![word_set(), off];
    assert(args_on[1] == on);
    assert(args_off[1] == off);
    assert(set_chars_done(bits | PEXEC, true, on));
    assert(set_chars_done(bits & !PEXEC, false, off));
    assert(set_args(bits | PEXEC, args_on, 2) == (bits | PEXEC, None::<SetError>));
    assert(set_args(bits & !PEXEC, args_off, 2) == (bits & !PEXEC, None::<SetError>));
    assert((bits | 1u16) & (1u16 | 2u16) != 0) by (bit_vector);
    assert(bits & 2u16 == 0 ==> (bits & !1u16) & (1u16 | 2u16) == 0) by (bit_vector);
}

spec fn set_chars_done(bits: u16, on: bool, a: Seq<char>) -> bool {
    set_chars(bits, on, a, a.len() as int) == (bits, None::<SetError>)
}

/// After `set -e`, a command that leaves status 1 ends the loop; without
/// `e`, no status ends it.
pub proof fn lemma_exit_on_failure(bits: u16, status: i32)
    ensures
        set_args(bits, seq![word_set(), seq!['-', 'e']], 1).1 is None,
        stops_after(set_args(bits, seq![word_set(), seq!['-', 'e']], 1).0, 1),
        bits & EXITONFAIL == 0 ==> !stops_after(bits, status),
{
    let on = seq!['-', 'e'];
    let args_on = seq![word_set(), on];
    assert(args_on[1] == on);
    assert(set_chars_done(bits | EXITONFAIL, true, on));
    assert(set_args(bits | EXITONFAIL, args_on, 2) == (bits | EXITONFAIL, None::<SetError>));
    assert((bits | 4u16) & 4u16 != 0) by (bit_vector);
}

} // verus!

verus! {

/// After `set -x`, the next command that has words is shown first; after
/// `set +x`, with `X` not set, no command is shown.
pub proof fn lemma_echo_follows_set_x(
    s0: Shell,
    s1: Shell,
    s2: Shell,
    l1: Seq<char>,
    l2: Seq<char>,
    w: Seq<Seq<char>>,
    t: Map<char, Seq<char>>,
    r1: StepOutcome,
    r2: StepOutcome,
    on: bool,
)
    requires
        dispatched(
            s0,
            s1,
            l1,
            Some(seq![word_set(), seq![if on { '-' } else { '+' }, 'x']]),
            t,
            r1,
        ),
        dispatched(s1, s2, l2, Some(w), t, r2),
        w.len() > 0,
        !on ==> s0.flags.bits & LPEXEC == 0,
    ensures
        on ==> r2.reports@.len() > 0 && r2.reports@[0] is Echo && r2.reports@[0]->Echo_0@
            == shell_joined(w),
        !on ==> r2.reports@.len() == 0 || !(r2.reports@[0] is Echo),
{
    lemma_set_x_toggles_echo(s0.flags.bits);
    let args = seq![word_set(), seq![if on { '-' } else { '+' }, 'x']];
    if on {
        assert(args =~= seq![word_set(), seq!['-', 'x']]);
    } else {
        assert(args =~= seq![word_set(), seq!['+', 'x']]);
    }
    assert(args[0] == word_set());
    assert(word_set() != word_exit());
}

/// After `set -e`, a command that has words, leaves the flags as they were
/// and ends with a status other than 0 ends the loop. Without `e`, a
/// command other than `exit` never ends it.
pub proof fn lemma_failure_ends_loop_only_with_e(
    s0: Shell,
    s1: Shell,
    s2: Shell,
    l1: Seq<char>,
    l2: Seq<char>,
    argv: Option<Seq<Seq<char>>>,
    t: Map<char, Seq<char>>,
    r1: StepOutcome,
    r2: StepOutcome,
)
    requires
        dispatched(s0, s1, l1, Some(seq![word_set(), seq!['-', 'e']]), t, r1),
        dispatched(s1, s2, l2, argv, t, r2),
        argv is Some ==> argv->0.len() > 0,
        s2.flags == s1.flags,
        s2.status != 0,
    ensures
        r2.terminate,
{
    lemma_exit_on_failure(s0.flags.bits, s2.status);
    assert(seq![word_set(), seq!['-', 'e']][0] == word_set());
    assert(word_set() != word_exit());
}

/// Without `e` set before and after it, a command other than `exit` does
/// not end the loop, whatever its status.
pub proof fn lemma_no_e_keeps_looping(
    s1: Shell,
    s2: Shell,
    l2: Seq<char>,
    argv: Option<Seq<Seq<char>>>,
    t: Map<char, Seq<char>>,
    r2: StepOutcome,
)
    requires
        dispatched(s1, s2, l2, argv, t, r2),
        s1.flags.bits & EXITONFAIL == 0,
        s2.flags.bits & EXITONFAIL == 0,
        argv is Some ==> argv->0.len() == 0 || argv->0[0] != word_exit(),
    ensures
        !r2.terminate,
{
    lemma_exit_on_failure(s1.flags.bits, s2.status);
    lemma_exit_on_failure(s2.flags.bits, s2.status);
    lemma_exit_on_failure(s1.flags.bits, 1);
}

} // verus!
