use crate::text::{chars_of, push_char};
use std::fmt::Write;
use vstd::prelude::*;
use vstd::string::*;

verus! {

/// Why the date expressions of a template could not be expanded.
#[derive(PartialEq, Eq, Structural, Clone, Copy, Debug)]
pub enum DateError {
    /// `%D` that is not followed by `{`.
    UnterminatedDateIntroducer,
    /// `%D{` with no closing `}`.
    UnterminatedFormat,
}

/// The expander's state between two characters.
#[derive(PartialEq, Eq, Structural, Clone, Copy, Debug)]
pub enum DateState {
    Normal,
    PercentSeen,
    AwaitingBrace,
    InFormat,
}

/// `p` in front of a successful result; an error is passed on.
pub open spec fn date_prefixed(p: Seq<char>, r: Result<Seq<char>, DateError>) -> Result<
    Seq<char>,
    DateError,
> {
    match r {
        Ok(s) => Ok(p + s),
        Err(e) => Err(e),
    }
}

/// The text that stands for the `k`-th date expression.
pub open spec fn stamp_at(stamps: Seq<Seq<char>>, k: int) -> Seq<char> {
    if 0 <= k < stamps.len() {
        stamps[k]
    } else {
        Seq::empty()
    }
}

/// What expanding `input` from position `i` on produces, in state `st` with
/// the format read so far `fmt`, where the `k`-th date expression of the
/// whole input becomes `stamps[k]`. A `%` followed by anything but `D` is
/// kept together with that character, so `%%D{x}` stays as it is; a `%` at
/// the very end is kept.
pub open spec fn expand_from(
    input: Seq<char>,
    i: int,
    st: DateState,
    fmt: Seq<char>,
    stamps: Seq<Seq<char>>,
    k: int,
) -> Result<Seq<char>, DateError>
    decreases input.len() - i,
{
    if i < 0 || i >= input.len() {
        match st {
            DateState::Normal => Ok(Seq::empty()),
            DateState::PercentSeen => Ok(seq!['%']),
            DateState::AwaitingBrace => Err(DateError::UnterminatedDateIntroducer),
            DateState::InFormat => Err(DateError::UnterminatedFormat),
        }
    } else {
        let c = input[i];
        let empty = Seq::<char>::empty();
        match st {
            DateState::Normal => {
                if c == '%' {
                    expand_from(input, i + 1, DateState::PercentSeen, empty, stamps, k)
                } else {
                    date_prefixed(
                        seq![c],
                        expand_from(input, i + 1, DateState::Normal, empty, stamps, k),
                    )
                }
            },
            DateState::PercentSeen => {
                if c == 'D' {
                    expand_from(input, i + 1, DateState::AwaitingBrace, empty, stamps, k)
                } else {
                    date_prefixed(
                        seq!['%', c],
                        expand_from(input, i + 1, DateState::Normal, empty, stamps, k),
                    )
                }
            },
            DateState::AwaitingBrace => {
                if c == '{' {
                    expand_from(input, i + 1, DateState::InFormat, empty, stamps, k)
                } else {
                    Err(DateError::UnterminatedDateIntroducer)
                }
            },
            DateState::InFormat => {
                if c == '}' {
                    date_prefixed(
                        stamp_at(stamps, k),
                        expand_from(input, i + 1, DateState::Normal, empty, stamps, k + 1),
                    )
                } else {
                    expand_from(input, i + 1, DateState::InFormat, fmt.push(c), stamps, k)
                }
            },
        }
    }
}

/// What expanding `input` produces when its `k`-th date expression becomes
/// `stamps[k]`.
pub open spec fn expand_dates(input: Seq<char>, stamps: Seq<Seq<char>>) -> Result<
    Seq<char>,
    DateError,
> {
    expand_from(input, 0, DateState::Normal, Seq::empty(), stamps, 0)
}

/// The formats of the closed date expressions of `input` from position `i`
/// on, in order, up to the first malformed introducer.
pub open spec fn formats_from(input: Seq<char>, i: int, st: DateState, fmt: Seq<char>) -> Seq<
    Seq<char>,
>
    decreases input.len() - i,
{
    if i < 0 || i >= input.len() {
        Seq::empty()
    } else {
        let c = input[i];
        let empty = Seq::<char>::empty();
        match st {
            DateState::Normal => {
                if c == '%' {
                    formats_from(input, i + 1, DateState::PercentSeen, empty)
                } else {
                    formats_from(input, i + 1, DateState::Normal, empty)
                }
            },
            DateState::PercentSeen => {
                if c == 'D' {
                    formats_from(input, i + 1, DateState::AwaitingBrace, empty)
                } else {
                    formats_from(input, i + 1, DateState::Normal, empty)
                }
            },
            DateState::AwaitingBrace => {
                if c == '{' {
                    formats_from(input, i + 1, DateState::InFormat, empty)
                } else {
                    Seq::empty()
                }
            },
            DateState::InFormat => {
                if c == '}' {
                    seq![fmt] + formats_from(input, i + 1, DateState::Normal, empty)
                } else {
                    formats_from(input, i + 1, DateState::InFormat, fmt.push(c))
                }
            },
        }
    }
}

/// The formats of the date expressions of `input`, in order.
pub open spec fn date_formats(input: Seq<char>) -> Seq<Seq<char>> {
    formats_from(input, 0, DateState::Normal, Seq::empty())
}

/// A result with its text as a sequence of characters.
pub open spec fn date_result(r: Result<String, DateError>) -> Result<Seq<char>, DateError> {
    match r {
        Ok(t) => Ok(t@),
        Err(e) => Err(e),
    }
}

/// The text of each string.
pub open spec fn views(v: Seq<String>) -> Seq<Seq<char>> {
    v.map_values(|s: String| s@)
}

} // verus!

verus! {

proof fn lemma_date_prefixed_concat(p: Seq<char>, q: Seq<char>, r: Result<Seq<char>, DateError>)
    ensures
        date_prefixed(p, date_prefixed(q, r)) == date_prefixed(p + q, r),
{
    match r {
        Ok(s) => {
            assert(p + (q + s) =~= (p + q) + s);
        },
        Err(_) => {},
    }
}

/// The formats of the date expressions of `s`, in the order in which they
/// stand.
pub fn date_format_list(s: &str) -> (r: Vec<String>)
    ensures
        views(r@) == date_formats(s@),
{
    let input = chars_of(s);
    let n = input.len();
    let mut r: Vec<String> = Vec::new();
    let mut fmt: Vec<char> = Vec::new();
    let mut st = DateState::Normal;
    let mut i: usize = 0;
    while i < n
        invariant
            n == input@.len(),
            input@ == s@,
            i <= n,
            views(r@) + formats_from(input@, i as int, st, fmt@) == date_formats(input@),
        decreases n - i,
    {
        let c = input[i];
        let ghost old_r = views(r@);
        let ghost empty = Seq::<char>::empty();
        match st {
            DateState::Normal => {
                if c == '%' {
                    st = DateState::PercentSeen;
                }
                fmt = Vec::new();
            },
            DateState::PercentSeen => {
                st = if c == 'D' {
                    DateState::AwaitingBrace
                } else {
                    DateState::Normal
                };
                fmt = Vec::new();
            },
            DateState::AwaitingBrace => {
                if c != '{' {
                    assert(formats_from(input@, i as int, st, fmt@) == Seq::<Seq<char>>::empty());
                    assert(views(r@) + Seq::<Seq<char>>::empty() =~= views(r@));
                    return r;
                }
                st = DateState::InFormat;
                fmt = Vec::new();
            },
            DateState::InFormat => {
                if c == '}' {
                    let f = crate::text::string_of(&fmt);
                    r.push(f);
                    assert(views(r@) =~= old_r + seq![fmt@]);
                    assert(old_r + seq![fmt@] + formats_from(input@, i + 1, DateState::Normal, empty)
                        =~= old_r + (seq![fmt@] + formats_from(input@, i + 1, DateState::Normal, empty)));
                    st = DateState::Normal;
                    fmt = Vec::new();
                } else {
                    fmt.push(c);
                }
            },
        }
        assert(st != DateState::InFormat ==> fmt@ =~= empty);
        i = i + 1;
    }
    assert(views(r@) + Seq::<Seq<char>>::empty() =~= views(r@));
    r
}

/// Expands the date expressions of `s`: the `k`-th `%D{format}` becomes
/// `stamps[k]`, and everything else is kept.
pub fn expand_dates_with(s: &str, stamps: &Vec<String>) -> (r: Result<String, DateError>)
    ensures
        expand_dates(s@, views(stamps@)) == date_result(r),
{
    let input = chars_of(s);
    let n = input.len();
    let ghost ts = views(stamps@);
    let mut out = String::new();
    let mut st = DateState::Normal;
    let ghost mut fmt = Seq::<char>::empty();
    let mut k: usize = 0;
    let mut i: usize = 0;
    while i < n
        invariant
            n == input@.len(),
            input@ == s@,
            ts == views(stamps@),
            i <= n,
            k <= i,
            date_prefixed(out@, expand_from(input@, i as int, st, fmt, ts, k as int))
                == expand_dates(input@, ts),
        decreases n - i,
    {
        let c = input[i];
        let ghost old_out = out@;
        let ghost empty = Seq::<char>::empty();
        match st {
            DateState::Normal => {
                if c == '%' {
                    st = DateState::PercentSeen;
                } else {
                    push_char(&mut out, c);
                    assert(out@ =~= old_out + seq![c]);
                    proof {
                        lemma_date_prefixed_concat(old_out, seq![c], expand_from(input@, i + 1, st, empty, ts, k as int));
                    }
                }
                proof {
                    fmt = empty;
                }
            },
            DateState::PercentSeen => {
                if c == 'D' {
                    st = DateState::AwaitingBrace;
                } else {
                    push_char(&mut out, '%');
                    push_char(&mut out, c);
                    st = DateState::Normal;
                    assert(out@ =~= old_out + seq!['%', c]);
                    proof {
                        lemma_date_prefixed_concat(old_out, seq!['%', c], expand_from(input@, i + 1, st, empty, ts, k as int));
                    }
                }
                proof {
                    fmt = empty;
                }
            },
            DateState::AwaitingBrace => {
                if c != '{' {
                    return Err(DateError::UnterminatedDateIntroducer);
                }
                st = DateState::InFormat;
                proof {
                    fmt = empty;
                }
            },
            DateState::InFormat => {
                if c == '}' {
                    if k < stamps.len() {
                        out.append(stamps[k].as_str());
                        proof {
                            lemma_date_prefixed_concat(old_out, ts[k as int], expand_from(input@, i + 1, DateState::Normal, empty, ts, k + 1));
                        }
                    } else {
                        assert(old_out + empty =~= old_out);
                        proof {
                            lemma_date_prefixed_concat(old_out, empty, expand_from(input@, i + 1, DateState::Normal, empty, ts, k + 1));
                        }
                    }
                    st = DateState::Normal;
                    k = k + 1;
                    proof {
                        fmt = empty;
                    }
                } else {
                    proof {
                        fmt = fmt.push(c);
                    }
                }
            },
        }
        i = i + 1;
    }
    match st {
        DateState::Normal => {
            assert(expand_from(input@, i as int, st, fmt, ts, k as int) == Ok::<Seq<char>, DateError>(Seq::empty()));
            assert(out@ + Seq::<char>::empty() =~= out@);
            assert(date_prefixed(out@, Ok(Seq::empty())) == Ok::<Seq<char>, DateError>(out@));
            assert(expand_dates(input@, ts) == Ok::<Seq<char>, DateError>(out@));
            assert(expand_dates(s@, views(stamps@)) == Ok::<Seq<char>, DateError>(out@));
            Ok(out)
        },
        DateState::PercentSeen => {
            push_char(&mut out, '%');
            Ok(out)
        },
        DateState::AwaitingBrace => Err(DateError::UnterminatedDateIntroducer),
        DateState::InFormat => Err(DateError::UnterminatedFormat),
    }
}

} // verus!

verus! {

/// Relies on chrono's `Local::now` and the `Display` of the `DelayedFormat`
/// that `DateTime::format` returns: the current local time written with a
/// strftime-style pattern, or `None` where the pattern holds an item that
/// chrono cannot format. Nothing is known of the text, which depends on the
/// clock.
#[verifier::external_body]
fn format_local_now(pattern: &str) -> (r: Option<String>) {
    let mut out = String::new();
    match write!(out, "{}", chrono::Local::now().format(pattern)) {
        Ok(()) => Some(out),
        Err(_) => None,
    }
}

/// Stands for the current time where a date format cannot be written.
pub fn unavailable_date() -> (r: String)
    ensures
        r@ == seq!['?', '?', '?'],
{
    let r = String::from_str("???");
    proof {
        reveal_strlit("???");
    }
    assert(r@ =~= seq!['?', '?', '?']);
    r
}

/// The text that stands for one date expression: what the clock wrote, or
/// the text of `unavailable_date` where it could not write the format.
pub fn date_stamp(written: Option<String>) -> (r: String)
    ensures
        written is Some ==> r@ == written->0@,
        written is None ==> r@ == seq!['?', '?', '?'],
{
    match written {
        Some(t) => t,
        None => unavailable_date(),
    }
}

/// Expands the date expressions of `s` with the current local time: each
/// `%D{format}` becomes the time written with `format`, or the text of
/// `unavailable_date` where chrono cannot write it. Whatever the clock says,
/// the result is what `expand_dates_with` makes of `s` and one text per
/// date expression.
pub fn strftime_replace(s: String) -> (r: Result<String, DateError>)
    ensures
        exists|stamps: Seq<Seq<char>>|
            stamps.len() == date_formats(s@).len() && #[trigger] expand_dates(s@, stamps)
                == date_result(r),
{
    let formats = date_format_list(s.as_str());
    let mut stamps: Vec<String> = Vec::new();
    let mut j: usize = 0;
    while j < formats.len()
        invariant
            j <= formats@.len(),
            stamps@.len() == j,
        decreases formats@.len() - j,
    {
        let stamp = date_stamp(format_local_now(formats[j].as_str()));
        stamps.push(stamp);
        j = j + 1;
    }
    let r = expand_dates_with(s.as_str(), &stamps);
    assert(views(stamps@).len() == date_formats(s@).len());
    r
}

/// With a fixed clock, a date expression between plain text becomes exactly
/// the clock's text: `p%D{f}q` expands to `p`, the stamp, then `q`, and `f`
/// is the one format handed to the clock.
pub proof fn lemma_date_expression_expands(
    p: Seq<char>,
    f: Seq<char>,
    q: Seq<char>,
    stamp: Seq<char>,
)
    requires
        forall|j: int| 0 <= j < p.len() ==> #[trigger] p[j] != '%',
        forall|j: int| 0 <= j < f.len() ==> #[trigger] f[j] != '}',
        forall|j: int| 0 <= j < q.len() ==> #[trigger] q[j] != '%',
    ensures
        expand_dates(p + seq!['%', 'D', '{'] + f + seq!['}'] + q, seq![stamp])
            == Ok::<Seq<char>, DateError>(p + stamp + q),
        date_formats(p + seq!['%', 'D', '{'] + f + seq!['}'] + q) == seq![f],
{
    let input = p + seq!['%', 'D', '{'] + f + seq!['}'] + q;
    let ts = seq![stamp];
    let a = p.len() as int;
    let b = a + 3 + f.len();
    let e = Seq::<char>::empty();
    assert(input[a] == '%' && input[a + 1] == 'D' && input[a + 2] == '{' && input[b] == '}');
    assert forall|j: int| 0 <= j < a implies #[trigger] input[j] != '%' by {
        assert(input[j] == p[j]);
    }
    assert forall|j: int| a + 3 <= j < b implies #[trigger] input[j] != '}' by {
        assert(input[j] == f[j - a - 3]);
    }
    assert forall|j: int| b + 1 <= j < input.len() implies #[trigger] input[j] != '%' by {
        assert(input[j] == q[j - b - 1]);
    }
    lemma_plain_tail(input, b + 1, ts, 1);
    assert(input.subrange(b + 1, input.len() as int) =~= q);
    lemma_format_run(input, a + 3, b, ts);
    assert(input.subrange(a + 3, b) =~= f);
    assert(e + input.subrange(a + 3, b) =~= f);
    assert(expand_from(input, a + 3, DateState::InFormat, e, ts, 0) == expand_from(
        input,
        b,
        DateState::InFormat,
        e + input.subrange(a + 3, b),
        ts,
        0,
    ));
    assert(formats_from(input, a + 3, DateState::InFormat, e) == formats_from(
        input,
        b,
        DateState::InFormat,
        e + input.subrange(a + 3, b),
    ));
    assert(expand_from(input, b, DateState::InFormat, f, ts, 0) == date_prefixed(
        stamp,
        expand_from(input, b + 1, DateState::Normal, e, ts, 1),
    ));
    assert(formats_from(input, b, DateState::InFormat, f) == seq![f] + formats_from(
        input,
        b + 1,
        DateState::Normal,
        e,
    ));
    assert(seq![f] + Seq::<Seq<char>>::empty() =~= seq![f]);
    lemma_plain_head(input, 0, a, ts);
    assert(input.subrange(0, a) =~= p);
    lemma_date_prefixed_concat(p, stamp, Ok(q));
    assert(p + (stamp + q) =~= p + stamp + q);
}

proof fn lemma_plain_head(input: Seq<char>, i: int, a: int, ts: Seq<Seq<char>>)
    requires
        0 <= i <= a,
        a + 3 <= input.len(),
        input[a] == '%' && input[a + 1] == 'D' && input[a + 2] == '{',
        forall|j: int| i <= j < a ==> #[trigger] input[j] != '%',
    ensures
        expand_from(input, i, DateState::Normal, Seq::empty(), ts, 0) == date_prefixed(
            input.subrange(i, a),
            expand_from(input, a + 3, DateState::InFormat, Seq::empty(), ts, 0),
        ),
        formats_from(input, i, DateState::Normal, Seq::empty()) == formats_from(
            input,
            a + 3,
            DateState::InFormat,
            Seq::empty(),
        ),
    decreases a - i,
{
    let e = Seq::<char>::empty();
    let rest = expand_from(input, a + 3, DateState::InFormat, e, ts, 0);
    if i == a {
        assert(expand_from(input, a + 1, DateState::PercentSeen, e, ts, 0) == expand_from(input, a + 2, DateState::AwaitingBrace, e, ts, 0));
        assert(formats_from(input, a + 1, DateState::PercentSeen, e) == formats_from(input, a + 2, DateState::AwaitingBrace, e));
        match rest {
            Ok(s) => {
                assert(input.subrange(i, a) + s =~= s);
            },
            Err(_) => {},
        }
    } else {
        lemma_plain_head(input, i + 1, a, ts);
        lemma_date_prefixed_concat(seq![input[i]], input.subrange(i + 1, a), rest);
        assert(seq![input[i]] + input.subrange(i + 1, a) =~= input.subrange(i, a));
    }
}

proof fn lemma_format_run(input: Seq<char>, i: int, b: int, ts: Seq<Seq<char>>)
    requires
        0 <= i <= b < input.len(),
        forall|j: int| i <= j < b ==> #[trigger] input[j] != '}',
    ensures
        forall|fmt: Seq<char>|
            expand_from(input, i, DateState::InFormat, fmt, ts, 0) == #[trigger] expand_from(
                input,
                b,
                DateState::InFormat,
                fmt + input.subrange(i, b),
                ts,
                0,
            ),
        forall|fmt: Seq<char>|
            formats_from(input, i, DateState::InFormat, fmt) == #[trigger] formats_from(
                input,
                b,
                DateState::InFormat,
                fmt + input.subrange(i, b),
            ),
    decreases b - i,
{
    if i < b {
        lemma_format_run(input, i + 1, b, ts);
        assert forall|fmt: Seq<char>|
            expand_from(input, i, DateState::InFormat, fmt, ts, 0) == #[trigger] expand_from(
                input,
                b,
                DateState::InFormat,
                fmt + input.subrange(i, b),
                ts,
                0,
            ) by {
            assert(fmt.push(input[i]) + input.subrange(i + 1, b) =~= fmt + input.subrange(i, b));
            assert(expand_from(input, i + 1, DateState::InFormat, fmt.push(input[i]), ts, 0)
                == expand_from(input, b, DateState::InFormat, fmt.push(input[i]) + input.subrange(i + 1, b), ts, 0));
        }
        assert forall|fmt: Seq<char>|
            formats_from(input, i, DateState::InFormat, fmt) == #[trigger] formats_from(
                input,
                b,
                DateState::InFormat,
                fmt + input.subrange(i, b),
            ) by {
            assert(fmt.push(input[i]) + input.subrange(i + 1, b) =~= fmt + input.subrange(i, b));
            assert(formats_from(input, i + 1, DateState::InFormat, fmt.push(input[i]))
                == formats_from(input, b, DateState::InFormat, fmt.push(input[i]) + input.subrange(i + 1, b)));
        }
    } else {
        assert forall|fmt: Seq<char>| fmt + input.subrange(i, b) == fmt by {
            assert(fmt + input.subrange(i, b) =~= fmt);
        }
    }
}

proof fn lemma_plain_tail(input: Seq<char>, i: int, ts: Seq<Seq<char>>, k: int)
    requires
        0 <= i <= input.len(),
        forall|j: int| i <= j < input.len() ==> #[trigger] input[j] != '%',
    ensures
        expand_from(input, i, DateState::Normal, Seq::empty(), ts, k) == Ok::<
            Seq<char>,
            DateError,
        >(input.subrange(i, input.len() as int)),
        formats_from(input, i, DateState::Normal, Seq::empty()) == Seq::<Seq<char>>::empty(),
    decreases input.len() - i,
{
    if i < input.len() {
        lemma_plain_tail(input, i + 1, ts, k);
        assert(seq![input[i]] + input.subrange(i + 1, input.len() as int) =~= input.subrange(
            i,
            input.len() as int,
        ));
    } else {
        assert(input.subrange(i, input.len() as int) =~= Seq::<char>::empty());
    }
}

/// A doubled percent sign keeps a date expression from being expanded:
/// `%%D{x}` comes out as it went in, whatever the clock says.
pub proof fn lemma_doubled_percent_kept(stamps: Seq<Seq<char>>)
    ensures
        expand_dates(seq!['%', '%', 'D', '{', 'x', '}'], stamps) == Ok::<Seq<char>, DateError>(
            seq!['%', '%', 'D', '{', 'x', '}'],
        ),
        date_formats(seq!['%', '%', 'D', '{', 'x', '}']) == Seq::<Seq<char>>::empty(),
{
    let input = seq!['%', '%', 'D', '{', 'x', '}'];
    let e = Seq::<char>::empty();
    lemma_plain_tail(input, 2, stamps, 0);
    assert(input.subrange(2, 6) =~= seq!['D', '{', 'x', '}']);
    assert(expand_from(input, 1, DateState::PercentSeen, e, stamps, 0) == date_prefixed(
        seq!['%', '%'],
        expand_from(input, 2, DateState::Normal, e, stamps, 0),
    ));
    assert(seq!['%', '%'] + seq!['D', '{', 'x', '}'] =~= input);
    assert(formats_from(input, 1, DateState::PercentSeen, e) == formats_from(input, 2, DateState::Normal, e));
}

} // verus!
