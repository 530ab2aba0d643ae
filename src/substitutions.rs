use crate::table::SubstitutionTable;
use crate::text::{chars_of, push_char, string_of};
use vstd::prelude::*;
use vstd::string::*;

verus! {

/// What a prompt's placeholders are built from, as looked up by the caller.
/// A lookup that failed is `None`.
pub struct PromptFacts {
    /// The effective user id.
    pub uid: u32,
    /// The name of that user.
    pub user_name: Option<String>,
    pub command_count: u64,
    pub history_count: u64,
    /// The program's version as `major.minor`.
    pub version_short: String,
    /// The program's full version.
    pub version: String,
    pub hostname: String,
    /// The last component of the controlling terminal's path; `None` where
    /// there is no terminal or its path ends in no named component.
    pub tty_name: Option<String>,
    /// The path the program was started by.
    pub program: String,
    pub cwd: String,
    pub home: String,
    /// The date as weekday, month and day.
    pub date: Option<String>,
    /// The time as 24-hour `HH:MM:SS`.
    pub time_24: Option<String>,
    /// The time as 12-hour `HH:MM:SS` with AM or PM.
    pub time_12: Option<String>,
    /// The time as 12-hour `HH:MM` with AM or PM.
    pub clock_12: Option<String>,
    /// The time as 24-hour `HH:MM`.
    pub clock_24: Option<String>,
}

/// The decimal digits of `n`, most significant first.
pub open spec fn decimal(n: nat) -> Seq<char>
    decreases n,
{
    if n < 10 {
        seq![digit_char(n)]
    } else {
        decimal(n / 10).push(digit_char(n % 10))
    }
}

/// The decimal digit that writes `d`, for `d` below ten.
pub open spec fn digit_char(d: nat) -> char {
    if d == 0 {
        '0'
    } else if d == 1 {
        '1'
    } else if d == 2 {
        '2'
    } else if d == 3 {
        '3'
    } else if d == 4 {
        '4'
    } else if d == 5 {
        '5'
    } else if d == 6 {
        '6'
    } else if d == 7 {
        '7'
    } else if d == 8 {
        '8'
    } else {
        '9'
    }
}

fn digit(d: u64) -> (r: char)
    requires
        d < 10,
    ensures
        r == digit_char(d as nat),
{
    if d == 0 {
        '0'
    } else if d == 1 {
        '1'
    } else if d == 2 {
        '2'
    } else if d == 3 {
        '3'
    } else if d == 4 {
        '4'
    } else if d == 5 {
        '5'
    } else if d == 6 {
        '6'
    } else if d == 7 {
        '7'
    } else if d == 8 {
        '8'
    } else {
        '9'
    }
}

/// The part of `s` after its last `/`, or all of `s` where it holds none.
pub open spec fn after_last_slash(s: Seq<char>) -> Seq<char>
    decreases s.len(),
{
    if s.len() == 0 {
        s
    } else if s.last() == '/' {
        Seq::empty()
    } else {
        after_last_slash(s.drop_last()).push(s.last())
    }
}

/// The part of `s` before its first `.`, or all of `s` where it holds none.
pub open spec fn before_first_dot(s: Seq<char>) -> Seq<char>
    decreases s.len(),
{
    if s.len() == 0 {
        s
    } else if s[0] == '.' {
        Seq::empty()
    } else {
        seq![s[0]] + before_first_dot(s.drop_first())
    }
}

/// `cwd` with a leading `home` written as `~/`, where `home` is not empty
/// and ends at a path boundary of `cwd`.
pub open spec fn home_relative(cwd: Seq<char>, home: Seq<char>) -> Seq<char> {
    if home.len() > 0 && home.len() <= cwd.len() && cwd.take(home.len() as int) == home && (
    cwd.len() == home.len() || cwd[home.len() as int] == '/') {
        let rest = cwd.skip(home.len() as int);
        seq!['~', '/'] + if rest.len() > 0 {
            rest.drop_first()
        } else {
            rest
        }
    } else {
        cwd
    }
}

/// The text of a fact that may be missing, with `fallback` in its place.
pub open spec fn or_else(v: Option<String>, fallback: Seq<char>) -> Seq<char> {
    match v {
        Some(s) => s@,
        None => fallback,
    }
}

/// The table that `prompt_map` builds from `f`.
pub open spec fn prompt_table(f: PromptFacts) -> Map<char, Seq<char>> {
    let w = home_relative(f.cwd@, f.home@);
    Map::<char, Seq<char>>::empty().insert(
        '$',
        if f.uid == 0 {
            seq!['#']
        } else {
            seq!['$']
        },
    ).insert('u', or_else(f.user_name, decimal(f.uid as nat))).insert(
        '#',
        decimal(f.command_count as nat),
    ).insert('!', decimal(f.history_count as nat)).insert('v', f.version_short@).insert(
        'V',
        f.version@,
    ).insert('h', before_first_dot(f.hostname@)).insert('H', f.hostname@).insert(
        'l',
        or_else(f.tty_name, seq!['e', 'r', 'r']),
    ).insert('s', after_last_slash(f.program@)).insert('w', w).insert(
        'W',
        after_last_slash(w),
    ).insert('d', or_else(f.date, "???, ??? ??"@)).insert('t', or_else(f.time_24, "??:??:??"@)).insert(
        'T',
        or_else(f.time_12, "??:??:??"@),
    ).insert('@', or_else(f.clock_12, "??:?? ?M"@)).insert('A', or_else(f.clock_24, "??:??"@))
}

/// The decimal digits of `n`.
pub fn decimal_string(n: u64) -> (r: String)
    ensures
        r@ == decimal(n as nat),
    decreases n,
{
    let d = digit(n % 10);
    if n < 10 {
        let mut r = String::new();
        push_char(&mut r, d);
        assert(r@ =~= decimal(n as nat));
        r
    } else {
        let mut r = decimal_string(n / 10);
        push_char(&mut r, d);
        r
    }
}

/// The part of `s` after its last `/`.
pub fn last_segment(s: &str) -> (r: String)
    ensures
        r@ == after_last_slash(s@),
{
    let v = chars_of(s);
    let mut start: usize = v.len();
    while start > 0 && v[start - 1] != '/'
        invariant
            start <= v@.len(),
            forall|k: int| start <= k < v@.len() ==> v@[k] != '/',
        decreases start,
    {
        start = start - 1;
    }
    let mut out: Vec<char> = Vec::new();
    let mut i: usize = start;
    while i < v.len()
        invariant
            start <= i <= v@.len(),
            out@ == v@.subrange(start as int, i as int),
        decreases v@.len() - i,
    {
        out.push(v[i]);
        i = i + 1;
        assert(out@ =~= v@.subrange(start as int, i as int));
    }
    proof {
        lemma_after_last_slash(v@, start as int);
    }
    string_of(&out)
}

proof fn lemma_after_last_slash(s: Seq<char>, start: int)
    requires
        0 <= start <= s.len(),
        forall|k: int| start <= k < s.len() ==> s[k] != '/',
        start > 0 ==> s[start - 1] == '/',
    ensures
        after_last_slash(s) == s.subrange(start, s.len() as int),
    decreases s.len(),
{
    if s.len() == 0 {
        assert(s.subrange(start, 0) =~= s);
    } else if s.len() - 1 < start {
        assert(s.last() == '/');
        assert(s.subrange(start, s.len() as int) =~= Seq::<char>::empty());
    } else {
        assert(s.last() != '/');
        let t = s.drop_last();
        assert forall|k: int| start <= k < t.len() implies t[k] != '/' by {
            assert(t[k] == s[k]);
        }
        lemma_after_last_slash(t, start);
        assert(t.subrange(start, t.len() as int).push(s.last()) =~= s.subrange(start, s.len() as int));
    }
}

/// The part of `s` before its first `.`.
pub fn first_label(s: &str) -> (r: String)
    ensures
        r@ == before_first_dot(s@),
{
    let v = chars_of(s);
    let mut i: usize = 0;
    while i < v.len() && v[i] != '.'
        invariant
            i <= v@.len(),
            forall|k: int| 0 <= k < i ==> v@[k] != '.',
        decreases v@.len() - i,
    {
        i = i + 1;
    }
    let mut out: Vec<char> = Vec::new();
    let mut j: usize = 0;
    while j < i
        invariant
            j <= i <= v@.len(),
            out@ == v@.take(j as int),
        decreases i - j,
    {
        out.push(v[j]);
        j = j + 1;
        assert(out@ =~= v@.take(j as int));
    }
    proof {
        lemma_before_first_dot(v@, i as int);
    }
    string_of(&out)
}

proof fn lemma_before_first_dot(s: Seq<char>, i: int)
    requires
        0 <= i <= s.len(),
        forall|k: int| 0 <= k < i ==> s[k] != '.',
        i < s.len() ==> s[i] == '.',
    ensures
        before_first_dot(s) == s.take(i),
    decreases s.len(),
{
    if s.len() == 0 {
        assert(s.take(i) =~= s);
    } else if i == 0 {
        assert(s.take(0) =~= Seq::<char>::empty());
    } else {
        let t = s.drop_first();
        assert forall|k: int| 0 <= k < i - 1 implies t[k] != '.' by {
            assert(t[k] == s[k + 1]);
        }
        lemma_before_first_dot(t, i - 1);
        assert(seq![s[0]] + t.take(i - 1) =~= s.take(i));
    }
}

/// `cwd` with a leading `home` written as `~/`.
pub fn home_relative_path(cwd: &str, home: &str) -> (r: String)
    ensures
        r@ == home_relative(cwd@, home@),
{
    let c = chars_of(cwd);
    let h = chars_of(home);
    let n = h.len();
    if n == 0 || n > c.len() {
        return string_of(&c);
    }
    let mut i: usize = 0;
    while i < n
        invariant
            i <= n,
            n == h@.len(),
            n <= c@.len(),
            c@ == cwd@,
            h@ == home@,
            forall|k: int| 0 <= k < i ==> c@[k] == h@[k],
        decreases n - i,
    {
        if c[i] != h[i] {
            assert(c@.take(n as int)[i as int] == c@[i as int]);
            assert(c@.take(n as int) != h@);
            return string_of(&c);
        }
        i = i + 1;
    }
    assert(c@.take(n as int) =~= h@);
    if n < c.len() && c[n] != '/' {
        return string_of(&c);
    }
    let mut out: Vec<char> = Vec::new();
    out.push('~');
    out.push('/');
    let mut j: usize = if n < c.len() {
        n + 1
    } else {
        n
    };
    let ghost first = j;
    let ghost rest = c@.skip(n as int);
    assert(rest.len() > 0 ==> rest.drop_first() =~= c@.subrange(first as int, c@.len() as int));
    assert(rest.len() == 0 ==> rest =~= c@.subrange(first as int, c@.len() as int));
    while j < c.len()
        invariant
            first <= j <= c@.len(),
            out@ == seq!['~', '/'] + c@.subrange(first as int, j as int),
        decreases c@.len() - j,
    {
        out.push(c[j]);
        j = j + 1;
        assert(out@ =~= seq!['~', '/'] + c@.subrange(first as int, j as int));
    }
    string_of(&out)
}

} // verus!

verus! {

fn text_or(v: &Option<String>, fallback: &str) -> (r: String)
    ensures
        r@ == match v {
            Some(s) => s@,
            None => fallback@,
        },
{
    match v {
        Some(s) => s.clone(),
        None => String::from_str(fallback),
    }
}

/// Builds the placeholder table of a prompt from `f`: `$` is `#` for the
/// superuser and `$` otherwise; `u` the user name or the id; `#` and `!`
/// the command and history counts; `v` and `V` the version; `h` and `H` the
/// short and full host name; `l` the terminal's name or `err`; `s` the
/// program's name; `w` and `W` the working directory relative to home, in
/// full and its last part; `d`, `t`, `T`, `@` and `A` the date and times,
/// each with a fixed stand-in where it could not be looked up.
pub fn prompt_map(f: &PromptFacts) -> (r: SubstitutionTable)
    ensures
        r@ == prompt_table(*f),
{
    let mut t = SubstitutionTable::new();
    let mut sym = String::new();
    push_char(&mut sym, if f.uid == 0 { '#' } else { '$' });
    assert(sym@ =~= (if f.uid == 0 { seq!['#'] } else { seq!['$'] }));
    t.insert('$', sym);
    let user = match &f.user_name {
        Some(u) => u.clone(),
        None => decimal_string(f.uid as u64),
    };
    t.insert('u', user);
    t.insert('#', decimal_string(f.command_count));
    t.insert('!', decimal_string(f.history_count));
    t.insert('v', f.version_short.clone());
    t.insert('V', f.version.clone());
    t.insert('h', first_label(f.hostname.as_str()));
    t.insert('H', f.hostname.clone());
    let tty = match &f.tty_name {
        Some(p) => p.clone(),
        None => {
            let e = String::from_str("err");
            proof {
                reveal_strlit("err");
            }
            assert(e@ =~= seq!['e', 'r', 'r']);
            e
        },
    };
    t.insert('l', tty);
    t.insert('s', last_segment(f.program.as_str()));
    let w = home_relative_path(f.cwd.as_str(), f.home.as_str());
    let base = last_segment(w.as_str());
    t.insert('w', w);
    t.insert('W', base);
    t.insert('d', text_or(&f.date, "???, ??? ??"));
    t.insert('t', text_or(&f.time_24, "??:??:??"));
    t.insert('T', text_or(&f.time_12, "??:??:??"));
    t.insert('@', text_or(&f.clock_12, "??:?? ?M"));
    t.insert('A', text_or(&f.clock_24, "??:??"));
    t
}

} // verus!
