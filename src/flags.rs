use vstd::prelude::*;

verus! {

/// Print each command before it runs (`x`).
pub const PEXEC: u16 = 0x1;

/// Print each command before it runs, conditionals left out (`X`). No
/// conditional constructs exist yet, so it acts as `PEXEC` would.
pub const LPEXEC: u16 = 0x2;

/// Stop the shell after a command that fails (`e`).
pub const EXITONFAIL: u16 = 0x4;

/// Treat unset variables as errors (`u`). Registered, not consulted.
pub const ERRUNSET: u16 = 0x8;

/// A set of shell flags, one bit per flag.
#[derive(PartialEq, Eq, Structural, Clone, Copy, Debug)]
pub struct Flags {
    pub bits: u16,
}

/// The bit of the flag that `c` names, if it names one.
pub open spec fn flag_bit(c: char) -> Option<u16> {
    if c == 'x' {
        Some(PEXEC)
    } else if c == 'X' {
        Some(LPEXEC)
    } else if c == 'e' {
        Some(EXITONFAIL)
    } else if c == 'u' {
        Some(ERRUNSET)
    } else {
        None
    }
}

impl Flags {
    /// No flag set.
    pub fn empty() -> (r: Flags)
        ensures
            r.bits == 0,
    {
        Flags { bits: 0 }
    }

    /// Every flag of `other` is set in `self`.
    pub fn contains(&self, other: Flags) -> (r: bool)
        ensures
            r == (self.bits & other.bits == other.bits),
    {
        self.bits & other.bits == other.bits
    }

    /// The flags of `self` and those of `other`.
    pub fn union(&self, other: Flags) -> (r: Flags)
        ensures
            r.bits == self.bits | other.bits,
    {
        Flags { bits: self.bits | other.bits }
    }

    /// The flags of `self` without those of `other`.
    pub fn difference(&self, other: Flags) -> (r: Flags)
        ensures
            r.bits == self.bits & !other.bits,
    {
        Flags { bits: self.bits & !other.bits }
    }
}

/// The flag that the character `c` names: `x`, `X`, `e` or `u`.
pub fn flag_for(c: char) -> (r: Option<Flags>)
    ensures
        r is Some <==> flag_bit(c) is Some,
        r is Some ==> r->0.bits == flag_bit(c)->0,
{
    if c == 'x' {
        Some(Flags { bits: PEXEC })
    } else if c == 'X' {
        Some(Flags { bits: LPEXEC })
    } else if c == 'e' {
        Some(Flags { bits: EXITONFAIL })
    } else if c == 'u' {
        Some(Flags { bits: ERRUNSET })
    } else {
        None
    }
}

/// Why `set` stopped.
#[derive(PartialEq, Eq, Structural, Clone, Copy, Debug)]
pub enum SetError {
    /// A character after the leading `-` or `+` that names no flag.
    InvalidFlag(char),
    /// An argument that does not start with `-` or `+`.
    NotAFlag,
}

/// Applies the flag characters of `a` from position `j` on, setting each
/// flag where `on` holds and clearing it otherwise. The first character that
/// names no flag stops the work; what came before it stays applied.
pub open spec fn set_chars(bits: u16, on: bool, a: Seq<char>, j: int) -> (u16, Option<SetError>)
    decreases a.len() - j,
{
    if j < 0 || j >= a.len() {
        (bits, None)
    } else {
        match flag_bit(a[j]) {
            None => (bits, Some(SetError::InvalidFlag(a[j]))),
            Some(b) => set_chars(
                if on {
                    bits | b
                } else {
                    bits & !b
                },
                on,
                a,
                j + 1,
            ),
        }
    }
}

/// Applies the arguments of `set` from position `i` on: `-` followed by flag
/// characters sets them, `+` clears them. The first error stops the work.
pub open spec fn set_args(bits: u16, args: Seq<Seq<char>>, i: int) -> (u16, Option<SetError>)
    decreases args.len() - i,
{
    if i < 0 || i >= args.len() {
        (bits, None)
    } else {
        let a = args[i];
        if a.len() == 0 || (a[0] != '-' && a[0] != '+') {
            (bits, Some(SetError::NotAFlag))
        } else {
            let (b, e) = set_chars(bits, a[0] == '-', a, 1);
            if e is Some {
                (b, e)
            } else {
                set_args(b, args, i + 1)
            }
        }
    }
}

/// Applies the arguments `args[1..]` of a `set` command to `flags`; returns
/// the new flags and the error that stopped the work, if any.
pub fn apply_set(flags: Flags, args: &Vec<String>) -> (r: (Flags, Option<SetError>))
    ensures
        (r.0.bits, r.1) == set_args(flags.bits, crate::dates::views(args@), 1),
{
    let ghost va = crate::dates::views(args@);
    let mut bits = flags.bits;
    let mut i: usize = 1;
    if args.len() == 0 {
        return (flags, None);
    }
    while i < args.len()
        invariant
            va == crate::dates::views(args@),
            1 <= i <= args@.len(),
            set_args(bits, va, i as int) == set_args(flags.bits, va, 1),
        decreases args@.len() - i,
    {
        let a = crate::text::chars_of(args[i].as_str());
        assert(a@ == va[i as int]);
        if a.len() == 0 || (a[0] != '-' && a[0] != '+') {
            return (Flags { bits }, Some(SetError::NotAFlag));
        }
        let on = a[0] == '-';
        let ghost start = bits;
        let mut j: usize = 1;
        while j < a.len()
            invariant
                1 <= j <= a@.len(),
                a@ == va[i as int],
                a@.len() > 0,
                on == (a@[0] == '-'),
                va == crate::dates::views(args@),
                1 <= i < args@.len(),
                set_args(start, va, i as int) == set_args(flags.bits, va, 1),
                set_args(start, va, i as int) == ({
                    let (b, e) = set_chars(start, on, a@, 1);
                    if e is Some {
                        (b, e)
                    } else {
                        set_args(b, va, i + 1)
                    }
                }),
                set_chars(bits, on, a@, j as int) == set_chars(start, on, a@, 1),
            decreases a@.len() - j,
        {
            match flag_for(a[j]) {
                None => {
                    return (Flags { bits }, Some(SetError::InvalidFlag(a[j])));
                },
                Some(f) => {
                    bits = if on {
                        bits | f.bits
                    } else {
                        bits & !f.bits
                    };
                },
            }
            j = j + 1;
        }
        i = i + 1;
    }
    (Flags { bits }, None)
}

/// A `set -c` whose flag character `c` names no flag changes nothing and
/// reports `c`, whatever follows it.
pub proof fn lemma_unknown_flag_changes_nothing(bits: u16, c: char, rest: Seq<Seq<char>>)
    requires
        flag_bit(c) is None,
    ensures
        set_args(bits, seq![seq!['s', 'e', 't'], seq!['-', c]] + rest, 1) == (
            bits,
            Some(SetError::InvalidFlag(c)),
        ),
{
    let args = seq![seq!['s', 'e', 't'], seq!['-', c]] + rest;
    assert(args[1] == seq!['-', c]);
    assert(set_chars(bits, true, seq!['-', c], 1) == (bits, Some(SetError::InvalidFlag(c))));
}

} // verus!
