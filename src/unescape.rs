use crate::table::SubstitutionTable;
use crate::text::push_char;
use vstd::prelude::*;

verus! {

/// Relies on `char::from_u32`: `Some` exactly for Unicode scalar values,
/// holding the character with that code point.
pub assume_specification[ core::char::from_u32 ](i: u32) -> (r: Option<char>)
    ensures
        r is Some <==> is_scalar(i as int),
        r is Some ==> r->0 as u32 == i,
;

/// Whether `v` is a Unicode scalar value (a code point that is no surrogate).
pub open spec fn is_scalar(v: int) -> bool {
    0 <= v <= 0x10FFFF && !(0xD800 <= v <= 0xDFFF)
}

/// The character whose code point is `v`.
pub open spec fn char_of(v: int) -> char {
    (v as u32) as char
}

pub open spec fn is_hex_digit(c: char) -> bool {
    ('0' <= c <= '9') || ('a' <= c <= 'f') || ('A' <= c <= 'F')
}

pub open spec fn is_octal_digit(c: char) -> bool {
    '0' <= c <= '7'
}

pub open spec fn hex_digit_value(c: char) -> int {
    if '0' <= c <= '9' {
        c as int - '0' as int
    } else if 'a' <= c <= 'f' {
        c as int - 'a' as int + 10
    } else {
        c as int - 'A' as int + 10
    }
}

/// The number that the hex digits `s` write, most significant first.
pub open spec fn hex_value(s: Seq<char>) -> int
    decreases s.len(),
{
    if s.len() == 0 {
        0
    } else {
        hex_value(s.drop_last()) * 16 + hex_digit_value(s.last())
    }
}

/// The number that the octal digits `s` write, most significant first.
pub open spec fn octal_value(s: Seq<char>) -> int
    decreases s.len(),
{
    if s.len() == 0 {
        0
    } else {
        octal_value(s.drop_last()) * 8 + (s.last() as int - '0' as int)
    }
}

/// A hex escape's digits stand for a character: there is at least one, and
/// their value is a Unicode scalar value.
pub open spec fn hex_ok(buf: Seq<char>) -> bool {
    buf.len() > 0 && is_scalar(hex_value(buf))
}

/// An octal escape's digits stand for a character. The first digit may be
/// `8` or `9`, which no octal number holds.
pub open spec fn octal_ok(buf: Seq<char>) -> bool {
    forall|k: int| 0 <= k < buf.len() ==> is_octal_digit(#[trigger] buf[k])
}

/// The character that a backslash followed by `c` stands for, where `c` is
/// one of the named control escapes or a backslash.
pub open spec fn control_escape(c: char) -> Option<char> {
    if c == 'n' {
        Some('\n')
    } else if c == 't' {
        Some('\t')
    } else if c == 'r' {
        Some('\r')
    } else if c == 'v' {
        Some('\x0b')
    } else if c == 'e' {
        Some('\x1b')
    } else if c == 'a' {
        Some('\x07')
    } else if c == 'b' {
        Some('\x08')
    } else if c == 'f' {
        Some('\x0c')
    } else if c == '\\' {
        Some('\\')
    } else {
        None
    }
}

/// Marks the start of a zero-width region of a prompt (`\[`).
pub const REGION_START: char = '\x01';

/// Marks the end of a zero-width region of a prompt (`\]`).
pub const REGION_END: char = '\x02';

/// The decoder's state between two characters.
#[derive(PartialEq, Eq, Structural, Clone, Copy, Debug)]
pub enum DecoderState {
    Normal,
    Escaped,
    AwaitingPlaceholder,
    HexAccumulate,
    OctalAccumulate,
}

/// Why a template could not be decoded, as a value of the model.
pub enum DecodeFault {
    UnknownPlaceholder(char),
    InvalidHexEscape(Seq<char>),
    InvalidOctalEscape(Seq<char>),
}

/// Why a template could not be decoded.
#[derive(Debug)]
pub enum DecodeError {
    /// `%c` where the table has no key `c`.
    UnknownPlaceholder(char),
    /// `\x` with digits that are missing or name no character.
    InvalidHexEscape(String),
    /// A backslash and digits that are not an octal number.
    InvalidOctalEscape(String),
}

impl View for DecodeError {
    type V = DecodeFault;

    open spec fn view(&self) -> DecodeFault {
        match self {
            DecodeError::UnknownPlaceholder(c) => DecodeFault::UnknownPlaceholder(*c),
            DecodeError::InvalidHexEscape(b) => DecodeFault::InvalidHexEscape(b@),
            DecodeError::InvalidOctalEscape(b) => DecodeFault::InvalidOctalEscape(b@),
        }
    }
}

/// `p` in front of a successful result; an error is passed on.
pub open spec fn prefixed(p: Seq<char>, r: Result<Seq<char>, DecodeFault>) -> Result<
    Seq<char>,
    DecodeFault,
> {
    match r {
        Ok(s) => Ok(p + s),
        Err(e) => Err(e),
    }
}

pub open spec fn state_rank(st: DecoderState) -> int {
    match st {
        DecoderState::HexAccumulate => 1,
        DecoderState::OctalAccumulate => 1,
        _ => 0,
    }
}

/// What decoding `input` from position `i` on produces, in state `st` with
/// pending digits `buf`. Input that ends in any state but `Normal` drops what
/// was pending. A hex or octal escape that ends before another character
/// hands that character back to be read again in `Normal`.
pub open spec fn decode_from(
    input: Seq<char>,
    table: Map<char, Seq<char>>,
    i: int,
    st: DecoderState,
    buf: Seq<char>,
) -> Result<Seq<char>, DecodeFault>
    decreases input.len() - i, state_rank(st),
{
    if i < 0 || i >= input.len() {
        Ok(Seq::empty())
    } else {
        let c = input[i];
        let empty = Seq::<char>::empty();
        match st {
            DecoderState::Normal => {
                if c == '\\' {
                    decode_from(input, table, i + 1, DecoderState::Escaped, empty)
                } else if c == '%' {
                    decode_from(input, table, i + 1, DecoderState::AwaitingPlaceholder, empty)
                } else {
                    prefixed(seq![c], decode_from(input, table, i + 1, DecoderState::Normal, empty))
                }
            },
            DecoderState::Escaped => {
                if control_escape(c) is Some {
                    prefixed(
                        seq![control_escape(c)->0],
                        decode_from(input, table, i + 1, DecoderState::Normal, empty),
                    )
                } else if '0' <= c <= '9' {
                    decode_from(input, table, i + 1, DecoderState::OctalAccumulate, seq![c])
                } else if c == 'x' {
                    decode_from(input, table, i + 1, DecoderState::HexAccumulate, empty)
                } else if c == '[' {
                    prefixed(
                        seq![REGION_START],
                        decode_from(input, table, i + 1, DecoderState::Normal, empty),
                    )
                } else if c == ']' {
                    prefixed(
                        seq![REGION_END],
                        decode_from(input, table, i + 1, DecoderState::Normal, empty),
                    )
                } else {
                    prefixed(seq![c], decode_from(input, table, i + 1, DecoderState::Normal, empty))
                }
            },
            DecoderState::AwaitingPlaceholder => {
                if table.contains_key(c) {
                    prefixed(
                        table[c],
                        decode_from(input, table, i + 1, DecoderState::Normal, empty),
                    )
                } else {
                    Err(DecodeFault::UnknownPlaceholder(c))
                }
            },
            DecoderState::HexAccumulate => {
                if is_hex_digit(c) {
                    decode_from(input, table, i + 1, DecoderState::HexAccumulate, buf.push(c))
                } else if hex_ok(buf) {
                    prefixed(
                        seq![char_of(hex_value(buf))],
                        decode_from(input, table, i, DecoderState::Normal, empty),
                    )
                } else {
                    Err(DecodeFault::InvalidHexEscape(buf))
                }
            },
            DecoderState::OctalAccumulate => {
                if is_octal_digit(c) && buf.len() < 3 {
                    decode_from(input, table, i + 1, DecoderState::OctalAccumulate, buf.push(c))
                } else if octal_ok(buf) {
                    prefixed(
                        seq![char_of(octal_value(buf))],
                        decode_from(input, table, i, DecoderState::Normal, empty),
                    )
                } else {
                    Err(DecodeFault::InvalidOctalEscape(buf))
                }
            },
        }
    }
}

/// A result with its text as a sequence of characters and its error as a
/// value of the model.
pub open spec fn decode_result(r: Result<String, DecodeError>) -> Result<Seq<char>, DecodeFault> {
    match r {
        Ok(s) => Ok(s@),
        Err(e) => Err(e@),
    }
}

/// What decoding the whole of `input` with `table` produces.
pub open spec fn decode(input: Seq<char>, table: Map<char, Seq<char>>) -> Result<
    Seq<char>,
    DecodeFault,
> {
    decode_from(input, table, 0, DecoderState::Normal, Seq::empty())
}

} // verus!

verus! {

/// One more than the largest Unicode scalar value: every hex value at or
/// above it names no character.
pub const CODE_POINT_CAP: u32 = 0x110000;

proof fn lemma_prefixed_concat(p: Seq<char>, q: Seq<char>, r: Result<Seq<char>, DecodeFault>)
    ensures
        prefixed(p, prefixed(q, r)) == prefixed(p + q, r),
{
    match r {
        Ok(s) => {
            assert(p + (q + s) =~= (p + q) + s);
        },
        Err(_) => {},
    }
}

fn control_char(c: char) -> (r: Option<char>)
    ensures
        r == control_escape(c),
{
    if c == 'n' {
        Some('\n')
    } else if c == 't' {
        Some('\t')
    } else if c == 'r' {
        Some('\r')
    } else if c == 'v' {
        Some('\x0b')
    } else if c == 'e' {
        Some('\x1b')
    } else if c == 'a' {
        Some('\x07')
    } else if c == 'b' {
        Some('\x08')
    } else if c == 'f' {
        Some('\x0c')
    } else if c == '\\' {
        Some('\\')
    } else {
        None
    }
}

fn hex_digit(c: char) -> (r: bool)
    ensures
        r == is_hex_digit(c),
{
    ('0' <= c && c <= '9') || ('a' <= c && c <= 'f') || ('A' <= c && c <= 'F')
}

fn digit_value(c: char) -> (r: u32)
    requires
        is_hex_digit(c),
    ensures
        r as int == hex_digit_value(c),
        r < 16,
{
    if '0' <= c && c <= '9' {
        (c as u32) - ('0' as u32)
    } else if 'a' <= c && c <= 'f' {
        (c as u32) - ('a' as u32) + 10
    } else {
        (c as u32) - ('A' as u32) + 10
    }
}

/// The value of the hex digits `digits`, or `CODE_POINT_CAP` where it is
/// at least that.
fn capped_hex_value(digits: &Vec<char>) -> (r: u32)
    requires
        forall|k: int| 0 <= k < digits@.len() ==> is_hex_digit(#[trigger] digits@[k]),
    ensures
        r as int == if hex_value(digits@) < CODE_POINT_CAP as int {
            hex_value(digits@)
        } else {
            CODE_POINT_CAP as int
        },
{
    let mut v: u32 = 0;
    let mut k: usize = 0;
    while k < digits.len()
        invariant
            k <= digits@.len(),
            forall|j: int| 0 <= j < digits@.len() ==> is_hex_digit(#[trigger] digits@[j]),
            v as int == if hex_value(digits@.take(k as int)) < CODE_POINT_CAP as int {
                hex_value(digits@.take(k as int))
            } else {
                CODE_POINT_CAP as int
            },
        decreases digits@.len() - k,
    {
        let d = digit_value(digits[k]);
        let ghost before = digits@.take(k as int);
        assert(digits@.take(k + 1).drop_last() =~= before);
        proof {
            lemma_hex_value_nonneg(before);
        }
        if v >= CODE_POINT_CAP {
            v = CODE_POINT_CAP;
        } else {
            let w = v * 16 + d;
            v = if w < CODE_POINT_CAP { w } else { CODE_POINT_CAP };
        }
        k = k + 1;
    }
    assert(digits@.take(k as int) =~= digits@);
    v
}

proof fn lemma_hex_value_nonneg(s: Seq<char>)
    requires
        forall|k: int| 0 <= k < s.len() ==> is_hex_digit(#[trigger] s[k]),
    ensures
        hex_value(s) >= 0,
    decreases s.len(),
{
    if s.len() > 0 {
        assert(is_hex_digit(s[s.len() - 1]));
        lemma_hex_value_nonneg(s.drop_last());
    }
}

/// The value of at most three octal digits.
fn small_octal_value(digits: &Vec<char>) -> (r: u32)
    requires
        digits@.len() <= 3,
        octal_ok(digits@),
    ensures
        r as int == octal_value(digits@),
        r < 512,
{
    let mut v: u32 = 0;
    let mut k: usize = 0;
    while k < digits.len()
        invariant
            k <= digits@.len() <= 3,
            octal_ok(digits@),
            v as int == octal_value(digits@.take(k as int)),
            k == 0 ==> v == 0,
            k == 1 ==> v < 8,
            k == 2 ==> v < 64,
            k == 3 ==> v < 512,
        decreases digits@.len() - k,
    {
        let c = digits[k];
        assert(is_octal_digit(digits@[k as int]));
        assert(digits@.take(k + 1).drop_last() =~= digits@.take(k as int));
        v = v * 8 + ((c as u32) - ('0' as u32));
        k = k + 1;
    }
    assert(digits@.take(k as int) =~= digits@);
    v
}

/// Decodes `instr`: backslash escapes become the characters they stand for,
/// and each `%c` becomes the value of `c` in `lut`.
pub fn unescape_mapped(instr: String, lut: &SubstitutionTable) -> (r: Result<String, DecodeError>)
    ensures
        decode(instr@, lut@) == decode_result(r),
{
    let input = crate::text::chars_of(instr.as_str());
    let n = input.len();
    let ghost t = lut@;
    let mut out = String::new();
    let mut buf: Vec<char> = Vec::new();
    let mut st = DecoderState::Normal;
    let mut i: usize = 0;
    while i < n
        invariant
            n == input@.len(),
            input@ == instr@,
            t == lut@,
            i <= n,
            prefixed(out@, decode_from(input@, t, i as int, st, buf@)) == decode(input@, t),
            st == DecoderState::HexAccumulate ==> forall|k: int|
                0 <= k < buf@.len() ==> is_hex_digit(#[trigger] buf@[k]),
            st == DecoderState::OctalAccumulate ==> 1 <= buf@.len() <= 3,
            st == DecoderState::OctalAccumulate ==> '0' <= buf@[0] <= '9',
            st == DecoderState::OctalAccumulate ==> forall|k: int|
                1 <= k < buf@.len() ==> is_octal_digit(#[trigger] buf@[k]),
        decreases n - i, state_rank(st),
    {
        let c = input[i];
        let ghost old_out = out@;
        let ghost empty = Seq::<char>::empty();
        match st {
            DecoderState::Normal => {
                if c == '\\' {
                    st = DecoderState::Escaped;
                } else if c == '%' {
                    st = DecoderState::AwaitingPlaceholder;
                } else {
                    push_char(&mut out, c);
                    assert(out@ =~= old_out + seq![c]);
                    proof {
                        lemma_prefixed_concat(old_out, seq![c], decode_from(input@, t, i + 1, st, empty));
                    }
                }
                buf = Vec::new();
                assert(buf@ =~= empty);
                i = i + 1;
            },
            DecoderState::Escaped => {
                match control_char(c) {
                    Some(d) => {
                        push_char(&mut out, d);
                        assert(out@ =~= old_out + seq![d]);
                        st = DecoderState::Normal;
                        proof {
                            lemma_prefixed_concat(old_out, seq![d], decode_from(input@, t, i + 1, st, empty));
                        }
                    },
                    None => {
                        if '0' <= c && c <= '9' {
                            buf = Vec::new();
                            buf.push(c);
                            st = DecoderState::OctalAccumulate;
                            assert(buf@ =~= seq![c]);
                        } else if c == 'x' {
                            buf = Vec::new();
                            st = DecoderState::HexAccumulate;
                        } else {
                            let d = if c == '[' {
                                REGION_START
                            } else if c == ']' {
                                REGION_END
                            } else {
                                c
                            };
                            push_char(&mut out, d);
                            assert(out@ =~= old_out + seq![d]);
                            st = DecoderState::Normal;
                            proof {
                                lemma_prefixed_concat(old_out, seq![d], decode_from(input@, t, i + 1, st, empty));
                            }
                        }
                    },
                }
                if st == DecoderState::Normal {
                    buf = Vec::new();
                }
                assert(st != DecoderState::OctalAccumulate ==> buf@ =~= empty);
                i = i + 1;
            },
            DecoderState::AwaitingPlaceholder => {
                match lut.get(c) {
                    Some(v) => {
                        out.append(v.as_str());
                        st = DecoderState::Normal;
                        proof {
                            lemma_prefixed_concat(old_out, v@, decode_from(input@, t, i + 1, st, empty));
                        }
                        i = i + 1;
                    },
                    None => {
                        return Err(DecodeError::UnknownPlaceholder(c));
                    },
                }
            },
            DecoderState::HexAccumulate => {
                if hex_digit(c) {
                    buf.push(c);
                    i = i + 1;
                } else {
                    let v = capped_hex_value(&buf);
                    if buf.len() == 0 {
                        return Err(DecodeError::InvalidHexEscape(crate::text::string_of(&buf)));
                    }
                    match core::char::from_u32(v) {
                        Some(d) => {
                            proof {
                                vstd::utf8::char_u32_cast(d, v);
                                lemma_prefixed_concat(old_out, seq![d], decode_from(input@, t, i as int, DecoderState::Normal, empty));
                            }
                            push_char(&mut out, d);
                            assert(out@ =~= old_out + seq![d]);
                            buf = Vec::new();
                            st = DecoderState::Normal;
                        },
                        None => {
                            return Err(DecodeError::InvalidHexEscape(crate::text::string_of(&buf)));
                        },
                    }
                }
            },
            DecoderState::OctalAccumulate => {
                if '0' <= c && c <= '7' && buf.len() < 3 {
                    buf.push(c);
                    i = i + 1;
                } else if buf[0] <= '7' {
                    assert(octal_ok(buf@)) by {
                        assert forall|k: int| 0 <= k < buf@.len() implies is_octal_digit(#[trigger] buf@[k]) by {
                            if k >= 1 {
                                assert(is_octal_digit(buf@[k]));
                            }
                        }
                    }
                    let v = small_octal_value(&buf);
                    match core::char::from_u32(v) {
                        Some(d) => {
                            proof {
                                vstd::utf8::char_u32_cast(d, v);
                                lemma_prefixed_concat(old_out, seq![d], decode_from(input@, t, i as int, DecoderState::Normal, empty));
                            }
                            push_char(&mut out, d);
                            assert(out@ =~= old_out + seq![d]);
                            buf = Vec::new();
                            st = DecoderState::Normal;
                        },
                        None => {
                            return Err(DecodeError::InvalidOctalEscape(crate::text::string_of(&buf)));
                        },
                    }
                } else {
                    assert(!is_octal_digit(buf@[0]));
                    return Err(DecodeError::InvalidOctalEscape(crate::text::string_of(&buf)));
                }
            },
        }
    }
    assert(out@ + Seq::<char>::empty() =~= out@);
    Ok(out)
}

/// Decodes `instr` with an empty table: every `%c` is an error.
pub fn unescape(instr: String) -> (r: Result<String, DecodeError>)
    ensures
        decode(instr@, Map::empty()) == decode_result(r),
{
    unescape_mapped(instr, &SubstitutionTable::new())
}

} // verus!

verus! {

/// Neither a backslash nor a percent sign: a character that decodes to itself.
pub open spec fn is_plain(c: char) -> bool {
    c != '\\' && c != '%'
}

proof fn lemma_plain_run(input: Seq<char>, t: Map<char, Seq<char>>, i: int, k: int)
    requires
        0 <= i <= k <= input.len(),
        forall|j: int| i <= j < k ==> is_plain(#[trigger] input[j]),
    ensures
        decode_from(input, t, i, DecoderState::Normal, Seq::empty()) == prefixed(
            input.subrange(i, k),
            decode_from(input, t, k, DecoderState::Normal, Seq::empty()),
        ),
    decreases k - i,
{
    let rest = decode_from(input, t, k, DecoderState::Normal, Seq::empty());
    if i == k {
        match rest {
            Ok(s) => {
                assert(input.subrange(i, k) + s =~= s);
            },
            Err(_) => {},
        }
    } else {
        assert(is_plain(input[i]));
        lemma_plain_run(input, t, i + 1, k);
        lemma_prefixed_concat(seq![input[i]], input.subrange(i + 1, k), rest);
        assert(seq![input[i]] + input.subrange(i + 1, k) =~= input.subrange(i, k));
    }
}

/// Text without backslashes and percent signs decodes to itself, whatever
/// the table holds.
pub proof fn lemma_plain_text_unchanged(s: Seq<char>, t: Map<char, Seq<char>>)
    requires
        forall|j: int| 0 <= j < s.len() ==> is_plain(#[trigger] s[j]),
    ensures
        decode(s, t) == Ok::<Seq<char>, DecodeFault>(s),
{
    lemma_plain_run(s, t, 0, s.len() as int);
    assert(s.subrange(0, s.len() as int) + Seq::<char>::empty() =~= s);
}

/// `\n` and `\t` decode to a newline and a tab, whatever the table holds.
pub proof fn lemma_newline_and_tab(t: Map<char, Seq<char>>)
    ensures
        decode(seq!['\\', 'n'], t) == Ok::<Seq<char>, DecodeFault>(seq!['\n']),
        decode(seq!['\\', 't'], t) == Ok::<Seq<char>, DecodeFault>(seq!['\t']),
{
    let n = seq!['\\', 'n'];
    let tab = seq!['\\', 't'];
    assert(decode_from(n, t, 2, DecoderState::Normal, Seq::empty()) == Ok::<Seq<char>, DecodeFault>(Seq::empty()));
    assert(decode_from(tab, t, 2, DecoderState::Normal, Seq::empty()) == Ok::<Seq<char>, DecodeFault>(Seq::empty()));
    let e = Seq::<char>::empty();
    assert(decode_from(n, t, 1, DecoderState::Escaped, e) == prefixed(seq!['\n'], decode_from(n, t, 2, DecoderState::Normal, e)));
    assert(decode_from(n, t, 0, DecoderState::Normal, e) == decode_from(n, t, 1, DecoderState::Escaped, e));
    assert(decode_from(tab, t, 1, DecoderState::Escaped, e) == prefixed(seq!['\t'], decode_from(tab, t, 2, DecoderState::Normal, e)));
    assert(decode_from(tab, t, 0, DecoderState::Normal, e) == decode_from(tab, t, 1, DecoderState::Escaped, e));
    assert(seq!['\n'] + Seq::<char>::empty() =~= seq!['\n']);
    assert(seq!['\t'] + Seq::<char>::empty() =~= seq!['\t']);
}

proof fn lemma_pending_digits_dropped(
    input: Seq<char>,
    t: Map<char, Seq<char>>,
    i: int,
    st: DecoderState,
    buf: Seq<char>,
)
    requires
        0 <= i <= input.len(),
        st == DecoderState::HexAccumulate ==> forall|j: int|
            i <= j < input.len() ==> is_hex_digit(#[trigger] input[j]),
        st == DecoderState::OctalAccumulate ==> forall|j: int|
            i <= j < input.len() ==> is_octal_digit(#[trigger] input[j]),
        st == DecoderState::OctalAccumulate ==> buf.len() + (input.len() - i) <= 3,
        st == DecoderState::HexAccumulate || st == DecoderState::OctalAccumulate,
    ensures
        decode_from(input, t, i, st, buf) == Ok::<Seq<char>, DecodeFault>(Seq::empty()),
    decreases input.len() - i,
{
    if i < input.len() {
        assert(st == DecoderState::HexAccumulate ==> is_hex_digit(input[i]));
        assert(st == DecoderState::OctalAccumulate ==> is_octal_digit(input[i]));
        lemma_pending_digits_dropped(input, t, i + 1, st, buf.push(input[i]));
    }
}

/// A hex escape whose digits run to the end of the input is dropped without
/// an error: plain text followed by `\x` and hex digits decodes to the plain
/// text alone.
pub proof fn lemma_trailing_hex_dropped(s: Seq<char>, digits: Seq<char>, t: Map<char, Seq<char>>)
    requires
        forall|j: int| 0 <= j < s.len() ==> is_plain(#[trigger] s[j]),
        forall|j: int| 0 <= j < digits.len() ==> is_hex_digit(#[trigger] digits[j]),
    ensures
        decode(s + seq!['\\', 'x'] + digits, t) == Ok::<Seq<char>, DecodeFault>(s),
{
    let input = s + seq!['\\', 'x'] + digits;
    let n = s.len() as int;
    assert forall|j: int| 0 <= j < n implies is_plain(#[trigger] input[j]) by {
        assert(input[j] == s[j]);
    }
    lemma_plain_run(input, t, 0, n);
    assert(input[n] == '\\');
    assert(input[n + 1] == 'x');
    assert forall|j: int| n + 2 <= j < input.len() implies is_hex_digit(#[trigger] input[j]) by {
        assert(input[j] == digits[j - n - 2]);
    }
    lemma_pending_digits_dropped(input, t, n + 2, DecoderState::HexAccumulate, Seq::empty());
    let e = Seq::<char>::empty();
    assert(decode_from(input, t, n + 1, DecoderState::Escaped, e) == decode_from(input, t, n + 2, DecoderState::HexAccumulate, e));
    assert(decode_from(input, t, n, DecoderState::Normal, e) == decode_from(input, t, n + 1, DecoderState::Escaped, e));
    assert(input.subrange(0, n) + Seq::<char>::empty() =~= s);
}

/// An octal escape of one to three digits at the end of the input is dropped
/// without an error: plain text followed by a backslash and such digits
/// decodes to the plain text alone.
pub proof fn lemma_trailing_octal_dropped(s: Seq<char>, digits: Seq<char>, t: Map<char, Seq<char>>)
    requires
        forall|j: int| 0 <= j < s.len() ==> is_plain(#[trigger] s[j]),
        1 <= digits.len() <= 3,
        forall|j: int| 0 <= j < digits.len() ==> is_octal_digit(#[trigger] digits[j]),
    ensures
        decode(s + seq!['\\'] + digits, t) == Ok::<Seq<char>, DecodeFault>(s),
{
    let input = s + seq!['\\'] + digits;
    let n = s.len() as int;
    assert forall|j: int| 0 <= j < n implies is_plain(#[trigger] input[j]) by {
        assert(input[j] == s[j]);
    }
    lemma_plain_run(input, t, 0, n);
    assert(input[n] == '\\');
    assert(input[n + 1] == digits[0]);
    assert(is_octal_digit(digits[0]));
    assert(control_escape(input[n + 1]) is None);
    assert forall|j: int| n + 2 <= j < input.len() implies is_octal_digit(#[trigger] input[j]) by {
        assert(input[j] == digits[j - n - 1]);
    }
    lemma_pending_digits_dropped(input, t, n + 2, DecoderState::OctalAccumulate, seq![digits[0]]);
    let e = Seq::<char>::empty();
    assert(decode_from(input, t, n + 1, DecoderState::Escaped, e) == decode_from(input, t, n + 2, DecoderState::OctalAccumulate, seq![digits[0]]));
    assert(decode_from(input, t, n, DecoderState::Normal, e) == decode_from(input, t, n + 1, DecoderState::Escaped, e));
    assert(input.subrange(0, n) + Seq::<char>::empty() =~= s);
}

} // verus!
