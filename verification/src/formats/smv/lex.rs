//! The lexical pieces of a `.smv` file: blanks, line ends, whole lines and numbers. Each reader
//! takes the characters of the file and a position, and gives back what it read with the
//! position after it, or a syntax error at the position where reading failed.
use vstd::prelude::*;

use crate::formats::num::{
    all_digits, digit_value, digits_between, float_between, is_digit, is_float_lexeme,
};
use crate::formats::smv::err::SmvError;
use crate::text::{chars_of, is_whitespace, is_ws, leading_ws, trim_bounds, trim_spec};

verus! {

/// A stretch of the file, from character `start` up to (not including) character `end`.
#[derive(Debug, Clone, Copy, PartialEq, Eq)]
pub struct Span {
    pub start: usize,
    pub end: usize,
}

/// The number of bytes that UTF-8 takes for `c`.
pub open spec fn utf8_len(c: char) -> int {
    let u = c as u32;
    if u < 0x80 {
        1
    } else if u < 0x800 {
        2
    } else if u < 0x10000 {
        3
    } else {
        4
    }
}

/// The byte offset, in the UTF-8 text of `s`, of character position `p`.
pub open spec fn byte_offset(s: Seq<char>, p: int) -> int
    decreases p,
{
    if p <= 0 {
        0
    } else {
        byte_offset(s, p - 1) + utf8_len(s[p - 1])
    }
}

proof fn lemma_byte_offset_bound(s: Seq<char>, p: int)
    requires
        0 <= p,
    ensures
        0 <= byte_offset(s, p) <= 4 * p,
    decreases p,
{
    if p > 0 {
        lemma_byte_offset_bound(s, p - 1);
    }
}

/// The byte offsets in `file` of the ends of `sp`, which counts characters: where a span of a
/// message points in the bytes of the file.
pub fn byte_span(file: &str, sp: Span) -> (r: (u128, u128))
    requires
        sp.start <= sp.end <= file@.len(),
    ensures
        r.0 == byte_offset(file@, sp.start as int),
        r.1 == byte_offset(file@, sp.end as int),
{
    let c = chars_of(file);
    let mut i: usize = 0;
    let mut off: u128 = 0;
    let mut start: u128 = 0;
    while i < sp.end
        invariant
            c@ == file@,
            sp.start <= sp.end <= c@.len(),
            i <= sp.end,
            off == byte_offset(c@, i as int),
            i > sp.start ==> start == byte_offset(c@, sp.start as int),
        decreases sp.end - i,
    {
        if i == sp.start {
            start = off;
        }
        proof {
            lemma_byte_offset_bound(c@, i + 1);
        }
        let u = c[i] as u32;
        let n: u128 = if u < 0x80 {
            1
        } else if u < 0x800 {
            2
        } else if u < 0x10000 {
            3
        } else {
            4
        };
        off = off + n;
        i = i + 1;
    }
    if i == sp.start {
        start = off;
    }
    (start, off)
}

/// The span from `a` to `b`.
pub open spec fn span_of(a: int, b: int) -> Span {
    Span { start: a as usize, end: b as usize }
}

/// The characters that `sp` covers.
pub open spec fn text(s: Seq<char>, sp: Span) -> Seq<char> {
    s.subrange(sp.start as int, sp.end as int)
}

/// A syntax error at position `p`.
pub open spec fn syn(p: int) -> SmvError {
    SmvError::SyntaxNonDiagnostic { position: p as usize }
}

/// A blank within a line: a space or a tab.
pub open spec fn is_space(c: char) -> bool {
    c == ' ' || c == '\t'
}

/// A blank or a line-end character: what separates words.
pub open spec fn is_sep(c: char) -> bool {
    c == ' ' || c == '\t' || c == '\r' || c == '\n'
}

/// A line-end character.
pub open spec fn is_eol(c: char) -> bool {
    c == '\r' || c == '\n'
}

/// The position after the spaces and tabs from `p`.
pub open spec fn space_end(s: Seq<char>, p: int) -> int
    decreases s.len() - p,
{
    if 0 <= p < s.len() && is_space(s[p]) {
        space_end(s, p + 1)
    } else {
        p
    }
}

/// The position after the blanks and line ends from `p`.
pub open spec fn sep_end(s: Seq<char>, p: int) -> int
    decreases s.len() - p,
{
    if 0 <= p < s.len() && is_sep(s[p]) {
        sep_end(s, p + 1)
    } else {
        p
    }
}

/// The position of the first blank or line end from `p`, or the end of `s`.
pub open spec fn token_end(s: Seq<char>, p: int) -> int
    decreases s.len() - p,
{
    if 0 <= p < s.len() && !is_sep(s[p]) {
        token_end(s, p + 1)
    } else {
        p
    }
}

/// The position of the first line-end character from `p`, or the end of `s`.
pub open spec fn eol_pos(s: Seq<char>, p: int) -> int
    decreases s.len() - p,
{
    if 0 <= p < s.len() && !is_eol(s[p]) {
        eol_pos(s, p + 1)
    } else {
        p
    }
}

/// A line ending (`\n` or `\r\n`) at `p`: the position after it.
pub open spec fn line_ending(s: Seq<char>, p: int) -> Option<int> {
    if 0 <= p < s.len() && s[p] == '\n' {
        Some(p + 1)
    } else if 0 <= p && p + 1 < s.len() && s[p] == '\r' && s[p + 1] == '\n' {
        Some(p + 2)
    } else {
        None
    }
}

/// The end of a line at `p`: a line ending, then any blank lines and leading blanks.
pub open spec fn sp_eol(s: Seq<char>, p: int) -> Result<int, SmvError> {
    match line_ending(s, p) {
        Some(q) => Ok(sep_end(s, q)),
        None => Err(syn(p)),
    }
}

/// A value read by a line reader followed by the end of the line.
pub open spec fn then_eol<T>(s: Seq<char>, r: Result<(T, int), SmvError>) -> Result<(T, int), SmvError> {
    match r {
        Ok((v, q)) => match sp_eol(s, q) {
            Ok(e) => Ok((v, e)),
            Err(e) => Err(e),
        },
        Err(e) => Err(e),
    }
}

/// The span of `s[a..b]` without its leading and trailing white space.
pub open spec fn trimmed(s: Seq<char>, a: int, b: int) -> Span {
    let t = a + leading_ws(s.subrange(a, b));
    span_of(t, t + trim_spec(s.subrange(a, b)).len())
}

/// The rest of the line from `p`, trimmed, leaving the line end; a `\r` that is not followed
/// by `\n` is refused.
pub open spec fn sp_full_line(s: Seq<char>, p: int) -> Result<(Span, int), SmvError> {
    let e = eol_pos(s, p);
    if e < s.len() && s[e] == '\r' && !(e + 1 < s.len() && s[e + 1] == '\n') {
        Err(syn(p))
    } else {
        Ok((trimmed(s, p, e), e))
    }
}

/// A word at `p`: one or more characters up to the next blank or line end.
pub open spec fn sp_token(s: Seq<char>, p: int) -> Result<Span, SmvError> {
    let e = token_end(s, p);
    if e == p {
        Err(syn(p))
    } else {
        Ok(span_of(p, e))
    }
}

/// A word at `p` that `str::parse::<f32>` accepts; the number is kept as its text.
pub open spec fn sp_float(s: Seq<char>, p: int) -> Result<Span, SmvError> {
    match sp_token(s, p) {
        Ok(t) => if is_float_lexeme(text(s, t)) {
            Ok(t)
        } else {
            Err(syn(p))
        },
        Err(e) => Err(e),
    }
}

/// The number that the decimal digits `d` write.
pub open spec fn digits_val(d: Seq<char>) -> int
    decreases d.len(),
{
    if d.len() == 0 {
        0
    } else {
        digits_val(d.drop_last()) * 10 + digit_value(d.last())
    }
}

/// The integer that `str::parse` reads from `t`: an optional sign (`-` only where `signed`),
/// then one or more decimal digits.
pub open spec fn int_of(t: Seq<char>, signed: bool) -> Option<int> {
    if t.len() == 0 {
        None
    } else if (t[0] == '+' || t[0] == '-') && t.len() == 1 {
        None
    } else {
        let neg = signed && t[0] == '-';
        let d = if t[0] == '+' || neg {
            t.skip(1)
        } else {
            t
        };
        if all_digits(d) {
            Some(
                if neg {
                    -digits_val(d)
                } else {
                    digits_val(d)
                },
            )
        } else {
            None
        }
    }
}

/// A word at `p` that `str::parse::<i32>` accepts, with its value.
pub open spec fn sp_i32(s: Seq<char>, p: int) -> Result<(i32, Span), SmvError> {
    match sp_token(s, p) {
        Ok(t) => match int_of(text(s, t), true) {
            Some(v) => if i32::MIN <= v <= i32::MAX {
                Ok((v as i32, t))
            } else {
                Err(syn(p))
            },
            None => Err(syn(p)),
        },
        Err(e) => Err(e),
    }
}

/// A word at `p` that `str::parse::<u32>` accepts, with its value.
pub open spec fn sp_u32(s: Seq<char>, p: int) -> Result<(u32, Span), SmvError> {
    match sp_token(s, p) {
        Ok(t) => match int_of(text(s, t), false) {
            Some(v) => if v <= u32::MAX {
                Ok((v as u32, t))
            } else {
                Err(syn(p))
            },
            None => Err(syn(p)),
        },
        Err(e) => Err(e),
    }
}

/// A word at `p` that `str::parse::<usize>` accepts, with its value.
pub open spec fn sp_usize(s: Seq<char>, p: int) -> Result<(usize, Span), SmvError> {
    match sp_token(s, p) {
        Ok(t) => match int_of(text(s, t), false) {
            Some(v) => if v <= usize::MAX {
                Ok((v as usize, t))
            } else {
                Err(syn(p))
            },
            None => Err(syn(p)),
        },
        Err(e) => Err(e),
    }
}

/// The literal `lit` at `p`: the position after it.
pub open spec fn sp_tag(s: Seq<char>, p: int, lit: Seq<char>) -> Result<int, SmvError> {
    if 0 <= p && p + lit.len() <= s.len() && s.subrange(p, p + lit.len()) == lit {
        Ok(p + lit.len())
    } else {
        Err(syn(p))
    }
}

/// The spaces and tabs from `p`.
pub fn skip_space(s: &[char], p: usize) -> (r: usize)
    requires
        p <= s@.len(),
    ensures
        r == space_end(s@, p as int),
        p <= r <= s@.len(),
{
    let mut i = p;
    while i < s.len() && (s[i] == ' ' || s[i] == '\t')
        invariant
            p <= i <= s@.len(),
            space_end(s@, i as int) == space_end(s@, p as int),
        decreases s@.len() - i,
    {
        i = i + 1;
    }
    i
}

/// The blanks and line ends from `p`.
pub fn skip_sep(s: &[char], p: usize) -> (r: usize)
    requires
        p <= s@.len(),
    ensures
        r == sep_end(s@, p as int),
        p <= r <= s@.len(),
{
    let mut i = p;
    while i < s.len() && (s[i] == ' ' || s[i] == '\t' || s[i] == '\r' || s[i] == '\n')
        invariant
            p <= i <= s@.len(),
            sep_end(s@, i as int) == sep_end(s@, p as int),
        decreases s@.len() - i,
    {
        i = i + 1;
    }
    i
}

/// The position of the first blank or line end from `p`.
pub fn find_token_end(s: &[char], p: usize) -> (r: usize)
    requires
        p <= s@.len(),
    ensures
        r == token_end(s@, p as int),
        p <= r <= s@.len(),
{
    let mut i = p;
    while i < s.len() && !(s[i] == ' ' || s[i] == '\t' || s[i] == '\r' || s[i] == '\n')
        invariant
            p <= i <= s@.len(),
            token_end(s@, i as int) == token_end(s@, p as int),
        decreases s@.len() - i,
    {
        i = i + 1;
    }
    i
}

/// The position of the first line-end character from `p`.
pub fn find_eol(s: &[char], p: usize) -> (r: usize)
    requires
        p <= s@.len(),
    ensures
        r == eol_pos(s@, p as int),
        p <= r <= s@.len(),
{
    let mut i = p;
    while i < s.len() && !(s[i] == '\r' || s[i] == '\n')
        invariant
            p <= i <= s@.len(),
            eol_pos(s@, i as int) == eol_pos(s@, p as int),
        decreases s@.len() - i,
    {
        i = i + 1;
    }
    i
}

/// A line ending at `p`.
pub fn read_line_ending(s: &[char], p: usize) -> (r: Option<usize>)
    requires
        p <= s@.len(),
    ensures
        match r {
            Some(q) => line_ending(s@, p as int) == Some(q as int) && p < q <= s@.len(),
            None => line_ending(s@, p as int) is None,
        },
{
    if p < s.len() && s[p] == '\n' {
        Some(p + 1)
    } else if p < s.len() && p + 1 < s.len() && s[p] == '\r' && s[p + 1] == '\n' {
        Some(p + 2)
    } else {
        None
    }
}

/// The end of a line at `p`.
pub fn read_eol(s: &[char], p: usize) -> (r: Result<usize, SmvError>)
    requires
        p <= s@.len(),
    ensures
        match r {
            Ok(q) => sp_eol(s@, p as int) == Ok::<int, SmvError>(q as int) && p < q <= s@.len(),
            Err(e) => sp_eol(s@, p as int) == Err::<int, SmvError>(e),
        },
{
    match read_line_ending(s, p) {
        Some(q) => Ok(skip_sep(s, q)),
        None => Err(SmvError::SyntaxNonDiagnostic { position: p }),
    }
}

/// The rest of the line from `p`, trimmed.
pub fn read_full_line(s: &[char], p: usize) -> (r: Result<(Span, usize), SmvError>)
    requires
        p <= s@.len(),
    ensures
        match r {
            Ok((sp, q)) => sp_full_line(s@, p as int) == Ok::<(Span, int), SmvError>((sp, q as int))
                && p <= sp.start <= sp.end <= q <= s@.len(),
            Err(e) => sp_full_line(s@, p as int) == Err::<(Span, int), SmvError>(e),
        },
{
    let e = find_eol(s, p);
    if e < s.len() && s[e] == '\r' && !(e + 1 < s.len() && s[e + 1] == '\n') {
        return Err(SmvError::SyntaxNonDiagnostic { position: p });
    }
    let (a, b) = trim_bounds(s, p, e);
    Ok((Span { start: a, end: b }, e))
}

/// A word at `p`.
pub fn read_token(s: &[char], p: usize) -> (r: Result<Span, SmvError>)
    requires
        p <= s@.len(),
    ensures
        match r {
            Ok(t) => sp_token(s@, p as int) == Ok::<Span, SmvError>(t) && t.start == p && p < t.end
                <= s@.len(),
            Err(e) => sp_token(s@, p as int) == Err::<Span, SmvError>(e),
        },
{
    let e = find_token_end(s, p);
    if e == p {
        Err(SmvError::SyntaxNonDiagnostic { position: p })
    } else {
        Ok(Span { start: p, end: e })
    }
}

/// A number at `p`, kept as its text.
pub fn read_float(s: &[char], p: usize) -> (r: Result<Span, SmvError>)
    requires
        p <= s@.len(),
    ensures
        match r {
            Ok(t) => sp_float(s@, p as int) == Ok::<Span, SmvError>(t) && t.start == p && p < t.end
                <= s@.len(),
            Err(e) => sp_float(s@, p as int) == Err::<Span, SmvError>(e),
        },
{
    let t = read_token(s, p)?;
    if float_between(s, t.start, t.end) {
        Ok(t)
    } else {
        Err(SmvError::SyntaxNonDiagnostic { position: p })
    }
}

/// The value of the decimal digits `s[a..b]`, or `cap + 1` where it exceeds `cap`.
fn digits_capped(s: &[char], a: usize, b: usize, cap: u128) -> (r: u128)
    requires
        a <= b <= s@.len(),
        all_digits(s@.subrange(a as int, b as int)),
        cap <= u64::MAX,
    ensures
        r == (if digits_val(s@.subrange(a as int, b as int)) <= cap {
            digits_val(s@.subrange(a as int, b as int))
        } else {
            cap + 1
        }),
{
    let mut acc: u128 = 0;
    let mut i = a;
    assert(s@.subrange(a as int, a as int) =~= Seq::<char>::empty());
    while i < b
        invariant
            a <= i <= b <= s@.len(),
            all_digits(s@.subrange(a as int, b as int)),
            cap <= u64::MAX,
            digits_val(s@.subrange(a as int, i as int)) >= 0,
            acc == (if digits_val(s@.subrange(a as int, i as int)) <= cap {
                digits_val(s@.subrange(a as int, i as int))
            } else {
                cap + 1
            }),
        decreases b - i,
    {
        let ghost prev = s@.subrange(a as int, i as int);
        let ghost next = s@.subrange(a as int, i + 1);
        assert(next.drop_last() =~= prev);
        assert(s@.subrange(a as int, b as int)[i - a] == s@[i as int]);
        assert(is_digit(s@[i as int]));
        let d = (s[i] as u32 - '0' as u32) as u128;
        assert(digits_val(next) == digits_val(prev) * 10 + d);
        if acc > cap {
            assert(digits_val(next) > cap) by (nonlinear_arith)
                requires
                    digits_val(prev) > cap,
                    digits_val(next) == digits_val(prev) * 10 + d,
                    d >= 0,
                    cap >= 0,
            ;
        } else {
            let v = acc * 10 + d;
            if v > cap {
                acc = cap + 1;
            } else {
                acc = v;
            }
        }
        i = i + 1;
    }
    acc
}

/// An integer word at `p`, by `str::parse`: its sign (`-` allowed only where `signed`), whether
/// it was read, and its value capped at `cap + 1` in magnitude.
fn read_int_token(s: &[char], p: usize, signed: bool, cap: u128) -> (r: Result<
    (bool, u128, Span),
    SmvError,
>)
    requires
        p <= s@.len(),
        cap <= u64::MAX,
    ensures
        match r {
            Ok((neg, mag, t)) => {
                &&& sp_token(s@, p as int) == Ok::<Span, SmvError>(t)
                &&& t.start == p && p < t.end <= s@.len()
                &&& int_of(text(s@, t), signed) matches Some(v) && (if neg {
                    -v
                } else {
                    v
                }) >= 0 && mag == (if (if neg {
                    -v
                } else {
                    v
                }) <= cap {
                    (if neg {
                        -v
                    } else {
                        v
                    })
                } else {
                    cap + 1
                }) && (neg <==> (signed && s@[p as int] == '-'))
            },
            Err(e) => {
                &&& e == syn(p as int)
                &&& (sp_token(s@, p as int) is Err || int_of(
                    text(s@, sp_token(s@, p as int)->Ok_0),
                    signed,
                ) is None)
            },
        },
{
    let t = read_token(s, p)?;
    let ghost tx = text(s@, t);
    let first = s[t.start];
    if (first == '+' || first == '-') && t.end - t.start == 1 {
        return Err(SmvError::SyntaxNonDiagnostic { position: p });
    }
    let neg = signed && first == '-';
    let a = if first == '+' || neg {
        t.start + 1
    } else {
        t.start
    };
    let ghost d = s@.subrange(a as int, t.end as int);
    assert(d =~= (if first == '+' || neg {
        tx.skip(1)
    } else {
        tx
    }));
    if !digits_between(s, a, t.end) {
        return Err(SmvError::SyntaxNonDiagnostic { position: p });
    }
    let mag = digits_capped(s, a, t.end, cap);
    Ok((neg, mag, t))
}

/// An `i32` word at `p`.
pub fn read_i32(s: &[char], p: usize) -> (r: Result<(i32, Span), SmvError>)
    requires
        p <= s@.len(),
    ensures
        match r {
            Ok((v, t)) => sp_i32(s@, p as int) == Ok::<(i32, Span), SmvError>((v, t)) && t.start
                == p && p < t.end <= s@.len(),
            Err(e) => sp_i32(s@, p as int) == Err::<(i32, Span), SmvError>(e),
        },
{
    let (neg, mag, t) = read_int_token(s, p, true, 0x8000_0000)?;
    if neg {
        if mag > 0x8000_0000 {
            return Err(SmvError::SyntaxNonDiagnostic { position: p });
        }
        let v: i32 = if mag == 0x8000_0000 {
            i32::MIN
        } else {
            -(mag as i32)
        };
        Ok((v, t))
    } else {
        if mag > 0x7fff_ffff {
            return Err(SmvError::SyntaxNonDiagnostic { position: p });
        }
        Ok((mag as i32, t))
    }
}

/// A `u32` word at `p`.
pub fn read_u32(s: &[char], p: usize) -> (r: Result<(u32, Span), SmvError>)
    requires
        p <= s@.len(),
    ensures
        match r {
            Ok((v, t)) => sp_u32(s@, p as int) == Ok::<(u32, Span), SmvError>((v, t)) && t.start
                == p && p < t.end <= s@.len(),
            Err(e) => sp_u32(s@, p as int) == Err::<(u32, Span), SmvError>(e),
        },
{
    let (_neg, mag, t) = read_int_token(s, p, false, 0xffff_ffff)?;
    if mag > 0xffff_ffff {
        return Err(SmvError::SyntaxNonDiagnostic { position: p });
    }
    Ok((mag as u32, t))
}

/// A `usize` word at `p`.
pub fn read_usize(s: &[char], p: usize) -> (r: Result<(usize, Span), SmvError>)
    requires
        p <= s@.len(),
    ensures
        match r {
            Ok((v, t)) => sp_usize(s@, p as int) == Ok::<(usize, Span), SmvError>((v, t)) && t.start
                == p && p < t.end <= s@.len(),
            Err(e) => sp_usize(s@, p as int) == Err::<(usize, Span), SmvError>(e),
        },
{
    let (_neg, mag, t) = read_int_token(s, p, false, usize::MAX as u128)?;
    if mag > usize::MAX as u128 {
        return Err(SmvError::SyntaxNonDiagnostic { position: p });
    }
    Ok((mag as usize, t))
}

/// Whether the characters of `sp` are those of `lit`.
pub fn text_is(s: &[char], sp: Span, lit: &str) -> (r: bool)
    requires
        sp.start <= sp.end <= s@.len(),
    ensures
        r == (text(s@, sp) == lit@),
{
    let l = chars_of(lit);
    if sp.end - sp.start != l.len() {
        return false;
    }
    let mut i: usize = 0;
    while i < l.len()
        invariant
            sp.start <= sp.end <= s@.len(),
            sp.end - sp.start == l@.len(),
            l@ == lit@,
            i <= l@.len(),
            forall|k: int| 0 <= k < i ==> s@[sp.start + k] == #[trigger] l@[k],
        decreases l@.len() - i,
    {
        if s[sp.start + i] != l[i] {
            assert(text(s@, sp)[i as int] == s@[sp.start + i]);
            assert(text(s@, sp) != l@);
            return false;
        }
        i = i + 1;
    }
    assert(text(s@, sp) =~= l@);
    true
}

/// The literal `lit` at `p`.
pub fn read_tag(s: &[char], p: usize, lit: &str) -> (r: Result<usize, SmvError>)
    requires
        p <= s@.len(),
    ensures
        match r {
            Ok(q) => sp_tag(s@, p as int, lit@) == Ok::<int, SmvError>(q as int) && p <= q <= s@.len(),
            Err(e) => sp_tag(s@, p as int, lit@) == Err::<int, SmvError>(e),
        },
{
    let l = chars_of(lit);
    if l.len() > s.len() - p {
        return Err(SmvError::SyntaxNonDiagnostic { position: p });
    }
    if text_is(s, Span { start: p, end: p + l.len() }, lit) {
        Ok(p + l.len())
    } else {
        Err(SmvError::SyntaxNonDiagnostic { position: p })
    }
}

/// `n` values read one after the other from `p`, each by `step` given the values before it.
pub open spec fn repeat_spec<T>(
    step: spec_fn(Seq<T>, int) -> Result<(T, int), SmvError>,
    p: int,
    n: nat,
) -> Result<(Seq<T>, int), SmvError>
    decreases n,
{
    if n == 0 {
        Ok((Seq::empty(), p))
    } else {
        match repeat_spec(step, p, (n - 1) as nat) {
            Ok((v, q)) => match step(v, q) {
                Ok((x, q2)) => Ok((v.push(x), q2)),
                Err(e) => Err(e),
            },
            Err(e) => Err(e),
        }
    }
}

/// Once reading fails, reading more values fails the same way.
pub proof fn lemma_repeat_err<T>(
    step: spec_fn(Seq<T>, int) -> Result<(T, int), SmvError>,
    p: int,
    a: nat,
    b: nat,
)
    requires
        a <= b,
        repeat_spec(step, p, a) is Err,
    ensures
        repeat_spec(step, p, b) == repeat_spec(step, p, a),
    decreases b - a,
{
    if b > a {
        lemma_repeat_err(step, p, a, (b - 1) as nat);
    }
}

/// The values read so far have one entry per step.
pub proof fn lemma_repeat_len<T>(
    step: spec_fn(Seq<T>, int) -> Result<(T, int), SmvError>,
    p: int,
    n: nat,
)
    ensures
        repeat_spec(step, p, n) matches Ok((v, _)) ==> v.len() == n,
    decreases n,
{
    if n > 0 {
        lemma_repeat_len(step, p, (n - 1) as nat);
    }
}

/// A line: optional blanks, what `r` read from there, then the end of the line.
pub open spec fn in_line<T>(s: Seq<char>, r: Result<(T, int), SmvError>) -> Result<(T, int), SmvError> {
    then_eol(s, r)
}

/// The first whitespace-separated word from `p` (or from the end, where `p` lies beyond it),
/// or the rest of the file where it holds none.
pub open spec fn word_at(s: Seq<char>, p0: int) -> Span {
    let p = if p0 > s.len() {
        s.len() as int
    } else {
        p0
    };
    let a = p + leading_ws(s.subrange(p, s.len() as int));
    if a == s.len() {
        span_of(p, s.len() as int)
    } else {
        span_of(a, a + word_len(s, a))
    }
}

/// The number of characters from `a` up to the next white space.
pub open spec fn word_len(s: Seq<char>, a: int) -> nat
    decreases s.len() - a,
{
    if 0 <= a < s.len() && !is_ws(s[a]) {
        1 + word_len(s, a + 1)
    } else {
        0
    }
}

/// The error to report: a syntax error at a position becomes one that covers the word there.
pub open spec fn located(s: Seq<char>, e: SmvError) -> SmvError {
    match e {
        SmvError::SyntaxNonDiagnostic { position } => SmvError::Syntax {
            location: word_at(s, position as int),
        },
        _ => e,
    }
}

/// The span of the word at `p`, as [`word_at`] gives it.
pub fn read_word_at(s: &[char], p0: usize) -> (r: Span)
    ensures
        r == word_at(s@, p0 as int),
{
    let p = if p0 > s.len() {
        s.len()
    } else {
        p0
    };
    let (a, _) = trim_bounds(s, p, s.len());
    if a == s.len() {
        return Span { start: p, end: s.len() };
    }
    let mut e = a;
    while e < s.len() && !is_whitespace(s[e])
        invariant
            a <= e <= s@.len(),
            word_len(s@, a as int) == (e - a) + word_len(s@, e as int),
        decreases s@.len() - e,
    {
        e = e + 1;
    }
    Span { start: a, end: e }
}

/// The error to report for `e`.
pub fn locate(s: &[char], e: SmvError) -> (r: SmvError)
    ensures
        r == located(s@, e),
{
    match e {
        SmvError::SyntaxNonDiagnostic { position } => SmvError::Syntax {
            location: read_word_at(s, position),
        },
        _ => e,
    }
}

/// A read value with its end position as an integer.
pub open spec fn lifted<T>(r: Result<(T, usize), SmvError>) -> Result<(T, int), SmvError> {
    match r {
        Ok((v, q)) => Ok((v, q as int)),
        Err(e) => Err(e),
    }
}

/// Read values with their end position as an integer.
pub open spec fn lifted_vec<T>(r: Result<(Vec<T>, usize), SmvError>) -> Result<(Seq<T>, int), SmvError> {
    match r {
        Ok((v, q)) => Ok((v@, q as int)),
        Err(e) => Err(e),
    }
}

/// Whether what was read ends between `p` and the end of `s`.
pub open spec fn advances<T>(r: Result<(T, usize), SmvError>, p: int, s: Seq<char>) -> bool {
    r matches Ok((_, q)) ==> p <= q <= s.len()
}

} // verus!
