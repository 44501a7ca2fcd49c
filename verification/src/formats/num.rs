//! Recognising the numbers written in FDS text files, by the grammars that Rust's `FromStr`
//! implementations document for floating-point and integer types.
use vstd::prelude::*;

verus! {

/// Whether `c` is an ASCII decimal digit.
pub open spec fn is_digit(c: char) -> bool {
    '0' <= c <= '9'
}

/// The value of an ASCII decimal digit.
pub open spec fn digit_value(c: char) -> int {
    c as int - '0' as int
}

/// Whether every character of `s` is a digit.
pub open spec fn all_digits(s: Seq<char>) -> bool {
    forall|k: int| 0 <= k < s.len() ==> is_digit(#[trigger] s[k])
}

/// `s` with ASCII upper-case letters made lower-case.
pub open spec fn lower(s: Seq<char>) -> Seq<char> {
    s.map_values(|c: char| if 'A' <= c <= 'Z' { ((c as u32) + 32) as char } else { c })
}

/// Whether `s` spells `inf`, `infinity` or `nan` in any mix of upper and lower case.
pub open spec fn is_special(s: Seq<char>) -> bool {
    let l = lower(s);
    l == seq!['i', 'n', 'f'] || l == seq!['i', 'n', 'f', 'i', 'n', 'i', 't', 'y'] || l == seq![
        'n',
        'a',
        'n',
    ]
}

/// Whether `s` is `Digit+`, `Digit+ '.' Digit*` or `Digit* '.' Digit+`.
pub open spec fn is_mantissa(s: Seq<char>) -> bool {
    ||| s.len() >= 1 && all_digits(s)
    ||| exists|k: int|
        0 <= k < s.len() && s[k] == '.' && all_digits(s.take(k)) && all_digits(s.skip(k + 1))
            && s.len() >= 2
}

/// Whether `s` is `Sign? Digit+`.
pub open spec fn is_exponent(s: Seq<char>) -> bool {
    if s.len() > 0 && (s[0] == '+' || s[0] == '-') {
        s.len() >= 2 && all_digits(s.skip(1))
    } else {
        s.len() >= 1 && all_digits(s)
    }
}

/// Whether `s` is a mantissa, optionally followed by `e` or `E` and an exponent.
pub open spec fn is_number(s: Seq<char>) -> bool {
    ||| is_mantissa(s)
    ||| exists|k: int|
        0 <= k < s.len() && (s[k] == 'e' || s[k] == 'E') && is_mantissa(s.take(k))
            && is_exponent(s.skip(k + 1))
}

/// Whether `str::parse::<f32>` accepts `s`: an optional sign followed by `inf`, `infinity`,
/// `nan` (in any case) or a decimal number with an optional exponent.
pub open spec fn is_float_lexeme(s: Seq<char>) -> bool {
    if s.len() > 0 && (s[0] == '+' || s[0] == '-') {
        is_special(s.skip(1)) || is_number(s.skip(1))
    } else {
        is_special(s) || is_number(s)
    }
}

/// The index of the first character of `s` from `from` on that satisfies `pred`, or `s.len()`.
fn find_char(s: &[char], from: usize, a: char, b: char) -> (r: usize)
    requires
        from <= s@.len(),
    ensures
        from <= r <= s@.len(),
        forall|k: int| from <= k < r ==> s@[k] != a && s@[k] != b,
        r < s@.len() ==> s@[r as int] == a || s@[r as int] == b,
{
    let mut i = from;
    while i < s.len() && s[i] != a && s[i] != b
        invariant
            from <= i <= s@.len(),
            forall|k: int| from <= k < i ==> s@[k] != a && s@[k] != b,
        decreases s@.len() - i,
    {
        i = i + 1;
    }
    i
}

/// Whether `s[lo..hi]` is all digits.
pub fn digits_between(s: &[char], lo: usize, hi: usize) -> (r: bool)
    requires
        lo <= hi <= s@.len(),
    ensures
        r == all_digits(s@.subrange(lo as int, hi as int)),
{
    let mut i = lo;
    while i < hi
        invariant
            lo <= i <= hi <= s@.len(),
            forall|k: int| lo <= k < i ==> is_digit(s@[k]),
        decreases hi - i,
    {
        if !('0' <= s[i] && s[i] <= '9') {
            assert(!is_digit(s@.subrange(lo as int, hi as int)[i - lo]));
            return false;
        }
        i = i + 1;
    }
    assert forall|k: int| 0 <= k < hi - lo implies is_digit(
        #[trigger] s@.subrange(lo as int, hi as int)[k],
    ) by {
        assert(s@.subrange(lo as int, hi as int)[k] == s@[lo + k]);
    }
    true
}

proof fn lemma_mantissa_has_no(s: Seq<char>, c: char)
    requires
        is_mantissa(s),
        !is_digit(c),
        c != '.',
    ensures
        forall|k: int| 0 <= k < s.len() ==> s[k] != c,
{
    if !(s.len() >= 1 && all_digits(s)) {
        let d = choose|k: int|
            0 <= k < s.len() && s[k] == '.' && all_digits(s.take(k)) && all_digits(s.skip(k + 1))
                && s.len() >= 2;
        assert forall|k: int| 0 <= k < s.len() implies s[k] != c by {
            if k < d {
                assert(s.take(d)[k] == s[k]);
            } else if k > d {
                assert(s.skip(d + 1)[k - d - 1] == s[k]);
            }
        }
    }
}

fn check_mantissa(s: &[char], lo: usize, hi: usize) -> (r: bool)
    requires
        lo <= hi <= s@.len(),
    ensures
        r == is_mantissa(s@.subrange(lo as int, hi as int)),
{
    let ghost t = s@.subrange(lo as int, hi as int);
    let all = digits_between(s, lo, hi);
    if all && hi - lo >= 1 {
        return true;
    }
    let d = find_char(s, lo, '.', '.');
    if d < hi {
        let ghost dd = d - lo;
        assert(t[dd] == '.');
        assert(t.take(dd) =~= s@.subrange(lo as int, d as int));
        assert(t.skip(dd + 1) =~= s@.subrange(d + 1, hi as int));
        let r = digits_between(s, lo, d) && digits_between(s, d + 1, hi) && hi - lo >= 2;
        proof {
            if !r && is_mantissa(t) {
                if !(t.len() >= 1 && all_digits(t)) {
                    let k = choose|k: int|
                        0 <= k < t.len() && t[k] == '.' && all_digits(t.take(k)) && all_digits(
                            t.skip(k + 1),
                        ) && t.len() >= 2;
                    if k < dd {
                        assert(s@[lo + k] == t[k]);
                    } else if k > dd {
                        assert(t.take(k)[dd] == '.');
                    }
                }
            }
        }
        r
    } else {
        proof {
            if is_mantissa(t) && !(t.len() >= 1 && all_digits(t)) {
                let k = choose|k: int|
                    0 <= k < t.len() && t[k] == '.' && all_digits(t.take(k)) && all_digits(
                        t.skip(k + 1),
                    ) && t.len() >= 2;
                assert(s@[lo + k] == t[k]);
            }
        }
        false
    }
}

fn check_exponent(s: &[char], lo: usize, hi: usize) -> (r: bool)
    requires
        lo <= hi <= s@.len(),
    ensures
        r == is_exponent(s@.subrange(lo as int, hi as int)),
{
    let ghost t = s@.subrange(lo as int, hi as int);
    if hi > lo && (s[lo] == '+' || s[lo] == '-') {
        assert(t[0] == s@[lo as int]);
        assert(t.skip(1) =~= s@.subrange(lo + 1, hi as int));
        hi - lo >= 2 && digits_between(s, lo + 1, hi)
    } else {
        if hi > lo {
            assert(t[0] == s@[lo as int]);
        }
        hi - lo >= 1 && digits_between(s, lo, hi)
    }
}

fn check_number(s: &[char], lo: usize, hi: usize) -> (r: bool)
    requires
        lo <= hi <= s@.len(),
    ensures
        r == is_number(s@.subrange(lo as int, hi as int)),
{
    let ghost t = s@.subrange(lo as int, hi as int);
    if check_mantissa(s, lo, hi) {
        return true;
    }
    let e = find_char(s, lo, 'e', 'E');
    if e < hi {
        let ghost ee = e - lo;
        assert(t[ee] == 'e' || t[ee] == 'E');
        assert(t.take(ee) =~= s@.subrange(lo as int, e as int));
        assert(t.skip(ee + 1) =~= s@.subrange(e + 1, hi as int));
        let r = check_mantissa(s, lo, e) && check_exponent(s, e + 1, hi);
        proof {
            if !r && is_number(t) {
                let k = choose|k: int|
                    0 <= k < t.len() && (t[k] == 'e' || t[k] == 'E') && is_mantissa(t.take(k))
                        && is_exponent(t.skip(k + 1));
                if k < ee {
                    assert(s@[lo + k] == t[k]);
                } else if k > ee {
                    lemma_mantissa_has_no(t.take(k), t[ee]);
                    assert(t.take(k)[ee] == t[ee]);
                }
            }
        }
        r
    } else {
        proof {
            if is_number(t) {
                let k = choose|k: int|
                    0 <= k < t.len() && (t[k] == 'e' || t[k] == 'E') && is_mantissa(t.take(k))
                        && is_exponent(t.skip(k + 1));
                assert(s@[lo + k] == t[k]);
            }
        }
        false
    }
}

/// Whether the characters `s[lo..hi]`, lower-cased, equal `word`.
fn matches_lower(s: &[char], lo: usize, hi: usize, word: &[char]) -> (r: bool)
    requires
        lo <= hi <= s@.len(),
    ensures
        r == (lower(s@.subrange(lo as int, hi as int)) == word@),
{
    let ghost t = s@.subrange(lo as int, hi as int);
    if hi - lo != word.len() {
        assert(lower(t).len() != word@.len());
        return false;
    }
    let mut i: usize = 0;
    while i < word.len()
        invariant
            i <= word@.len(),
            hi - lo == word@.len(),
            lo <= hi <= s@.len(),
            t == s@.subrange(lo as int, hi as int),
            forall|k: int| 0 <= k < i ==> lower(t)[k] == word@[k],
        decreases word@.len() - i,
    {
        let c = s[lo + i];
        let l = if 'A' <= c && c <= 'Z' {
            char_plus_32(c)
        } else {
            c
        };
        assert(t[i as int] == c);
        assert(lower(t)[i as int] == l);
        if l != word[i] {
            return false;
        }
        i = i + 1;
    }
    assert(lower(t) =~= word@);
    true
}

/// The lower-case letter of an upper-case ASCII letter.
fn char_plus_32(c: char) -> (r: char)
    requires
        'A' <= c <= 'Z',
    ensures
        r == ((c as u32) + 32) as char,
{
    (c as u8 + 32) as char
}

fn check_special(s: &[char], lo: usize, hi: usize) -> (r: bool)
    requires
        lo <= hi <= s@.len(),
    ensures
        r == is_special(s@.subrange(lo as int, hi as int)),
{
    let inf: Vec<char> = vec!['i', 'n', 'f'];
    let infinity: Vec<char> = vec!['i', 'n', 'f', 'i', 'n', 'i', 't', 'y'];
    let nan: Vec<char> = vec!['n', 'a', 'n'];
    assert(inf@ =~= seq!['i', 'n', 'f']);
    assert(infinity@ =~= seq!['i', 'n', 'f', 'i', 'n', 'i', 't', 'y']);
    assert(nan@ =~= seq!['n', 'a', 'n']);
    matches_lower(s, lo, hi, inf.as_slice()) || matches_lower(s, lo, hi, infinity.as_slice())
        || matches_lower(s, lo, hi, nan.as_slice())
}

/// Whether `str::parse::<f32>` accepts the characters `s[lo..hi]`.
pub fn float_between(s: &[char], lo: usize, hi: usize) -> (r: bool)
    requires
        lo <= hi <= s@.len(),
    ensures
        r == is_float_lexeme(s@.subrange(lo as int, hi as int)),
{
    let ghost t = s@.subrange(lo as int, hi as int);
    if hi > lo && (s[lo] == '+' || s[lo] == '-') {
        assert(t[0] == s@[lo as int]);
        assert(t.skip(1) =~= s@.subrange(lo + 1, hi as int));
        check_special(s, lo + 1, hi) || check_number(s, lo + 1, hi)
    } else {
        if hi > lo {
            assert(t[0] == s@[lo as int]);
        }
        check_special(s, lo, hi) || check_number(s, lo, hi)
    }
}

/// Whether `str::parse::<f32>` accepts `s`.
pub fn is_float(s: &str) -> (r: bool)
    ensures
        r == is_float_lexeme(s@),
{
    let c = crate::text::chars_of(s);
    assert(c@.subrange(0, c@.len() as int) =~= c@);
    float_between(c.as_slice(), 0, c.len())
}

} // verus!
