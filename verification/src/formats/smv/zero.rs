//! When a decimal number written in a `.smv` file reads as zero in `f32`. The least positive
//! `f32` is 2^-149; a value at most half of it, 2^-150, rounds to zero (a tie goes to the even
//! neighbour, zero), and a larger one does not. So the number `d * 10^k` written with digits `d`
//! and exponent `k` reads as zero exactly where `d` is zero, or `k < 0` and
//! `d * 2^150 <= 10^-k`. This is decided here in integers, with the digits held as a vector
//! of decimal digits, least significant first.
use vstd::prelude::*;

use crate::formats::num::{all_digits, digit_value, is_digit};
use crate::formats::smv::lex::{digits_val, int_of};
use crate::formats::smv::reader::find_mantissa_end;
use crate::formats::smv::sections::mantissa_len;

verus! {

/// 10 to the power `k`.
pub open spec fn pow10(k: nat) -> int
    decreases k,
{
    if k == 0 {
        1
    } else {
        10 * pow10((k - 1) as nat)
    }
}

/// 2 to the power `k`.
pub open spec fn pow2(k: nat) -> int
    decreases k,
{
    if k == 0 {
        1
    } else {
        2 * pow2((k - 1) as nat)
    }
}

/// The number that the decimal digits `v` hold, least significant first.
pub open spec fn le_val(v: Seq<u8>) -> int
    decreases v.len(),
{
    if v.len() == 0 {
        0
    } else {
        le_val(v.drop_last()) + v.last() * pow10((v.len() - 1) as nat)
    }
}

/// Whether every entry of `v` is a decimal digit.
pub open spec fn small_digits(v: Seq<u8>) -> bool {
    forall|i: int| 0 <= i < v.len() ==> #[trigger] v[i] < 10
}

proof fn lemma_pow10_pos(k: nat)
    ensures
        pow10(k) >= 1,
    decreases k,
{
    if k > 0 {
        lemma_pow10_pos((k - 1) as nat);
    }
}

proof fn lemma_pow2_pos(k: nat)
    ensures
        pow2(k) >= 1,
    decreases k,
{
    if k > 0 {
        lemma_pow2_pos((k - 1) as nat);
    }
}

proof fn lemma_pow10_mono(a: nat, b: nat)
    requires
        a <= b,
    ensures
        pow10(a) <= pow10(b),
    decreases b,
{
    if a < b {
        lemma_pow10_mono(a, (b - 1) as nat);
        lemma_pow10_pos((b - 1) as nat);
    }
}

proof fn lemma_le_val_bound(v: Seq<u8>)
    requires
        small_digits(v),
    ensures
        0 <= le_val(v) < pow10(v.len()),
    decreases v.len(),
{
    if v.len() > 0 {
        let w = v.drop_last();
        assert(small_digits(w)) by {
            assert forall|i: int| 0 <= i < w.len() implies #[trigger] w[i] < 10 by {
                assert(w[i] == v[i]);
            }
        }
        lemma_le_val_bound(w);
        let p = pow10(w.len());
        let x = v.last() as int;
        assert(x < 10) by {
            assert(v[v.len() - 1] < 10);
        }
        assert(0 <= le_val(w) + x * p < 10 * p) by (nonlinear_arith)
            requires
                0 <= le_val(w) < p,
                0 <= x < 10,
        ;
    }
}

/// `v` read from its top: where every digit from position `n` up is zero, `v` holds what its
/// digits below `n` hold.
#[verifier::spinoff_prover]
proof fn lemma_le_val_top_zeros(v: Seq<u8>, n: int)
    requires
        0 <= n <= v.len(),
        forall|i: int| n <= i < v.len() ==> #[trigger] v[i] == 0,
    ensures
        le_val(v) == le_val(v.take(n)),
    decreases v.len(),
{
    if v.len() > n {
        let w = v.drop_last();
        assert(v[v.len() - 1] == 0);
        assert forall|i: int| n <= i < w.len() implies #[trigger] w[i] == 0 by {
            assert(w[i] == v[i]);
        }
        lemma_le_val_top_zeros(w, n);
        assert(w.take(n) =~= v.take(n));
        let x = v.last() as int;
        let p = pow10((v.len() - 1) as nat);
        assert(x == 0);
        assert(x * p == 0) by (nonlinear_arith)
            requires
                x == 0,
        ;
        assert(le_val(v) == le_val(w) + x * p);
    } else {
        assert(v.take(n) =~= v);
    }
}

/// A digit `v[i]` that is not zero makes the number at least `10^i`.
proof fn lemma_le_val_at_least(v: Seq<u8>, i: int)
    requires
        small_digits(v),
        0 <= i < v.len(),
        v[i] != 0,
    ensures
        le_val(v) >= pow10(i as nat),
    decreases v.len(),
{
    let w = v.drop_last();
    assert(small_digits(w)) by {
        assert forall|k: int| 0 <= k < w.len() implies #[trigger] w[k] < 10 by {
            assert(w[k] == v[k]);
        }
    }
    lemma_le_val_bound(w);
    lemma_pow10_pos(w.len());
    if i == v.len() - 1 {
        let x = v.last() as int;
        let p = pow10(w.len());
        assert(x * p >= p) by (nonlinear_arith)
            requires
                x >= 1,
                p >= 1,
        ;
    } else {
        assert(w[i] == v[i]);
        lemma_le_val_at_least(w, i);
        let x = v.last() as int;
        let p = pow10(w.len());
        assert(x * p >= 0) by (nonlinear_arith)
            requires
                x >= 0,
                p >= 1,
        ;
    }
}

/// `v * k + c`, for a digit vector `v`.
fn mul_add(v: &Vec<u8>, k: u8, c: u8) -> (r: Vec<u8>)
    requires
        small_digits(v@),
        k <= 10,
        c < 10,
    ensures
        small_digits(r@),
        le_val(r@) == le_val(v@) * k + c,
{
    let mut r: Vec<u8> = Vec::new();
    let mut carry: u8 = c;
    let mut i: usize = 0;
    assert(v@.take(0) =~= Seq::<u8>::empty());
    while i < v.len()
        invariant
            i <= v@.len(),
            r@.len() == i,
            small_digits(r@),
            small_digits(v@),
            carry < 10,
            k <= 10,
            le_val(r@) + carry * pow10(i as nat) == le_val(v@.take(i as int)) * k + c,
        decreases v@.len() - i,
    {
        let d = v[i];
        assert(d < 10);
        assert(d * k <= 90) by (nonlinear_arith)
            requires
                d < 10,
                k <= 10,
        ;
        let x: u8 = d * k + carry;
        let ghost old_r = r@;
        let ghost p = pow10(i as nat);
        r.push(x % 10);
        proof {
            assert(r@.drop_last() =~= old_r);
            assert(v@.take(i + 1).drop_last() =~= v@.take(i as int));
            assert(v@.take(i + 1).last() == d);
            assert(pow10((i + 1) as nat) == 10 * p);
            let lr = le_val(old_r);
            let lv = le_val(v@.take(i as int));
            assert(lr + (x % 10) * p + (x / 10) * (10 * p) == (lv + d * p) * k + c) by (nonlinear_arith)
                requires
                    lr + carry * p == lv * k + c,
                    x == d * k + carry,
            ;
            assert forall|j: int| 0 <= j < r@.len() implies #[trigger] r@[j] < 10 by {
                if j < old_r.len() {
                    assert(r@[j] == old_r[j]);
                }
            }
        }
        carry = x / 10;
        i = i + 1;
    }
    assert(v@.take(i as int) =~= v@);
    let ghost before = r@;
    r.push(carry);
    proof {
        assert(r@.drop_last() =~= before);
        assert forall|j: int| 0 <= j < r@.len() implies #[trigger] r@[j] < 10 by {
            if j < before.len() {
                assert(r@[j] == before[j]);
            }
        }
    }
    r
}

/// The value of the decimal digits of `m` read in order, skipping anything else (a sign, the
/// point).
pub open spec fn mant_val(m: Seq<char>) -> int
    decreases m.len(),
{
    if m.len() == 0 {
        0
    } else if is_digit(m.last()) {
        mant_val(m.drop_last()) * 10 + digit_value(m.last())
    } else {
        mant_val(m.drop_last())
    }
}

/// Whether `m` holds a decimal digit.
pub open spec fn has_digit(m: Seq<char>) -> bool
    decreases m.len(),
{
    m.len() > 0 && (is_digit(m.last()) || has_digit(m.drop_last()))
}

/// Whether `m` holds a point.
pub open spec fn dot_seen(m: Seq<char>) -> bool
    decreases m.len(),
{
    m.len() > 0 && (m.last() == '.' || dot_seen(m.drop_last()))
}

/// The number of digits of `m` after its point.
pub open spec fn frac_len(m: Seq<char>) -> int
    decreases m.len(),
{
    if m.len() == 0 {
        0
    } else if m.last() == '.' {
        0
    } else if is_digit(m.last()) && dot_seen(m.drop_last()) {
        frac_len(m.drop_last()) + 1
    } else {
        frac_len(m.drop_last())
    }
}

/// The exponent written after the `e` or `E` of `t`, 0 where there is none.
pub open spec fn exp_of(t: Seq<char>) -> int {
    let k = mantissa_len(t);
    if k < t.len() {
        match int_of(t.skip(k + 1), true) {
            Some(v) => v,
            None => 0,
        }
    } else {
        0
    }
}

/// Whether `str::parse::<f32>` reads the number `t` as zero (of either sign): `t` has digits,
/// and writes `d * 10^k` with `d` the digits of its mantissa and `k` its exponent less the
/// number of digits after its point, where `d == 0`, or `k < 0` and `d * 2^150 <= 10^-k`.
/// `inf`, `infinity` and `nan` have no digits and do not read as zero.
pub open spec fn rounds_to_zero(t: Seq<char>) -> bool {
    let m = t.take(mantissa_len(t));
    let d = mant_val(m);
    let k = exp_of(t) - frac_len(m);
    has_digit(m) && if k >= 0 {
        d == 0
    } else {
        d * pow2(150) <= pow10((-k) as nat)
    }
}

/// The bound, 2^100, at which the exponent is held.
pub open spec fn cap() -> int {
    0x10_0000_0000_0000_0000_0000_0000
}

/// `v` held within `-cap()..=cap()`.
pub open spec fn clip(v: int) -> int {
    if v >= cap() {
        cap()
    } else if v <= -cap() {
        -cap()
    } else {
        v
    }
}

proof fn lemma_digits_val_nonneg(d: Seq<char>)
    requires
        all_digits(d),
    ensures
        digits_val(d) >= 0,
    decreases d.len(),
{
    if d.len() > 0 {
        assert(all_digits(d.drop_last())) by {
            assert forall|k: int| 0 <= k < d.drop_last().len() implies is_digit(
                #[trigger] d.drop_last()[k],
            ) by {
                assert(d.drop_last()[k] == d[k]);
            }
        }
        assert(is_digit(d[d.len() - 1]));
        lemma_digits_val_nonneg(d.drop_last());
    }
}

/// The exponent `s[lo..hi]`, held within `-cap()..=cap()`; 0 where it is not an integer.
fn read_exponent(s: &[char], lo: usize, hi: usize) -> (r: i128)
    requires
        lo <= hi <= s@.len(),
    ensures
        r == clip(
            match int_of(s@.subrange(lo as int, hi as int), true) {
                Some(v) => v,
                None => 0,
            },
        ),
{
    let ghost e = s@.subrange(lo as int, hi as int);
    if lo == hi {
        return 0;
    }
    let c0 = s[lo];
    assert(e[0] == c0 && e.len() == hi - lo);
    if (c0 == '+' || c0 == '-') && hi - lo == 1 {
        return 0;
    }
    let neg = c0 == '-';
    let start = if c0 == '+' || c0 == '-' {
        lo + 1
    } else {
        lo
    };
    assert(s@.subrange(start as int, hi as int) =~= if c0 == '+' || c0 == '-' {
        e.skip(1)
    } else {
        e
    });
    let cap_v: i128 = 0x10_0000_0000_0000_0000_0000_0000;
    let mut val: i128 = 0;
    let mut i = start;
    assert(s@.subrange(start as int, start as int) =~= Seq::<char>::empty());
    while i < hi
        invariant
            lo <= start <= i <= hi <= s@.len(),
            cap_v == cap(),
            e == s@.subrange(lo as int, hi as int),
            e[0] == c0,
            e.len() == hi - lo,
            !((c0 == '+' || c0 == '-') && hi - lo == 1),
            neg == (c0 == '-'),
            start == if c0 == '+' || c0 == '-' {
                lo + 1
            } else {
                lo as int
            },
            s@.subrange(start as int, hi as int) == if c0 == '+' || c0 == '-' {
                e.skip(1)
            } else {
                e
            },
            all_digits(s@.subrange(start as int, i as int)),
            val == if digits_val(s@.subrange(start as int, i as int)) >= cap() {
                cap()
            } else {
                digits_val(s@.subrange(start as int, i as int))
            },
        decreases hi - i,
    {
        let c = s[i];
        let ghost pre = s@.subrange(start as int, i as int);
        let ghost post = s@.subrange(start as int, i + 1);
        assert(post.drop_last() =~= pre);
        assert(post.last() == c);
        if !('0' <= c && c <= '9') {
            assert(!all_digits(s@.subrange(start as int, hi as int))) by {
                assert(s@.subrange(start as int, hi as int)[i - start] == c);
            }
            assert(int_of(e, true) is None);
            return 0;
        }
        proof {
            lemma_digits_val_nonneg(pre);
            assert(all_digits(post)) by {
                assert forall|k: int| 0 <= k < post.len() implies is_digit(#[trigger] post[k]) by {
                    if k < pre.len() {
                        assert(post[k] == pre[k]);
                    }
                }
            }
        }
        let dv = (c as u32 - '0' as u32) as i128;
        if val < cap_v {
            val = val * 10 + dv;
            if val > cap_v {
                val = cap_v;
            }
        }
        i = i + 1;
    }
    assert(s@.subrange(start as int, i as int) =~= s@.subrange(start as int, hi as int));
    proof {
        let d = s@.subrange(start as int, hi as int);
        lemma_digits_val_nonneg(d);
        assert(int_of(e, true) == Some(if neg {
            -digits_val(d)
        } else {
            digits_val(d)
        }));
        assert(val == clip(digits_val(d)));
    }
    if neg {
        -val
    } else {
        val
    }
}

/// The highest position of `v` that holds a digit other than zero.
fn top_nonzero(v: &Vec<u8>) -> (r: Option<usize>)
    ensures
        match r {
            None => forall|i: int| 0 <= i < v@.len() ==> v@[i] == 0,
            Some(h) => h < v@.len() && v@[h as int] != 0 && forall|i: int|
                h < i < v@.len() ==> v@[i] == 0,
        },
{
    let mut i = v.len();
    while i > 0
        invariant
            i <= v@.len(),
            forall|k: int| i <= k < v@.len() ==> v@[k] == 0,
        decreases i,
    {
        if v[i - 1] != 0 {
            return Some(i - 1);
        }
        i = i - 1;
    }
    None
}

/// Whether every digit of `v` below position `h` is zero.
fn zero_below(v: &Vec<u8>, h: usize) -> (r: bool)
    requires
        h <= v@.len(),
    ensures
        r == forall|i: int| 0 <= i < h ==> v@[i] == 0,
{
    let mut i: usize = 0;
    while i < h
        invariant
            i <= h <= v@.len(),
            forall|k: int| 0 <= k < i ==> v@[k] == 0,
        decreases h - i,
    {
        if v[i] != 0 {
            return false;
        }
        i = i + 1;
    }
    true
}

/// The digits of the mantissa `s[a..e]` as a number, whether it has a digit, and how many
/// digits follow its point.
#[verifier::spinoff_prover]
fn scan_mantissa(s: &[char], a: usize, e: usize) -> (r: (Vec<u8>, bool, usize))
    requires
        a <= e <= s@.len(),
    ensures
        small_digits(r.0@),
        le_val(r.0@) == mant_val(s@.subrange(a as int, e as int)),
        r.1 == has_digit(s@.subrange(a as int, e as int)),
        r.2 == frac_len(s@.subrange(a as int, e as int)),
{
    let mut d: Vec<u8> = Vec::new();
    let mut any_digit = false;
    let mut dot = false;
    let mut frac: usize = 0;
    let mut i = a;
    assert(s@.subrange(a as int, a as int) =~= Seq::<char>::empty());
    while i < e
        invariant
            a <= i <= e <= s@.len(),
            small_digits(d@),
            le_val(d@) == mant_val(s@.subrange(a as int, i as int)),
            any_digit == has_digit(s@.subrange(a as int, i as int)),
            dot == dot_seen(s@.subrange(a as int, i as int)),
            frac == frac_len(s@.subrange(a as int, i as int)),
            frac <= i - a,
        decreases e - i,
    {
        let c = s[i];
        let ghost pre = s@.subrange(a as int, i as int);
        let ghost post = s@.subrange(a as int, i + 1);
        assert(post.drop_last() =~= pre);
        assert(post.last() == c);
        if '0' <= c && c <= '9' {
            let dv = (c as u32 - '0' as u32) as u8;
            d = mul_add(&d, 10, dv);
            if dot {
                frac = frac + 1;
            }
            any_digit = true;
        } else if c == '.' {
            dot = true;
            frac = 0;
        }
        i = i + 1;
    }
    (d, any_digit, frac)
}

/// Whether the digits `d` hold zero.
#[verifier::spinoff_prover]
fn is_zero_digits(d: &Vec<u8>) -> (r: bool)
    requires
        small_digits(d@),
    ensures
        r == (le_val(d@) == 0),
{
    let top = top_nonzero(d);
    proof {
        match top {
            None => {
                lemma_le_val_top_zeros(d@, 0);
                assert(d@.take(0) =~= Seq::<u8>::empty());
            },
            Some(h) => {
                lemma_le_val_at_least(d@, h as int);
                lemma_pow10_pos(h as nat);
            },
        }
    }
    top.is_none()
}

/// `d * 2^150`.
#[verifier::spinoff_prover]
fn times_pow2_150(d: Vec<u8>) -> (r: Vec<u8>)
    requires
        small_digits(d@),
    ensures
        small_digits(r@),
        le_val(r@) == le_val(d@) * pow2(150),
{
    let ghost dm = le_val(d@);
    let mut w = d;
    let mut n: usize = 0;
    while n < 150
        invariant
            n <= 150,
            small_digits(w@),
            le_val(w@) == dm * pow2(n as nat),
        decreases 150 - n,
    {
        let ghost before = le_val(w@);
        w = mul_add(&w, 2, 0);
        proof {
            assert(pow2((n + 1) as nat) == 2 * pow2(n as nat));
            assert(before * 2 == dm * pow2((n + 1) as nat)) by (nonlinear_arith)
                requires
                    before == dm * pow2(n as nat),
                    pow2((n + 1) as nat) == 2 * pow2(n as nat),
            ;
        }
        n = n + 1;
    }
    w
}

/// Facts about the digits of `w` up to its highest one that is not zero, at `h`.
proof fn lemma_top_split(w: Seq<u8>, h: int)
    requires
        small_digits(w),
        0 <= h < w.len(),
        w[h] != 0,
        forall|i: int| h < i < w.len() ==> w[i] == 0,
    ensures
        small_digits(w.take(h)),
        0 <= le_val(w.take(h)) < pow10(h as nat),
        le_val(w) == le_val(w.take(h)) + w[h] * pow10(h as nat),
        pow10(h as nat) <= le_val(w) < pow10((h + 1) as nat),
{
    lemma_le_val_top_zeros(w, h + 1);
    let lo = w.take(h);
    let hi = w.take(h + 1);
    assert(hi.drop_last() =~= lo);
    assert(hi.last() == w[h]);
    assert(small_digits(lo)) by {
        assert forall|x: int| 0 <= x < lo.len() implies #[trigger] lo[x] < 10 by {
            assert(lo[x] == w[x]);
        }
    }
    lemma_le_val_bound(lo);
    assert(small_digits(hi)) by {
        assert forall|x: int| 0 <= x < hi.len() implies #[trigger] hi[x] < 10 by {
            assert(hi[x] == w[x]);
        }
    }
    lemma_le_val_bound(hi);
    lemma_le_val_at_least(hi, h);
}

/// Whether the digits `w` hold at most `10^j`.
#[verifier::spinoff_prover]
fn at_most_pow10(w: &Vec<u8>, j: i128) -> (r: bool)
    requires
        small_digits(w@),
        j >= 1,
    ensures
        r == (le_val(w@) <= pow10(j as nat)),
{
    match top_nonzero(w) {
        None => {
            proof {
                lemma_le_val_top_zeros(w@, 0);
                assert(w@.take(0) =~= Seq::<u8>::empty());
                lemma_pow10_pos(j as nat);
            }
            true
        },
        Some(h) => {
            proof {
                lemma_top_split(w@, h as int);
            }
            if (h as i128) < j {
                proof {
                    lemma_pow10_mono((h + 1) as nat, j as nat);
                }
                true
            } else if (h as i128) > j {
                proof {
                    lemma_pow10_mono((j + 1) as nat, h as nat);
                    lemma_pow10_pos(j as nat);
                }
                false
            } else {
                let low_zero = zero_below(w, h);
                proof {
                    let lo = w@.take(h as int);
                    let p = pow10(h as nat);
                    lemma_pow10_pos(h as nat);
                    let x = w@[h as int] as int;
                    if low_zero {
                        lemma_le_val_top_zeros(lo, 0);
                        assert(lo.take(0) =~= Seq::<u8>::empty());
                        if x >= 2 {
                            assert(x * p >= 2 * p) by (nonlinear_arith)
                                requires
                                    x >= 2,
                                    p >= 1,
                            ;
                        }
                    } else {
                        let z = choose|z: int| 0 <= z < h && w@[z] != 0;
                        assert(lo[z] == w@[z]);
                        lemma_le_val_at_least(lo, z);
                        lemma_pow10_pos(z as nat);
                        assert(x * p >= p) by (nonlinear_arith)
                            requires
                                x >= 1,
                                p >= 1,
                        ;
                    }
                }
                low_zero && w[h] == 1
            }
        },
    }
}

/// Whether `str::parse::<f32>` reads the number `s[a..b]` as zero.
#[verifier::spinoff_prover]
pub fn rounds_to_zero_between(s: &[char], a: usize, b: usize) -> (r: bool)
    requires
        a <= b <= s@.len(),
    ensures
        r == rounds_to_zero(s@.subrange(a as int, b as int)),
{
    let ghost t = s@.subrange(a as int, b as int);
    let me = find_mantissa_end(s, a, b);
    let ghost m = t.take(mantissa_len(t));
    assert(m =~= s@.subrange(a as int, me as int));
    let (d, any_digit, frac) = scan_mantissa(s, a, me);
    if !any_digit {
        return false;
    }
    let exp: i128 = if me < b {
        read_exponent(s, me + 1, b)
    } else {
        0
    };
    proof {
        if me < b {
            assert(t.skip(mantissa_len(t) + 1) =~= s@.subrange(me + 1, b as int));
        }
        assert(exp == clip(exp_of(t)));
    }
    let ghost kt = exp_of(t) - frac_len(m);
    let k: i128 = exp - frac as i128;
    assert((k >= 0) == (kt >= 0));
    if k >= 0 {
        return is_zero_digits(&d);
    }
    let w = times_pow2_150(d);
    if exp <= -0x10_0000_0000_0000_0000_0000_0000 {
        proof {
            lemma_le_val_bound(w@);
            lemma_pow10_mono(w@.len(), (-kt) as nat);
        }
        return true;
    }
    assert(k == kt);
    at_most_pow10(&w, -k)
}

} // verus!
