//! Runs of numbers separated by blanks, and the vectors and boxes made of them.
use vstd::prelude::*;

use crate::formats::smv::err::SmvError;
use crate::formats::smv::lex::{
    read_float, read_i32, read_u32, skip_space, sp_float, sp_i32, sp_u32, space_end, Span,
};
use crate::geom::{Bounds3, Surfaces3, Vec3};

verus! {

/// `n` numbers from `p`, each after optional blanks, kept as their text.
pub open spec fn sp_floats(s: Seq<char>, p: int, n: nat) -> Result<(Seq<Span>, int), SmvError>
    decreases n,
{
    if n == 0 {
        Ok((Seq::empty(), p))
    } else {
        match sp_floats(s, p, (n - 1) as nat) {
            Ok((v, q)) => match sp_float(s, space_end(s, q)) {
                Ok(t) => Ok((v.push(t), t.end as int)),
                Err(e) => Err(e),
            },
            Err(e) => Err(e),
        }
    }
}

/// `n` `i32` numbers from `p`, each after optional blanks.
pub open spec fn sp_ints(s: Seq<char>, p: int, n: nat) -> Result<(Seq<i32>, int), SmvError>
    decreases n,
{
    if n == 0 {
        Ok((Seq::empty(), p))
    } else {
        match sp_ints(s, p, (n - 1) as nat) {
            Ok((v, q)) => match sp_i32(s, space_end(s, q)) {
                Ok((x, t)) => Ok((v.push(x), t.end as int)),
                Err(e) => Err(e),
            },
            Err(e) => Err(e),
        }
    }
}

/// `n` `u32` numbers from `p`, each after optional blanks.
pub open spec fn sp_uints(s: Seq<char>, p: int, n: nat) -> Result<(Seq<u32>, int), SmvError>
    decreases n,
{
    if n == 0 {
        Ok((Seq::empty(), p))
    } else {
        match sp_uints(s, p, (n - 1) as nat) {
            Ok((v, q)) => match sp_u32(s, space_end(s, q)) {
                Ok((x, t)) => Ok((v.push(x), t.end as int)),
                Err(e) => Err(e),
            },
            Err(e) => Err(e),
        }
    }
}

/// A vector of three numbers and the blanks after it.
pub open spec fn sp_vec3f(s: Seq<char>, p: int) -> Result<(Vec3<Span>, int), SmvError> {
    match sp_floats(s, p, 3) {
        Ok((v, q)) => Ok((Vec3 { x: v[0], y: v[1], z: v[2] }, space_end(s, q))),
        Err(e) => Err(e),
    }
}

/// A box of six numbers, in the order FDS writes them, and the blanks after it.
pub open spec fn sp_bounds3f(s: Seq<char>, p: int) -> Result<(Bounds3<Span>, int), SmvError> {
    match sp_floats(s, p, 6) {
        Ok((v, q)) => Ok(
            (
                Bounds3 { min: Vec3 { x: v[0], y: v[2], z: v[4] }, max: Vec3 { x: v[1], y: v[3], z: v[5] } },
                space_end(s, q),
            ),
        ),
        Err(e) => Err(e),
    }
}

/// A box of six `i32` numbers, in the order FDS writes them, and the blanks after it.
pub open spec fn sp_bounds3i(s: Seq<char>, p: int) -> Result<(Bounds3<i32>, int), SmvError> {
    match sp_ints(s, p, 6) {
        Ok((v, q)) => Ok(
            (
                Bounds3 { min: Vec3 { x: v[0], y: v[2], z: v[4] }, max: Vec3 { x: v[1], y: v[3], z: v[5] } },
                space_end(s, q),
            ),
        ),
        Err(e) => Err(e),
    }
}

/// Six `i32` numbers, one for each face of a box, and the blanks after them.
pub open spec fn sp_surfaces3i(s: Seq<char>, p: int) -> Result<(Surfaces3<i32>, int), SmvError> {
    match sp_ints(s, p, 6) {
        Ok((v, q)) => Ok(
            (
                Surfaces3 { neg_x: v[0], pos_x: v[1], neg_y: v[2], pos_y: v[3], neg_z: v[4], pos_z: v[5] },
                space_end(s, q),
            ),
        ),
        Err(e) => Err(e),
    }
}

/// A vector of three `u32` numbers and the blanks after it.
pub open spec fn sp_vec3u(s: Seq<char>, p: int) -> Result<(Vec3<u32>, int), SmvError> {
    match sp_uints(s, p, 3) {
        Ok((v, q)) => Ok((Vec3 { x: v[0], y: v[1], z: v[2] }, space_end(s, q))),
        Err(e) => Err(e),
    }
}

proof fn lemma_floats_len(s: Seq<char>, p: int, n: nat)
    ensures
        sp_floats(s, p, n) matches Ok((v, _)) ==> v.len() == n,
    decreases n,
{
    if n > 0 {
        lemma_floats_len(s, p, (n - 1) as nat);
    }
}

proof fn lemma_ints_len(s: Seq<char>, p: int, n: nat)
    ensures
        sp_ints(s, p, n) matches Ok((v, _)) ==> v.len() == n,
    decreases n,
{
    if n > 0 {
        lemma_ints_len(s, p, (n - 1) as nat);
    }
}

proof fn lemma_uints_len(s: Seq<char>, p: int, n: nat)
    ensures
        sp_uints(s, p, n) matches Ok((v, _)) ==> v.len() == n,
    decreases n,
{
    if n > 0 {
        lemma_uints_len(s, p, (n - 1) as nat);
    }
}

/// Reads `n` numbers from `p`.
pub fn read_floats(s: &[char], p: usize, n: usize) -> (r: Result<(Vec<Span>, usize), SmvError>)
    requires
        p <= s@.len(),
    ensures
        match r {
            Ok((v, q)) => sp_floats(s@, p as int, n as nat) == Ok::<(Seq<Span>, int), SmvError>(
                (v@, q as int),
            ) && p <= q <= s@.len() && v@.len() == n && forall|k: int|
                0 <= k < v@.len() ==> (#[trigger] v@[k]).start < v@[k].end <= s@.len(),
            Err(e) => sp_floats(s@, p as int, n as nat) == Err::<(Seq<Span>, int), SmvError>(e),
        },
{
    let mut v: Vec<Span> = Vec::new();
    let mut q = p;
    let mut i: usize = 0;
    while i < n
        invariant
            i <= n,
            p <= q <= s@.len(),
            v@.len() == i,
            forall|k: int| 0 <= k < v@.len() ==> (#[trigger] v@[k]).start < v@[k].end <= s@.len(),
            sp_floats(s@, p as int, i as nat) == Ok::<(Seq<Span>, int), SmvError>((v@, q as int)),
        decreases n - i,
    {
        let a = skip_space(s, q);
        let t = read_float(s, a);
        match t {
            Ok(t) => {
                v.push(t);
                q = t.end;
            },
            Err(e) => {
                proof {
                    lemma_floats_err(s@, p as int, (i + 1) as nat, n as nat);
                }
                return Err(e);
            },
        }
        i = i + 1;
    }
    Ok((v, q))
}

proof fn lemma_floats_err(s: Seq<char>, p: int, a: nat, b: nat)
    requires
        a <= b,
        sp_floats(s, p, a) is Err,
    ensures
        sp_floats(s, p, b) == sp_floats(s, p, a),
    decreases b - a,
{
    if b > a {
        lemma_floats_err(s, p, a, (b - 1) as nat);
    }
}

proof fn lemma_ints_err(s: Seq<char>, p: int, a: nat, b: nat)
    requires
        a <= b,
        sp_ints(s, p, a) is Err,
    ensures
        sp_ints(s, p, b) == sp_ints(s, p, a),
    decreases b - a,
{
    if b > a {
        lemma_ints_err(s, p, a, (b - 1) as nat);
    }
}

proof fn lemma_uints_err(s: Seq<char>, p: int, a: nat, b: nat)
    requires
        a <= b,
        sp_uints(s, p, a) is Err,
    ensures
        sp_uints(s, p, b) == sp_uints(s, p, a),
    decreases b - a,
{
    if b > a {
        lemma_uints_err(s, p, a, (b - 1) as nat);
    }
}

/// Reads `n` `i32` numbers from `p`.
pub fn read_ints(s: &[char], p: usize, n: usize) -> (r: Result<(Vec<i32>, usize), SmvError>)
    requires
        p <= s@.len(),
    ensures
        match r {
            Ok((v, q)) => sp_ints(s@, p as int, n as nat) == Ok::<(Seq<i32>, int), SmvError>(
                (v@, q as int),
            ) && p <= q <= s@.len() && v@.len() == n,
            Err(e) => sp_ints(s@, p as int, n as nat) == Err::<(Seq<i32>, int), SmvError>(e),
        },
{
    let mut v: Vec<i32> = Vec::new();
    let mut q = p;
    let mut i: usize = 0;
    while i < n
        invariant
            i <= n,
            p <= q <= s@.len(),
            v@.len() == i,
            sp_ints(s@, p as int, i as nat) == Ok::<(Seq<i32>, int), SmvError>((v@, q as int)),
        decreases n - i,
    {
        let a = skip_space(s, q);
        match read_i32(s, a) {
            Ok((x, t)) => {
                v.push(x);
                q = t.end;
            },
            Err(e) => {
                proof {
                    lemma_ints_err(s@, p as int, (i + 1) as nat, n as nat);
                }
                return Err(e);
            },
        }
        i = i + 1;
    }
    Ok((v, q))
}

/// Reads `n` `u32` numbers from `p`.
pub fn read_uints(s: &[char], p: usize, n: usize) -> (r: Result<(Vec<u32>, usize), SmvError>)
    requires
        p <= s@.len(),
    ensures
        match r {
            Ok((v, q)) => sp_uints(s@, p as int, n as nat) == Ok::<(Seq<u32>, int), SmvError>(
                (v@, q as int),
            ) && p <= q <= s@.len() && v@.len() == n,
            Err(e) => sp_uints(s@, p as int, n as nat) == Err::<(Seq<u32>, int), SmvError>(e),
        },
{
    let mut v: Vec<u32> = Vec::new();
    let mut q = p;
    let mut i: usize = 0;
    while i < n
        invariant
            i <= n,
            p <= q <= s@.len(),
            v@.len() == i,
            sp_uints(s@, p as int, i as nat) == Ok::<(Seq<u32>, int), SmvError>((v@, q as int)),
        decreases n - i,
    {
        let a = skip_space(s, q);
        match read_u32(s, a) {
            Ok((x, t)) => {
                v.push(x);
                q = t.end;
            },
            Err(e) => {
                proof {
                    lemma_uints_err(s@, p as int, (i + 1) as nat, n as nat);
                }
                return Err(e);
            },
        }
        i = i + 1;
    }
    Ok((v, q))
}

/// Reads a vector of three numbers.
pub fn read_vec3f(s: &[char], p: usize) -> (r: Result<(Vec3<Span>, usize), SmvError>)
    requires
        p <= s@.len(),
    ensures
        match r {
            Ok((v, q)) => sp_vec3f(s@, p as int) == Ok::<(Vec3<Span>, int), SmvError>((v, q as int))
                && p <= q <= s@.len(),
            Err(e) => sp_vec3f(s@, p as int) == Err::<(Vec3<Span>, int), SmvError>(e),
        },
{
    let (v, q) = read_floats(s, p, 3)?;
    Ok((Vec3 { x: v[0], y: v[1], z: v[2] }, skip_space(s, q)))
}

/// Reads a box of six numbers.
pub fn read_bounds3f(s: &[char], p: usize) -> (r: Result<(Bounds3<Span>, usize), SmvError>)
    requires
        p <= s@.len(),
    ensures
        match r {
            Ok((v, q)) => sp_bounds3f(s@, p as int) == Ok::<(Bounds3<Span>, int), SmvError>(
                (v, q as int),
            ) && p <= q <= s@.len(),
            Err(e) => sp_bounds3f(s@, p as int) == Err::<(Bounds3<Span>, int), SmvError>(e),
        },
{
    let (v, q) = read_floats(s, p, 6)?;
    Ok(
        (
            Bounds3 { min: Vec3 { x: v[0], y: v[2], z: v[4] }, max: Vec3 { x: v[1], y: v[3], z: v[5] } },
            skip_space(s, q),
        ),
    )
}

/// Reads a box of six `i32` numbers.
pub fn read_bounds3i(s: &[char], p: usize) -> (r: Result<(Bounds3<i32>, usize), SmvError>)
    requires
        p <= s@.len(),
    ensures
        match r {
            Ok((v, q)) => sp_bounds3i(s@, p as int) == Ok::<(Bounds3<i32>, int), SmvError>(
                (v, q as int),
            ) && p <= q <= s@.len(),
            Err(e) => sp_bounds3i(s@, p as int) == Err::<(Bounds3<i32>, int), SmvError>(e),
        },
{
    let (v, q) = read_ints(s, p, 6)?;
    Ok(
        (
            Bounds3 { min: Vec3 { x: v[0], y: v[2], z: v[4] }, max: Vec3 { x: v[1], y: v[3], z: v[5] } },
            skip_space(s, q),
        ),
    )
}

/// Reads six `i32` numbers, one for each face of a box.
pub fn read_surfaces3i(s: &[char], p: usize) -> (r: Result<(Surfaces3<i32>, usize), SmvError>)
    requires
        p <= s@.len(),
    ensures
        match r {
            Ok((v, q)) => sp_surfaces3i(s@, p as int) == Ok::<(Surfaces3<i32>, int), SmvError>(
                (v, q as int),
            ) && p <= q <= s@.len(),
            Err(e) => sp_surfaces3i(s@, p as int) == Err::<(Surfaces3<i32>, int), SmvError>(e),
        },
{
    let (v, q) = read_ints(s, p, 6)?;
    Ok(
        (
            Surfaces3 { neg_x: v[0], pos_x: v[1], neg_y: v[2], pos_y: v[3], neg_z: v[4], pos_z: v[5] },
            skip_space(s, q),
        ),
    )
}

/// Reads a vector of three `u32` numbers.
pub fn read_vec3u(s: &[char], p: usize) -> (r: Result<(Vec3<u32>, usize), SmvError>)
    requires
        p <= s@.len(),
    ensures
        match r {
            Ok((v, q)) => sp_vec3u(s@, p as int) == Ok::<(Vec3<u32>, int), SmvError>((v, q as int))
                && p <= q <= s@.len(),
            Err(e) => sp_vec3u(s@, p as int) == Err::<(Vec3<u32>, int), SmvError>(e),
        },
{
    let (v, q) = read_uints(s, p, 3)?;
    Ok((Vec3 { x: v[0], y: v[1], z: v[2] }, skip_space(s, q)))
}

} // verus!
