//! Reading the sections of a `.smv` file, as `sections` describes them.
use vstd::prelude::*;

use crate::formats::smv::err::{KeyType, SectionName, SmvError};
use crate::formats::smv::lex::{
    advances, in_line, lemma_repeat_err, lifted, lifted_vec, line_ending, read_eol, read_float,
    read_full_line, read_i32, read_line_ending, read_tag, read_token, read_u32, repeat_spec,
    skip_sep, skip_space, sp_full_line, sp_tag, space_end, text, text_is, Span, locate,
};
use crate::formats::smv::mesh::{
    read_mesh, read_text_line, read_usize_line, sp_usize_line, text_line_step,
};
use crate::formats::smv::model::{
    Smv, SmvView, views, Device, DeviceActivation, DeviceView, Material, Plot3D, Property,
    Quantity, Ramp, RampValue, RampView, Slice, Smoke3D, Smoke3DType, SmvState, StateView, Surface,
    TimeRange, ViewTimes,
};
use crate::formats::smv::sections::{
    all_upper, bounds_step, char_pos, find_device, insert_device, is_zero_lexeme, mantissa_len,
    ramp_step, ramp_value_step, skip_to_section, sp_activation_line, sp_bounds3f_line,
    sp_device, sp_device_act, sp_device_body, sp_device_head, sp_float_line, sp_floats_line,
    sp_header_section, sp_hrrpuvcut, sp_i32_line, sp_inline_section, sp_one_line, sp_outlines,
    sp_plot3d, sp_prop, sp_quantity, sp_ramp, sp_ramps, sp_section, sp_run, sp_finish, smv_parse, sp_skip,
    sp_slice, sp_slice_line, sp_slice_stuff, sp_smoke3d, sp_smoke3d_line, sp_surface,
    sp_surface_line, sp_text_lines, sp_u32_line, sp_vec3f_line, sp_vent_change, sp_version,
    sp_viewtimes, sp_viewtimes_line, version_second, sp_header_rest,
};
use crate::formats::smv::zero::rounds_to_zero_between;
use crate::formats::smv::values::{read_bounds3f, read_bounds3i, read_floats, read_vec3f};
use crate::geom::{Bounds3, Vec3};
use crate::text::{chars_of, trim_bounds};

verus! {

/// A section's result with the state after it.
pub open spec fn state_res(r: Result<usize, SmvError>, st: StateView) -> Result<(StateView, int), SmvError> {
    match r {
        Ok(q) => Ok((st, q as int)),
        Err(e) => Err(e),
    }
}

/// Reads a line holding an `i32` number.
pub fn read_i32_line(s: &[char], p: usize) -> (r: Result<((i32, Span), usize), SmvError>)
    requires
        p <= s@.len(),
    ensures
        lifted(r) == sp_i32_line(s@, p as int),
        advances(r, p as int, s@),
{
    let (v, t) = read_i32(s, skip_space(s, p))?;
    let q = read_eol(s, t.end)?;
    Ok(((v, t), q))
}

/// Reads a line holding a `u32` number.
pub fn read_u32_line(s: &[char], p: usize) -> (r: Result<(u32, usize), SmvError>)
    requires
        p <= s@.len(),
    ensures
        lifted(r) == sp_u32_line(s@, p as int),
        advances(r, p as int, s@),
{
    let (v, t) = read_u32(s, skip_space(s, p))?;
    let q = read_eol(s, t.end)?;
    Ok((v, q))
}

/// Reads a line holding a number.
pub fn read_float_line(s: &[char], p: usize) -> (r: Result<(Span, usize), SmvError>)
    requires
        p <= s@.len(),
    ensures
        lifted(r) == sp_float_line(s@, p as int),
        advances(r, p as int, s@),
{
    let f = read_float(s, skip_space(s, p))?;
    let q = read_eol(s, f.end)?;
    Ok((f, q))
}

/// Reads a line holding `n` numbers.
pub fn read_floats_line(s: &[char], p: usize, n: usize) -> (r: Result<(Vec<Span>, usize), SmvError>)
    requires
        p <= s@.len(),
    ensures
        lifted_vec(r) == sp_floats_line(s@, p as int, n as nat),
        r matches Ok((v, q)) ==> p <= q <= s@.len() && v@.len() == n,
{
    let (v, q) = read_floats(s, skip_space(s, p), n)?;
    let e = read_eol(s, skip_space(s, q))?;
    Ok((v, e))
}

/// Reads a line holding a vector of three numbers.
pub fn read_vec3f_line(s: &[char], p: usize) -> (r: Result<(Vec3<Span>, usize), SmvError>)
    requires
        p <= s@.len(),
    ensures
        lifted(r) == sp_vec3f_line(s@, p as int),
        advances(r, p as int, s@),
{
    let (v, q) = read_vec3f(s, skip_space(s, p))?;
    let e = read_eol(s, q)?;
    Ok((v, e))
}

/// Reads a line holding a box of six numbers.
pub fn read_bounds3f_line(s: &[char], p: usize) -> (r: Result<(Bounds3<Span>, usize), SmvError>)
    requires
        p <= s@.len(),
    ensures
        lifted(r) == sp_bounds3f_line(s@, p as int),
        advances(r, p as int, s@),
{
    let (v, q) = read_bounds3f(s, skip_space(s, p))?;
    let e = read_eol(s, q)?;
    Ok((v, e))
}

/// Reads a counted list of boxes.
pub fn read_outlines(s: &[char], p: usize) -> (r: Result<(Vec<Bounds3<Span>>, usize), SmvError>)
    requires
        p <= s@.len(),
    ensures
        lifted_vec(r) == sp_outlines(s@, p as int),
        r matches Ok((_, q)) ==> p <= q <= s@.len(),
{
    let (n, q0) = read_usize_line(s, p)?;
    let ghost step = bounds_step(s@);
    let mut v: Vec<Bounds3<Span>> = Vec::new();
    let mut q = q0;
    let mut i: usize = 0;
    while i < n
        invariant
            i <= n,
            p <= q0 <= q <= s@.len(),
            step == bounds_step(s@),
            sp_usize_line(s@, p as int) == Ok::<(usize, int), SmvError>((n, q0 as int)),
            repeat_spec(step, q0 as int, i as nat) == Ok::<(Seq<Bounds3<Span>>, int), SmvError>(
                (v@, q as int),
            ),
        decreases n - i,
    {
        match read_bounds3f_line(s, q) {
            Ok((b, q2)) => {
                v.push(b);
                q = q2;
            },
            Err(e) => {
                proof {
                    lemma_repeat_err(step, q0 as int, (i + 1) as nat, n as nat);
                }
                return Err(e);
            },
        }
        i = i + 1;
    }
    Ok((v, q))
}

/// Reads a counted list of lines of text.
pub fn read_text_lines(s: &[char], p: usize) -> (r: Result<(Vec<Span>, usize), SmvError>)
    requires
        p <= s@.len(),
    ensures
        lifted_vec(r) == sp_text_lines(s@, p as int),
        r matches Ok((_, q)) ==> p <= q <= s@.len(),
{
    let (n, q0) = read_usize_line(s, p)?;
    let ghost step = text_line_step(s@);
    let mut v: Vec<Span> = Vec::new();
    let mut q = q0;
    let mut i: usize = 0;
    while i < n
        invariant
            i <= n,
            p <= q0 <= q <= s@.len(),
            step == text_line_step(s@),
            sp_usize_line(s@, p as int) == Ok::<(usize, int), SmvError>((n, q0 as int)),
            repeat_spec(step, q0 as int, i as nat) == Ok::<(Seq<Span>, int), SmvError>(
                (v@, q as int),
            ),
        decreases n - i,
    {
        match read_text_line(s, q) {
            Ok((l, q2)) => {
                v.push(l);
                q = q2;
            },
            Err(e) => {
                proof {
                    lemma_repeat_err(step, q0 as int, (i + 1) as nat, n as nat);
                }
                return Err(e);
            },
        }
        i = i + 1;
    }
    Ok((v, q))
}

/// Reads a ramp.
pub fn read_ramp(s: &[char], p: usize) -> (r: Result<(Ramp, usize), SmvError>)
    requires
        p <= s@.len(),
    ensures
        match r {
            Ok((v, q)) => sp_ramp(s@, p as int) == Ok::<(RampView, int), SmvError>((v@, q as int))
                && p <= q <= s@.len(),
            Err(e) => sp_ramp(s@, p as int) == Err::<(RampView, int), SmvError>(e),
        },
{
    let c = read_tag(s, skip_space(s, p), "RAMP:")?;
    let (name, e) = read_full_line(s, c)?;
    let q = read_eol(s, e)?;
    let (n, q0) = read_usize_line(s, q)?;
    let ghost step = ramp_value_step(s@);
    let mut v: Vec<RampValue> = Vec::new();
    let mut q2 = q0;
    let mut i: usize = 0;
    while i < n
        invariant
            i <= n,
            p <= q0 <= q2 <= s@.len(),
            step == ramp_value_step(s@),
            sp_tag(s@, space_end(s@, p as int), "RAMP:"@) == Ok::<int, SmvError>(c as int),
            in_line(s@, sp_full_line(s@, c as int)) == Ok::<(Span, int), SmvError>((name, q as int)),
            sp_usize_line(s@, q as int) == Ok::<(usize, int), SmvError>((n, q0 as int)),
            repeat_spec(step, q0 as int, i as nat) == Ok::<(Seq<RampValue>, int), SmvError>(
                (v@, q2 as int),
            ),
        decreases n - i,
    {
        match read_floats_line(s, q2, 2) {
            Ok((x, q3)) => {
                v.push(RampValue { independent: x[0], dependent: x[1] });
                q2 = q3;
            },
            Err(e) => {
                proof {
                    lemma_repeat_err(step, q0 as int, (i + 1) as nat, n as nat);
                }
                return Err(e);
            },
        }
        i = i + 1;
    }
    Ok((Ramp { name, values: v }, q2))
}

/// Reads the counted list of ramps.
pub fn read_ramps(s: &[char], p: usize) -> (r: Result<(Vec<Ramp>, usize), SmvError>)
    requires
        p <= s@.len(),
    ensures
        match r {
            Ok((v, q)) => sp_ramps(s@, p as int) == Ok::<(Seq<RampView>, int), SmvError>(
                (views(v@), q as int),
            ) && p <= q <= s@.len(),
            Err(e) => sp_ramps(s@, p as int) == Err::<(Seq<RampView>, int), SmvError>(e),
        },
{
    let (n, q0) = read_usize_line(s, p)?;
    let ghost step = ramp_step(s@);
    let mut v: Vec<Ramp> = Vec::new();
    let mut q = q0;
    let mut i: usize = 0;
    assert(views(v@) =~= Seq::<RampView>::empty());
    while i < n
        invariant
            i <= n,
            p <= q0 <= q <= s@.len(),
            step == ramp_step(s@),
            sp_usize_line(s@, p as int) == Ok::<(usize, int), SmvError>((n, q0 as int)),
            repeat_spec(step, q0 as int, i as nat) == Ok::<(Seq<RampView>, int), SmvError>(
                (views(v@), q as int),
            ),
        decreases n - i,
    {
        match read_ramp(s, q) {
            Ok((x, q2)) => {
                let ghost old_v = v@;
                v.push(x);
                assert(views(v@) =~= views(old_v).push(x@));
                q = q2;
            },
            Err(e) => {
                proof {
                    lemma_repeat_err(step, q0 as int, (i + 1) as nat, n as nat);
                }
                return Err(e);
            },
        }
        i = i + 1;
    }
    Ok((v, q))
}

/// Reads a quantity.
pub fn read_quantity(s: &[char], p: usize) -> (r: Result<(Quantity, usize), SmvError>)
    requires
        p <= s@.len(),
    ensures
        lifted(r) == sp_quantity(s@, p as int),
        advances(r, p as int, s@),
{
    let (label, q1) = read_text_line(s, p)?;
    let (bar_label, q2) = read_text_line(s, q1)?;
    let (unit, q3) = read_text_line(s, q2)?;
    Ok((Quantity { label, bar_label, unit }, q3))
}

/// The number of characters of `s[a..b]` before its first `e` or `E`.
pub(crate) fn find_mantissa_end(s: &[char], a: usize, b: usize) -> (r: usize)
    requires
        a <= b <= s@.len(),
    ensures
        r - a == mantissa_len(s@.subrange(a as int, b as int)),
        a <= r <= b,
{
    let mut i = a;
    assert(s@.subrange(a as int, a as int) =~= Seq::<char>::empty());
    while i < b && !(s[i] == 'e' || s[i] == 'E')
        invariant
            a <= i <= b <= s@.len(),
            mantissa_len(s@.subrange(a as int, i as int)) == i - a,
        decreases b - i,
    {
        assert(s@.subrange(a as int, i + 1).drop_last() =~= s@.subrange(a as int, i as int));
        i = i + 1;
    }
    if i < b {
        assert(s@.subrange(a as int, i + 1).drop_last() =~= s@.subrange(a as int, i as int));
        proof {
            lemma_mantissa_stays(s@.subrange(a as int, b as int), i + 1 - a);
            assert(s@.subrange(a as int, b as int).take(i + 1 - a) =~= s@.subrange(a as int, i + 1));
        }
    } else {
        assert(s@.subrange(a as int, i as int) =~= s@.subrange(a as int, b as int));
    }
    i
}

proof fn lemma_mantissa_stays(t: Seq<char>, k: int)
    requires
        0 < k <= t.len(),
        mantissa_len(t.take(k)) < k,
    ensures
        mantissa_len(t) == mantissa_len(t.take(k)),
    decreases t.len() - k,
{
    if k < t.len() {
        assert(t.take(k + 1).drop_last() =~= t.take(k));
        lemma_mantissa_stays(t, k + 1);
    } else {
        assert(t.take(k) =~= t);
    }
}

/// Whether the number `s[a..b]` reads as zero in `f32`.
pub fn zero_between(s: &[char], a: usize, b: usize) -> (r: bool)
    requires
        a <= b <= s@.len(),
    ensures
        r == is_zero_lexeme(s@.subrange(a as int, b as int)),
{
    rounds_to_zero_between(s, a, b)
}

/// The position of the first `c` from `p`.
pub fn find_char_from(s: &[char], p: usize, c: char) -> (r: usize)
    requires
        p <= s@.len(),
    ensures
        r == char_pos(s@, p as int, c),
        p <= r <= s@.len(),
{
    let mut i = p;
    while i < s.len() && s[i] != c
        invariant
            p <= i <= s@.len(),
            char_pos(s@, i as int, c) == char_pos(s@, p as int, c),
        decreases s@.len() - i,
    {
        i = i + 1;
    }
    i
}

/// Whether `s[a..b]` is all ASCII upper-case letters.
pub fn upper_between(s: &[char], a: usize, b: usize) -> (r: bool)
    requires
        a <= b <= s@.len(),
    ensures
        r == all_upper(s@.subrange(a as int, b as int)),
{
    let mut i = a;
    while i < b
        invariant
            a <= i <= b <= s@.len(),
            forall|k: int| a <= k < i ==> 'A' <= #[trigger] s@[k] <= 'Z',
        decreases b - i,
    {
        if !('A' <= s[i] && s[i] <= 'Z') {
            assert(s@.subrange(a as int, b as int)[i - a] == s@[i as int]);
            return false;
        }
        i = i + 1;
    }
    assert forall|k: int| 0 <= k < b - a implies 'A' <= #[trigger] s@.subrange(
        a as int,
        b as int,
    )[k] <= 'Z' by {
        assert(s@.subrange(a as int, b as int)[k] == s@[a + k]);
    }
    true
}

/// Skips lines up to the next section.
pub fn skip_lines(s: &[char], p: usize) -> (r: usize)
    requires
        p <= s@.len(),
    ensures
        r == skip_to_section(s@, p as int),
        p <= r <= s@.len(),
{
    let mut i = p;
    while true
        invariant
            p <= i <= s@.len(),
            skip_to_section(s@, i as int) == skip_to_section(s@, p as int),
        decreases s@.len() - i,
    {
        let e = crate::formats::smv::lex::find_eol(s, i);
        if e < s.len() && s[e] == '\r' && !(e + 1 < s.len() && s[e + 1] == '\n') {
            return i;
        }
        match read_line_ending(s, e) {
            None => {
                return i;
            },
            Some(q) => {
                if upper_between(s, i, e) {
                    return i;
                }
                i = q;
            },
        }
    }
    i
}

/// Skips the section `w`.
pub fn read_skip(s: &[char], p: usize, w: Span, warn: bool, st: &mut SmvState) -> (r: Result<
    usize,
    SmvError,
>)
    requires
        p <= s@.len(),
    ensures
        state_res(r, final(st)@) == sp_skip(s@, p as int, w, warn, old(st)@),
        r is Err ==> final(st)@ == old(st)@,
        r matches Ok(q) ==> p <= q <= s@.len(),
{
    match read_text_line(s, p) {
        Err(_) => Err(SmvError::UnexpectedEndOfInput { span: w }),
        Ok((_, q)) => {
            if warn {
                st.warnings.push(w);
            }
            Ok(skip_lines(s, q))
        },
    }
}

/// Reads the optional second line of a version.
pub fn read_version_second(s: &[char], q1: usize) -> (r: (Option<Span>, usize))
    requires
        q1 <= s@.len(),
    ensures
        (r.0, r.1 as int) == version_second(s@, q1 as int),
        q1 <= r.1 <= s@.len(),
{
    match read_full_line(s, q1) {
        Ok((l, e2)) => match read_line_ending(s, e2) {
            Some(q) => {
                assert(line_ending(s@, e2 as int) == Some(q as int));
                let r = (
                    if l.start < l.end {
                        Some(l)
                    } else {
                        None
                    },
                    q,
                );
                assert(sp_full_line(s@, q1 as int) == Ok::<(Span, int), SmvError>((l, e2 as int)));
                r
            },
            None => (None, q1),
        },
        Err(_) => (None, q1),
    }
}

/// Reads `VERSION` or `FDSVERSION`.
pub fn read_version(s: &[char], p: usize, st: &mut SmvState) -> (r: Result<usize, SmvError>)
    requires
        p <= s@.len(),
    ensures
        state_res(r, final(st)@) == sp_version(s@, p as int, old(st)@),
        r is Err ==> final(st)@ == old(st)@,
        r matches Ok(q) ==> p <= q <= s@.len(),
{
    let (v, e) = read_full_line(s, p)?;
    let q1 = match read_line_ending(s, e) {
        Some(q) => q,
        None => {
            return Err(SmvError::SyntaxNonDiagnostic { position: e });
        },
    };
    let (second, q2) = read_version_second(s, q1);
    st.fds_version = Some((v, second));
    assert(st@ == StateView { fds_version: Some((v, second)), ..old(st)@ });
    Ok(q2)
}

/// Reads `HRRPUVCUT`.
pub fn read_hrrpuvcut(s: &[char], p: usize, st: &mut SmvState) -> (r: Result<usize, SmvError>)
    requires
        p <= s@.len(),
    ensures
        state_res(r, final(st)@) == sp_hrrpuvcut(s@, p as int, old(st)@),
        r is Err ==> final(st)@ == old(st)@,
        r matches Ok(q) ==> p <= q <= s@.len(),
{
    let c = read_tag(s, skip_space(s, p), "1")?;
    let q = read_eol(s, c)?;
    let (f, q2) = read_float_line(s, q)?;
    st.hrrpuv_cutoff = Some(f);
    Ok(q2)
}

/// Reads the line of `VIEWTIMES`.
pub fn read_viewtimes_line(s: &[char], p: usize) -> (r: Result<((Span, Span, i32), usize), SmvError>)
    requires
        p <= s@.len(),
    ensures
        lifted(r) == sp_viewtimes_line(s@, p as int),
        advances(r, p as int, s@),
        r matches Ok(((a, _, _), _)) ==> a.start <= a.end <= s@.len(),
{
    let (v, q) = read_floats(s, skip_space(s, p), 2)?;
    let (n, t) = read_i32(s, skip_space(s, q))?;
    let e = read_eol(s, skip_space(s, t.end))?;
    Ok(((v[0], v[1], n), e))
}

/// Reads `VIEWTIMES`.
pub fn read_viewtimes(s: &[char], p: usize, st: &mut SmvState) -> (r: Result<usize, SmvError>)
    requires
        p <= s@.len(),
    ensures
        state_res(r, final(st)@) == sp_viewtimes(s@, p as int, old(st)@),
        r is Err ==> final(st)@ == old(st)@,
        r matches Ok(q) ==> p <= q <= s@.len(),
{
    let ((start, end, n), q) = read_viewtimes_line(s, p)?;
    if !zero_between(s, start.start, start.end) {
        return Err(SmvError::InvalidFloatConstant { span: start });
    }
    st.viewtimes = Some(ViewTimes { time_end: end, num_frames: n });
    Ok(q)
}

/// Reads the third line of `SURFACE`.
pub fn read_surface_line(s: &[char], p: usize) -> (r: Result<
    ((i32, Span, Span, Vec3<Span>, Span), usize),
    SmvError,
>)
    requires
        p <= s@.len(),
    ensures
        lifted(r) == sp_surface_line(s@, p as int),
        advances(r, p as int, s@),
{
    let (ty, t) = read_i32(s, skip_space(s, p))?;
    let (wh, q1) = read_floats(s, t.end, 2)?;
    let (rgb, q2) = read_vec3f(s, skip_space(s, q1))?;
    let tr = read_float(s, skip_space(s, q2))?;
    let e = read_eol(s, skip_space(s, tr.end))?;
    Ok(((ty, wh[0], wh[1], rgb, tr), e))
}

/// Reads `SURFACE`.
pub fn read_surface(s: &[char], p: usize, st: &mut SmvState) -> (r: Result<usize, SmvError>)
    requires
        p <= s@.len(),
    ensures
        state_res(r, final(st)@) == sp_surface(s@, p as int, old(st)@),
        r is Err ==> final(st)@ == old(st)@,
        r matches Ok(q) ==> p <= q <= s@.len(),
{
    let (name, q1) = read_text_line(s, p)?;
    let (tm, q2) = read_floats_line(s, q1, 2)?;
    let ((ty, tw, th, rgb, tr), q3) = read_surface_line(s, q2)?;
    let (texture, q4) = match read_tag(s, q3, "null") {
        Ok(q) => (None, q),
        Err(_) => {
            let (t, q) = read_full_line(s, q3)?;
            (Some(t), q)
        },
    };
    st.surfaces.push(
        Surface {
            id: name,
            water_melting_temp: tm[0],
            material_emissivity: tm[1],
            surface_type: ty,
            texture_width: tw,
            texture_height: th,
            rgb,
            transparency: tr,
            texture,
        },
    );
    Ok(q4)
}

/// Reads `PROP`.
pub fn read_prop(s: &[char], p: usize, st: &mut SmvState) -> (r: Result<usize, SmvError>)
    requires
        p <= s@.len(),
    ensures
        state_res(r, final(st)@) == sp_prop(s@, p as int, old(st)@),
        r is Err ==> final(st)@ == old(st)@,
        r matches Ok(q) ==> p <= q <= s@.len(),
{
    let (name, q1) = read_text_line(s, p)?;
    let (ids, q2) = read_text_lines(s, q1)?;
    let (props, q3) = read_text_lines(s, q2)?;
    let ghost old_props = st.properties@;
    let prop = Property { name, smv_ids: ids, smv_props: props };
    st.properties.push(prop);
    assert(views(st.properties@) =~= views(old_props).push(prop@));
    Ok(q3)
}

/// Reads the first line of `DEVICE`.
pub fn read_device_head(s: &[char], p: usize) -> (r: Result<((Span, Span), usize), SmvError>)
    requires
        p <= s@.len(),
    ensures
        lifted(r) == sp_device_head(s@, p as int),
        advances(r, p as int, s@),
        r matches Ok(((id, _), _)) ==> id.start <= id.end <= s@.len(),
{
    let a = skip_space(s, p);
    let e1 = find_char_from(s, a, '%');
    let c = read_tag(s, e1, "%")?;
    let (quantity, e2) = read_full_line(s, c)?;
    let q = read_eol(s, e2)?;
    let (ia, ib) = trim_bounds(s, a, e1);
    Ok(((Span { start: ia, end: ib }, quantity), q))
}

/// Reads the second line of `DEVICE`.
pub fn read_device_body(s: &[char], p: usize) -> (r: Result<
    ((Vec3<Span>, Vec3<Span>, i32, (i32, Span), Option<Bounds3<Span>>, Span), usize),
    SmvError,
>)
    requires
        p <= s@.len(),
    ensures
        lifted(r) == sp_device_body(s@, p as int),
        advances(r, p as int, s@),
{
    let a0 = skip_space(s, p);
    let (pos, c1) = read_vec3f(s, skip_space(s, a0))?;
    let (ori, c2) = read_vec3f(s, skip_space(s, c1))?;
    let (si, t3) = read_i32(s, skip_space(s, c2))?;
    let (zero, zt) = read_i32(s, skip_space(s, t3.end))?;
    let b5 = skip_space(s, zt.end);
    let (bounds, c5) = match read_tag(s, b5, "#") {
        Ok(c) => match read_bounds3f(s, c) {
            Ok((b, q)) => (Some(b), q),
            Err(_) => (None, b5),
        },
        Err(_) => (None, b5),
    };
    let c6 = read_tag(s, skip_space(s, skip_space(s, c5)), "%")?;
    let (prop, e6) = read_full_line(s, c6)?;
    let q = read_eol(s, skip_space(s, e6))?;
    Ok(((pos, ori, si, (zero, zt), bounds, prop), q))
}

proof fn lemma_find_device_prefix(s: Seq<char>, devs: Seq<DeviceView>, name: Seq<char>, i: int)
    requires
        0 <= i < devs.len(),
        find_device(s, devs.take(i), name) is None,
    ensures
        text(s, devs[i].id) == name ==> find_device(s, devs.take(i + 1), name) == Some(i),
        text(s, devs[i].id) != name ==> find_device(s, devs.take(i + 1), name) is None,
{
    assert(devs.take(i + 1).drop_last() =~= devs.take(i));
}

proof fn lemma_find_device_extend(s: Seq<char>, devs: Seq<DeviceView>, name: Seq<char>, i: int, j: int)
    requires
        0 <= i <= j <= devs.len(),
        find_device(s, devs.take(i), name) is Some,
    ensures
        find_device(s, devs.take(j), name) == find_device(s, devs.take(i), name),
    decreases j - i,
{
    if j > i {
        lemma_find_device_extend(s, devs, name, i, j - 1);
        assert(devs.take(j).drop_last() =~= devs.take(j - 1));
    }
}

proof fn lemma_find_device_range(s: Seq<char>, devs: Seq<DeviceView>, name: Seq<char>)
    ensures
        find_device(s, devs, name) matches Some(i) ==> 0 <= i < devs.len() && text(s, devs[i].id)
            == name,
    decreases devs.len(),
{
    if devs.len() > 0 {
        lemma_find_device_range(s, devs.drop_last(), name);
    }
}

/// The first device whose id reads the characters of `name`.
pub fn find_device_exec(s: &[char], devs: &Vec<Device>, name: Span) -> (r: Option<usize>)
    requires
        name.start <= name.end <= s@.len(),
        forall|k: int|
            0 <= k < devs@.len() ==> (#[trigger] views(devs@)[k]).id.start <= views(devs@)[k].id.end
                <= s@.len(),
    ensures
        match r {
            Some(i) => find_device(s@, views(devs@), text(s@, name)) == Some(i as int) && i
                < devs@.len(),
            None => find_device(s@, views(devs@), text(s@, name)) is None,
        },
{
    let ghost dv = views(devs@);
    let ghost nm = text(s@, name);
    assert(dv.take(0) =~= Seq::<DeviceView>::empty());
    let mut i: usize = 0;
    while i < devs.len()
        invariant
            i <= devs@.len(),
            dv == views(devs@),
            nm == text(s@, name),
            name.start <= name.end <= s@.len(),
            forall|k: int|
                0 <= k < devs@.len() ==> (#[trigger] views(devs@)[k]).id.start <= views(
                    devs@,
                )[k].id.end <= s@.len(),
            find_device(s@, dv.take(i as int), nm) is None,
        decreases devs@.len() - i,
    {
        let id = devs[i].id;
        assert(views(devs@)[i as int].id == id);
        let same = id.end - id.start == name.end - name.start && same_text(s, id, name);
        proof {
            lemma_find_device_prefix(s@, dv, nm, i as int);
            assert(dv[i as int].id == id);
            assert(text(s@, id).len() == id.end - id.start);
            assert(nm.len() == name.end - name.start);
            assert(same <==> text(s@, id) == nm);
        }
        if same {
            proof {
                lemma_find_device_extend(s@, dv, nm, i + 1, dv.len() as int);
                assert(dv.take(dv.len() as int) =~= dv);
            }
            return Some(i);
        }
        i = i + 1;
    }
    assert(dv.take(i as int) =~= dv);
    None
}

/// Whether two spans of equal length hold the same characters.
fn same_text(s: &[char], a: Span, b: Span) -> (r: bool)
    requires
        a.start <= a.end <= s@.len(),
        b.start <= b.end <= s@.len(),
        a.end - a.start == b.end - b.start,
    ensures
        r == (text(s@, a) == text(s@, b)),
{
    let n = a.end - a.start;
    let mut i: usize = 0;
    while i < n
        invariant
            i <= n == a.end - a.start == b.end - b.start,
            a.start <= a.end <= s@.len(),
            b.start <= b.end <= s@.len(),
            forall|k: int| 0 <= k < i ==> #[trigger] text(s@, a)[k] == text(s@, b)[k],
        decreases n - i,
    {
        assert(text(s@, a)[i as int] == s@[a.start + i]);
        assert(text(s@, b)[i as int] == s@[b.start + i]);
        if s[a.start + i] != s[b.start + i] {
            return false;
        }
        i = i + 1;
    }
    assert(text(s@, a) =~= text(s@, b));
    true
}

/// Whether the id of every device read so far lies within `s`.
pub open spec fn devices_in(s: Seq<char>, st: StateView) -> bool {
    forall|k: int|
        0 <= k < st.devices.len() ==> (#[trigger] st.devices[k]).id.start <= st.devices[k].id.end
            <= s.len()
}

/// Reads `DEVICE`.
pub fn read_device(s: &[char], p: usize, st: &mut SmvState) -> (r: Result<usize, SmvError>)
    requires
        p <= s@.len(),
        devices_in(s@, old(st)@),
    ensures
        state_res(r, final(st)@) == sp_device(s@, p as int, old(st)@),
        r is Err ==> final(st)@ == old(st)@,
        r matches Ok(q) ==> p <= q <= s@.len(),
        r is Ok ==> devices_in(s@, final(st)@),
{
    let ((id, quantity), q1) = read_device_head(s, p)?;
    let ((pos, ori, si, (zero, zt), bounds, prop), q2) = read_device_body(s, q1)?;
    if zero != 0 {
        return Err(SmvError::InvalidIntConstant { span: zt, expected: 0 });
    }
    let dev = Device {
        id,
        quantity,
        position: pos,
        orientation: ori,
        state_index: si,
        bounds,
        activations: Vec::new(),
        property_id: prop,
    };
    assert(dev@.activations =~= Seq::<DeviceActivation>::empty());
    let found = find_device_exec(s, &st.devices, id);
    let ghost old_devs = st.devices@;
    proof {
        lemma_find_device_range(s@, views(old_devs), text(s@, id));
    }
    assert(text(s@, dev@.id) == text(s@, id));
    let ghost dv = dev@;
    match found {
        Some(i) => {
            assert(find_device(s@, views(old_devs), text(s@, dv.id)) == Some(i as int));
            st.devices.set(i, dev);
            assert(views(st.devices@) =~= views(old_devs).update(i as int, dv));
        },
        None => {
            assert(find_device(s@, views(old_devs), text(s@, dv.id)) is None);
            st.devices.push(dev);
            assert(views(st.devices@) =~= views(old_devs).push(dv));
        },
    }
    assert(views(st.devices@) == insert_device(s@, views(old_devs), dv));
    assert(st@ == StateView { devices: insert_device(s@, views(old_devs), dv), ..old(st)@ });
    Ok(q2)
}

/// Reads a line holding an integer that must be 1.
pub fn read_one_line(s: &[char], p: usize) -> (r: Result<usize, SmvError>)
    requires
        p <= s@.len(),
    ensures
        match r {
            Ok(q) => sp_one_line(s@, p as int) == Ok::<int, SmvError>(q as int) && p <= q <= s@.len(),
            Err(e) => sp_one_line(s@, p as int) == Err::<int, SmvError>(e),
        },
{
    let ((v, t), q) = read_i32_line(s, p)?;
    if v != 1 {
        return Err(SmvError::InvalidIntConstant { span: t, expected: 1 });
    }
    Ok(q)
}

/// Reads a section whose word ends its line, for the words before `SURFACE`.
pub fn read_header_section(s: &[char], p: usize, w: Span, st: &mut SmvState) -> (r: Result<
    usize,
    SmvError,
>)
    requires
        p <= s@.len(),
        w.start <= w.end <= s@.len(),
        devices_in(s@, old(st)@),
    ensures
        state_res(r, final(st)@) == sp_header_section(s@, p as int, w, old(st)@),
        r is Err ==> final(st)@ == old(st)@,
        r matches Ok(q) ==> p <= q <= s@.len(),
        r is Ok ==> devices_in(s@, final(st)@),
{
    if text_is(s, w, "TITLE") {
        let (t, q) = read_text_line(s, p)?;
        st.title = Some(t);
        Ok(q)
    } else if text_is(s, w, "VERSION") || text_is(s, w, "FDSVERSION") {
        read_version(s, p, st)
    } else if text_is(s, w, "ENDF") {
        let (t, q) = read_text_line(s, p)?;
        st.end_file = Some(t);
        Ok(q)
    } else if text_is(s, w, "INPF") {
        let (t, q) = read_text_line(s, p)?;
        st.input_file = Some(t);
        Ok(q)
    } else if text_is(s, w, "REVISION") {
        let (t, q) = read_text_line(s, p)?;
        st.revision = Some(t);
        Ok(q)
    } else if text_is(s, w, "CHID") {
        let (t, q) = read_text_line(s, p)?;
        st.chid = Some(t);
        Ok(q)
    } else if text_is(s, w, "SOLID_HT3D") {
        let ((v, _), q) = read_i32_line(s, p)?;
        st.solid_ht3d = Some(v);
        Ok(q)
    } else if text_is(s, w, "CSVF") {
        let (name, q1) = read_text_line(s, p)?;
        let (file, q2) = read_text_line(s, q1)?;
        st.csv_files.push((name, file));
        Ok(q2)
    } else if text_is(s, w, "NMESHES") {
        let (n, q) = read_usize_line(s, p)?;
        st.num_meshes = Some(n);
        Ok(q)
    } else if text_is(s, w, "HRRPUVCUT") {
        read_hrrpuvcut(s, p, st)
    } else if text_is(s, w, "TIMES") {
        let (v, q) = read_floats_line(s, p, 2)?;
        st.time_range = Some(TimeRange { time_start: v[0], time_end: v[1] });
        Ok(q)
    } else if text_is(s, w, "VIEWTIMES") {
        read_viewtimes(s, p, st)
    } else if text_is(s, w, "ALBEDO") {
        let (f, q) = read_float_line(s, p)?;
        st.smoke_albedo = Some(f);
        Ok(q)
    } else if text_is(s, w, "IBLANK") {
        let (v, q) = read_u32_line(s, p)?;
        st.i_blank = Some(v == 1);
        Ok(q)
    } else if text_is(s, w, "GVEC") {
        let (v, q) = read_vec3f_line(s, p)?;
        st.gravity_vec = Some(v);
        Ok(q)
    } else if text_is(s, w, "SURFDEF") {
        let (t, q) = read_text_line(s, p)?;
        st.default_surface_id = Some(t);
        Ok(q)
    } else {
        read_header_rest(s, p, w, st)
    }
}

/// Reads a section whose word ends its line, for the words from `SURFACE` on.
#[verifier::rlimit(40)]
pub fn read_header_rest(s: &[char], p: usize, w: Span, st: &mut SmvState) -> (r: Result<
    usize,
    SmvError,
>)
    requires
        p <= s@.len(),
        w.start <= w.end <= s@.len(),
        devices_in(s@, old(st)@),
    ensures
        state_res(r, final(st)@) == sp_header_rest(s@, p as int, w, old(st)@),
        r is Err ==> final(st)@ == old(st)@,
        r matches Ok(q) ==> p <= q <= s@.len(),
        r is Ok ==> devices_in(s@, final(st)@),
{
    if text_is(s, w, "SURFACE") {
        read_surface(s, p, st)
    } else if text_is(s, w, "MATERIAL") {
        let (name, q1) = read_text_line(s, p)?;
        let (rgb, q2) = read_vec3f_line(s, q1)?;
        st.materials.push(Material { name, rgb });
        Ok(q2)
    } else if text_is(s, w, "OUTLINE") {
        let (v, q) = read_outlines(s, p)?;
        st.outlines = Some(v);
        Ok(q)
    } else if text_is(s, w, "TOFFSET") {
        let (v, q) = read_vec3f_line(s, p)?;
        st.default_texture_origin = Some(v);
        Ok(q)
    } else if text_is(s, w, "RAMP") {
        let (v, q) = read_ramps(s, p)?;
        st.ramps = Some(v);
        Ok(q)
    } else if text_is(s, w, "PROP") {
        read_prop(s, p, st)
    } else if text_is(s, w, "DEVICE") {
        read_device(s, p, st)
    } else if text_is(s, w, "OFFSET") {
        match st.default_texture_origin {
            None => Err(SmvError::MissingSection { name: SectionName::TOffset }),
            Some(dto) => {
                let (m, q) = read_mesh(s, p, dto)?;
                let ghost old_meshes = st.meshes@;
                let ghost mv = m@;
                st.meshes.push(m);
                assert(views(st.meshes@) =~= views(old_meshes).push(mv));
                Ok(q)
            },
        }
    } else if text_is(s, w, "XYZ") {
        let (t, q) = read_text_line(s, p)?;
        st.xyz_files.push(t);
        Ok(q)
    } else if text_is(s, w, "HoC") {
        let q1 = read_one_line(s, p)?;
        let (f, q) = read_float_line(s, q1)?;
        st.heat_of_combustion = Some(f);
        Ok(q)
    } else if text_is(s, w, "FUEL") {
        let q1 = read_one_line(s, p)?;
        let (t, q) = read_text_line(s, q1)?;
        st.reaction_fuel = Some(t);
        Ok(q)
    } else if text_is(s, w, "FACE") || text_is(s, w, "CADGEOM") || text_is(s, w, "VERT")
        || text_is(s, w, "CLASS_OF_PARTICLES") {
        read_skip(s, p, w, false, st)
    } else {
        read_skip(s, p, w, true, st)
    }
}

/// Reads the line of `SMOKF3D` or `SMOKG3D`.
pub fn read_smoke3d_line(s: &[char], p: usize) -> (r: Result<((i32, Option<Span>), usize), SmvError>)
    requires
        p <= s@.len(),
    ensures
        lifted(r) == sp_smoke3d_line(s@, p as int),
        advances(r, p as int, s@),
{
    let (mi, t) = read_i32(s, skip_space(s, skip_space(s, p)))?;
    let c = skip_space(s, t.end);
    let (mec, q) = match read_float(s, c) {
        Ok(f) => (Some(f), f.end),
        Err(_) => (None, c),
    };
    let e = read_eol(s, skip_space(s, q))?;
    Ok(((mi, mec), e))
}

/// Reads `SMOKF3D` or `SMOKG3D`.
pub fn read_smoke3d(s: &[char], p: usize, kind: Smoke3DType, st: &mut SmvState) -> (r: Result<
    usize,
    SmvError,
>)
    requires
        p <= s@.len(),
    ensures
        state_res(r, final(st)@) == sp_smoke3d(s@, p as int, kind, old(st)@),
        r is Err ==> final(st)@ == old(st)@,
        r matches Ok(q) ==> p <= q <= s@.len(),
{
    let ((mi, mec), q1) = read_smoke3d_line(s, p)?;
    let (file, q2) = read_text_line(s, q1)?;
    let (quantity, q3) = read_quantity(s, q2)?;
    st.smoke3d.push(
        Smoke3D {
            mesh_index: mi,
            file_name: file,
            quantity,
            smoke_type: kind,
            mass_extinction_coefficient: mec,
        },
    );
    Ok(q3)
}

/// Reads the optional end of a slice line.
pub fn read_slice_stuff(s: &[char], p: usize) -> (r: usize)
    requires
        p <= s@.len(),
    ensures
        r == sp_slice_stuff(s@, p as int),
        p <= r <= s@.len(),
{
    match read_tag(s, p, "!") {
        Ok(c) => match read_i32(s, skip_space(s, c)) {
            Ok((_, t)) => {
                let b = skip_space(s, t.end);
                let q = match read_i32(s, b) {
                    Ok((_, t2)) => t2.end,
                    Err(_) => b,
                };
                skip_space(s, q)
            },
            Err(_) => p,
        },
        Err(_) => p,
    }
}

/// Reads the line of `SLCF` or `SLCC`.
pub fn read_slice_line(s: &[char], p: usize) -> (r: Result<
    ((i32, Span, Option<Span>, Bounds3<i32>), usize),
    SmvError,
>)
    requires
        p <= s@.len(),
    ensures
        lifted(r) == sp_slice_line(s@, p as int),
        advances(r, p as int, s@),
{
    let (mi, t1) = read_i32(s, skip_space(s, skip_space(s, p)))?;
    let c2 = read_tag(s, skip_space(s, t1.end), "#")?;
    let ty = read_token(s, skip_space(s, c2))?;
    let b4 = skip_space(s, ty.end);
    let (id, c4) = match read_tag(s, b4, "%") {
        Ok(c) => {
            let e = find_char_from(s, c, '&');
            if e == c {
                (None, b4)
            } else {
                let (ia, ib) = trim_bounds(s, c, e);
                (Some(Span { start: ia, end: ib }), e)
            }
        },
        Err(_) => (None, b4),
    };
    let c5 = read_tag(s, skip_space(s, c4), "&")?;
    let (bi, c6) = read_bounds3i(s, skip_space(s, c5))?;
    let c7 = read_slice_stuff(s, skip_space(s, c6));
    let q = read_eol(s, skip_space(s, c7))?;
    Ok(((mi, ty, id, bi), q))
}

/// Reads `SLCF` or `SLCC`.
pub fn read_slice(s: &[char], p: usize, cell_centered: bool, st: &mut SmvState) -> (r: Result<
    usize,
    SmvError,
>)
    requires
        p <= s@.len(),
    ensures
        state_res(r, final(st)@) == sp_slice(s@, p as int, cell_centered, old(st)@),
        r is Err ==> final(st)@ == old(st)@,
        r matches Ok(q) ==> p <= q <= s@.len(),
{
    let ((mi, ty, id, bi), q1) = read_slice_line(s, p)?;
    let (file, q2) = read_text_line(s, q1)?;
    let (quantity, q3) = read_text_line(s, q2)?;
    let (name, q4) = read_text_line(s, q3)?;
    let (unit, q5) = read_text_line(s, q4)?;
    st.slices.push(
        Slice {
            mesh_index: mi,
            file_name: file,
            quantity,
            name,
            unit,
            cell_centered,
            slice_type: ty,
            bounds: bi,
            id,
        },
    );
    Ok(q5)
}

/// Reads the line of a device activation.
pub fn read_activation_line(s: &[char], p: usize) -> (r: Result<(DeviceActivation, usize), SmvError>)
    requires
        p <= s@.len(),
    ensures
        lifted(r) == sp_activation_line(s@, p as int),
        advances(r, p as int, s@),
{
    let (a, t1) = read_i32(s, skip_space(s, skip_space(s, p)))?;
    let b = read_float(s, skip_space(s, t1.end))?;
    let (c, t3) = read_i32(s, skip_space(s, b.end))?;
    let q = read_eol(s, skip_space(s, t3.end))?;
    Ok((DeviceActivation { a, b, c }, q))
}

/// Reads `DEVICE_ACT`.
pub fn read_device_act(s: &[char], p: usize, st: &mut SmvState) -> (r: Result<usize, SmvError>)
    requires
        p <= s@.len(),
        devices_in(s@, old(st)@),
    ensures
        state_res(r, final(st)@) == sp_device_act(s@, p as int, old(st)@),
        r is Err ==> final(st)@ == old(st)@,
        r matches Ok(q) ==> p <= q <= s@.len(),
        r is Ok ==> devices_in(s@, final(st)@),
{
    let (d, q1) = read_text_line(s, p)?;
    let found = find_device_exec(s, &st.devices, d);
    let i = match found {
        None => {
            return Err(SmvError::InvalidKey { key: d, key_type: KeyType::DeviceAct });
        },
        Some(i) => i,
    };
    let (act, q2) = read_activation_line(s, q1)?;
    let ghost old_devs = st.devices@;
    let ghost dv = views(old_devs)[i as int];
    let mut dev = st.devices.remove(i);
    assert(dev@ == dv);
    dev.activations.push(act);
    let ghost nv = dev@;
    assert(nv == DeviceView { activations: dv.activations.push(act), ..dv });
    st.devices.insert(i, dev);
    assert(st.devices@ =~= old_devs.remove(i as int).insert(i as int, dev));
    assert(views(st.devices@) =~= views(old_devs).update(i as int, nv));
    Ok(q2)
}

/// Reads `OPEN_VENT` or `CLOSE_VENT`.
pub fn read_vent_change(s: &[char], p: usize) -> (r: Result<usize, SmvError>)
    requires
        p <= s@.len(),
    ensures
        match r {
            Ok(q) => sp_vent_change(s@, p as int) == Ok::<int, SmvError>(q as int) && p <= q
                <= s@.len(),
            Err(e) => sp_vent_change(s@, p as int) == Err::<int, SmvError>(e),
        },
{
    let (_, q1) = read_i32_line(s, p)?;
    let (_, t) = read_i32(s, skip_space(s, skip_space(s, q1)))?;
    let f = read_float(s, skip_space(s, t.end))?;
    let q = read_eol(s, skip_space(s, f.end))?;
    Ok(q)
}

/// Reads `PL3D`.
pub fn read_plot3d(s: &[char], p: usize, st: &mut SmvState) -> (r: Result<usize, SmvError>)
    requires
        p <= s@.len(),
    ensures
        state_res(r, final(st)@) == sp_plot3d(s@, p as int, old(st)@),
        r is Err ==> final(st)@ == old(st)@,
        r matches Ok(q) ==> p <= q <= s@.len(),
{
    let time = read_float(s, skip_space(s, skip_space(s, p)))?;
    let (mi, t) = read_i32(s, skip_space(s, time.end))?;
    let q1 = read_eol(s, skip_space(s, t.end))?;
    let (file, q2) = read_text_line(s, q1)?;
    let (a, q3) = read_quantity(s, q2)?;
    let (b, q4) = read_quantity(s, q3)?;
    let (c, q5) = read_quantity(s, q4)?;
    let (d, q6) = read_quantity(s, q5)?;
    let (e, q7) = read_quantity(s, q6)?;
    st.plot3d.push(Plot3D { file_name: file, mesh_index: mi, quantities: (a, b, c, d, e) });
    Ok(q7)
}

/// Reads a section whose word is followed by more on its line.
pub fn read_inline_section(s: &[char], p: usize, w: Span, st: &mut SmvState) -> (r: Result<
    usize,
    SmvError,
>)
    requires
        p <= s@.len(),
        w.start <= w.end <= s@.len(),
        devices_in(s@, old(st)@),
    ensures
        state_res(r, final(st)@) == sp_inline_section(s@, p as int, w, old(st)@),
        r is Err ==> final(st)@ == old(st)@,
        r matches Ok(q) ==> p <= q <= s@.len(),
        r is Ok ==> devices_in(s@, final(st)@),
{
    if text_is(s, w, "SMOKF3D") {
        read_smoke3d(s, p, Smoke3DType::F, st)
    } else if text_is(s, w, "SMOKG3D") {
        read_smoke3d(s, p, Smoke3DType::G, st)
    } else if text_is(s, w, "SLCF") {
        read_slice(s, p, false, st)
    } else if text_is(s, w, "SLCC") {
        read_slice(s, p, true, st)
    } else if text_is(s, w, "DEVICE_ACT") {
        read_device_act(s, p, st)
    } else if text_is(s, w, "OPEN_VENT") || text_is(s, w, "CLOSE_VENT") {
        read_vent_change(s, p)
    } else if text_is(s, w, "PL3D") {
        read_plot3d(s, p, st)
    } else if text_is(s, w, "PRT5") || text_is(s, w, "ISOG") || text_is(s, w, "HIDE_OBST")
        || text_is(s, w, "SHOW_OBST") || text_is(s, w, "BNDF") {
        read_skip(s, p, w, false, st)
    } else {
        read_skip(s, p, w, true, st)
    }
}

/// Reads one section.
pub fn read_section(s: &[char], p: usize, st: &mut SmvState) -> (r: Result<usize, SmvError>)
    requires
        p <= s@.len(),
        devices_in(s@, old(st)@),
    ensures
        state_res(r, final(st)@) == sp_section(s@, p as int, old(st)@),
        r is Err ==> final(st)@ == old(st)@,
        r matches Ok(q) ==> p < q <= s@.len(),
        r is Ok ==> devices_in(s@, final(st)@),
{
    proof {
        reveal(sp_section);
    }
    let w = read_token(s, skip_sep(s, p))?;
    match read_line_ending(s, w.end) {
        Some(q) => read_header_section(s, q, w, st),
        None => read_inline_section(s, w.end, w, st),
    }
}

/// Reads sections from `p` to the end of the file, or up to an error.
pub fn read_run(s: &[char], st: &mut SmvState) -> (r: Option<SmvError>)
    requires
        devices_in(s@, old(st)@),
    ensures
        (final(st)@, r) == sp_run(s@, 0, old(st)@),
{
    let mut p: usize = 0;
    while p < s.len()
        invariant
            p <= s@.len(),
            devices_in(s@, st@),
            sp_run(s@, p as int, st@) == sp_run(s@, 0, old(st)@),
        decreases s@.len() - p,
    {
        let ghost before = st@;
        match read_section(s, p, st) {
            Ok(q) => {
                p = q;
            },
            Err(e) => {
                return Some(e);
            },
        }
    }
    None
}

/// The simulation that the sections read describe.
pub fn finish(st: SmvState) -> (r: Result<Smv, SmvError>)
    ensures
        match r {
            Ok(v) => sp_finish(st@) == Ok::<SmvView, SmvError>(v@),
            Err(e) => sp_finish(st@) == Err::<SmvView, SmvError>(e),
        },
{
    let num_meshes = match st.num_meshes {
        None => {
            return Err(SmvError::MissingSection { name: SectionName::NMeshes });
        },
        Some(n) => n,
    };
    if st.meshes.len() != num_meshes {
        return Err(SmvError::WrongNumberOfMeshes { expected: num_meshes, found: st.meshes.len() });
    }
    let title = match st.title {
        None => {
            return Err(SmvError::MissingSection { name: SectionName::Title });
        },
        Some(t) => t,
    };
    let fds_version = match st.fds_version {
        None => {
            return Err(SmvError::MissingSection { name: SectionName::FdsVersion });
        },
        Some(t) => t,
    };
    let end_version = match st.end_file {
        None => {
            return Err(SmvError::MissingSection { name: SectionName::Endf });
        },
        Some(t) => t,
    };
    let input_file = match st.input_file {
        None => {
            return Err(SmvError::MissingSection { name: SectionName::Inpf });
        },
        Some(t) => t,
    };
    let revision = match st.revision {
        None => {
            return Err(SmvError::MissingSection { name: SectionName::Revision });
        },
        Some(t) => t,
    };
    let chid = match st.chid {
        None => {
            return Err(SmvError::MissingSection { name: SectionName::Chid });
        },
        Some(t) => t,
    };
    let hrrpuv_cutoff = match st.hrrpuv_cutoff {
        None => {
            return Err(SmvError::MissingSection { name: SectionName::HrrpuvCut });
        },
        Some(t) => t,
    };
    let viewtimes = match st.viewtimes {
        None => {
            return Err(SmvError::MissingSection { name: SectionName::ViewTimes });
        },
        Some(t) => t,
    };
    let smoke_albedo = match st.smoke_albedo {
        None => {
            return Err(SmvError::MissingSection { name: SectionName::Albedo });
        },
        Some(t) => t,
    };
    let i_blank = match st.i_blank {
        None => {
            return Err(SmvError::MissingSection { name: SectionName::IBlank });
        },
        Some(t) => t,
    };
    let gravity_vec = match st.gravity_vec {
        None => {
            return Err(SmvError::MissingSection { name: SectionName::GVec });
        },
        Some(t) => t,
    };
    let ramps = match st.ramps {
        None => {
            return Err(SmvError::MissingSection { name: SectionName::Ramp });
        },
        Some(t) => t,
    };
    let outlines = match st.outlines {
        None => {
            return Err(SmvError::MissingSection { name: SectionName::Outline });
        },
        Some(t) => t,
    };
    let default_surface_id = match st.default_surface_id {
        None => {
            return Err(SmvError::MissingSection { name: SectionName::SurfDef });
        },
        Some(t) => t,
    };
    Ok(
        Smv {
            title,
            fds_version,
            end_version,
            input_file,
            revision,
            chid,
            solid_ht3d: st.solid_ht3d,
            meshes: st.meshes,
            devices: st.devices,
            hrrpuv_cutoff,
            smoke_albedo,
            i_blank,
            gravity_vec,
            surfaces: st.surfaces,
            ramps,
            outlines,
            default_surface_id,
            viewtimes,
            xyz_files: st.xyz_files,
            time_range: st.time_range,
            heat_of_combustion: st.heat_of_combustion,
            reaction_fuel: st.reaction_fuel,
            materials: st.materials,
            smoke3d: st.smoke3d,
            slices: st.slices,
            plot3d: st.plot3d,
            properties: st.properties,
            csv_files: st.csv_files,
        },
    )
}

/// The warnings for the sections skipped as unknown.
pub open spec fn warnings_of(w: Seq<Span>) -> Seq<SmvError> {
    w.map_values(|x: Span| SmvError::UnknownSection { section: x })
}

impl Smv {
    /// Reads a `.smv` file. Besides the simulation or the error that stopped reading, gives a
    /// warning for each section that was skipped as unknown before that.
    pub fn parse_with_warn(file: &str) -> (r: (Result<Smv, SmvError>, Vec<SmvError>))
        ensures
            match r.0 {
                Ok(v) => smv_parse(file@).0 == Ok::<SmvView, SmvError>(v@),
                Err(e) => smv_parse(file@).0 == Err::<SmvView, SmvError>(e),
            },
            r.1@ == warnings_of(smv_parse(file@).1),
    {
        let chars = chars_of(file);
        let s = chars.as_slice();
        let mut st = SmvState::new();
        let err = read_run(s, &mut st);
        let mut warnings: Vec<SmvError> = Vec::new();
        let mut i: usize = 0;
        while i < st.warnings.len()
            invariant
                i <= st.warnings@.len(),
                warnings@ == warnings_of(st.warnings@.subrange(0, i as int)),
            decreases st.warnings@.len() - i,
        {
            warnings.push(SmvError::UnknownSection { section: st.warnings[i] });
            i = i + 1;
            assert(warnings@ =~= warnings_of(st.warnings@.subrange(0, i as int)));
        }
        assert(st.warnings@.subrange(0, i as int) =~= st.warnings@);
        let res = match err {
            Some(e) => Err(locate(s, e)),
            None => finish(st),
        };
        (res, warnings)
    }

    /// Reads a `.smv` file.
    pub fn parse(file: &str) -> (r: Result<Smv, SmvError>)
        ensures
            match r {
                Ok(v) => smv_parse(file@).0 == Ok::<SmvView, SmvError>(v@),
                Err(e) => smv_parse(file@).0 == Err::<SmvView, SmvError>(e),
            },
    {
        Self::parse_with_warn(file).0
    }
}

} // verus!
