//! The sections of a `.smv` file. A section starts with an upper-case word at the start of a
//! line. Where the word ends its line, the section's values follow on the next lines; where
//! more follows on the same line, that rest belongs to the section too. Sections that are not
//! understood are skipped up to the next line that is all upper-case letters, and reported
//! as warnings, but for a few that are skipped quietly.
use vstd::prelude::*;


use crate::formats::smv::err::{KeyType, SectionName, SmvError};
use crate::formats::smv::lex::{
    in_line, line_ending, repeat_spec, sp_float, sp_full_line, sp_i32, sp_tag, sp_token, sp_u32,
    space_end, sep_end, syn, text, located, trimmed, eol_pos, Span,
};
use crate::formats::smv::mesh::{sp_mesh, sp_text_line, sp_usize_line, text_line_step};
use crate::formats::smv::model::{
    empty_state, SmvView, DeviceActivation, DeviceView, Material, Plot3D, PropertyView, Quantity,
    Ramp, RampValue, RampView, Slice, Smoke3D, Smoke3DType, StateView, Surface, TimeRange,
    ViewTimes,
};
use crate::formats::smv::zero::rounds_to_zero;
use crate::formats::smv::values::{sp_bounds3f, sp_bounds3i, sp_floats, sp_vec3f};
use crate::geom::{Bounds3, Vec3};

verus! {

/// A line holding an `i32` number, with the number's span.
pub open spec fn sp_i32_line(s: Seq<char>, p: int) -> Result<((i32, Span), int), SmvError> {
    in_line(
        s,
        match sp_i32(s, space_end(s, p)) {
            Ok((v, t)) => Ok(((v, t), t.end as int)),
            Err(e) => Err(e),
        },
    )
}

/// A line holding a `u32` number.
pub open spec fn sp_u32_line(s: Seq<char>, p: int) -> Result<(u32, int), SmvError> {
    in_line(
        s,
        match sp_u32(s, space_end(s, p)) {
            Ok((v, t)) => Ok((v, t.end as int)),
            Err(e) => Err(e),
        },
    )
}

/// A line holding a number.
pub open spec fn sp_float_line(s: Seq<char>, p: int) -> Result<(Span, int), SmvError> {
    in_line(
        s,
        match sp_float(s, space_end(s, p)) {
            Ok(f) => Ok((f, f.end as int)),
            Err(e) => Err(e),
        },
    )
}

/// A line holding `n` numbers separated by blanks.
pub open spec fn sp_floats_line(s: Seq<char>, p: int, n: nat) -> Result<(Seq<Span>, int), SmvError> {
    in_line(
        s,
        match sp_floats(s, space_end(s, p), n) {
            Ok((v, q)) => Ok((v, space_end(s, q))),
            Err(e) => Err(e),
        },
    )
}

/// A line holding a vector of three numbers.
pub open spec fn sp_vec3f_line(s: Seq<char>, p: int) -> Result<(Vec3<Span>, int), SmvError> {
    in_line(s, sp_vec3f(s, space_end(s, p)))
}

/// A line holding a box of six numbers.
pub open spec fn sp_bounds3f_line(s: Seq<char>, p: int) -> Result<(Bounds3<Span>, int), SmvError> {
    in_line(s, sp_bounds3f(s, space_end(s, p)))
}

/// Reading boxes, one per line.
pub open spec fn bounds_step(s: Seq<char>) -> spec_fn(Seq<Bounds3<Span>>, int) -> Result<
    (Bounds3<Span>, int),
    SmvError,
> {
    |acc: Seq<Bounds3<Span>>, q: int| sp_bounds3f_line(s, q)
}

/// A number of lines, then that many boxes, one per line.
pub open spec fn sp_outlines(s: Seq<char>, p: int) -> Result<(Seq<Bounds3<Span>>, int), SmvError> {
    match sp_usize_line(s, p) {
        Ok((n, q)) => repeat_spec(bounds_step(s), q, n as nat),
        Err(e) => Err(e),
    }
}

/// A number of lines, then that many lines of text.
pub open spec fn sp_text_lines(s: Seq<char>, p: int) -> Result<(Seq<Span>, int), SmvError> {
    match sp_usize_line(s, p) {
        Ok((n, q)) => repeat_spec(text_line_step(s), q, n as nat),
        Err(e) => Err(e),
    }
}

/// A point of a ramp: two numbers on a line.
pub open spec fn sp_ramp_value(s: Seq<char>, p: int) -> Result<(RampValue, int), SmvError> {
    match sp_floats_line(s, p, 2) {
        Ok((v, q)) => Ok((RampValue { independent: v[0], dependent: v[1] }, q)),
        Err(e) => Err(e),
    }
}

/// Reading the points of a ramp.
pub open spec fn ramp_value_step(s: Seq<char>) -> spec_fn(Seq<RampValue>, int) -> Result<
    (RampValue, int),
    SmvError,
> {
    |acc: Seq<RampValue>, q: int| sp_ramp_value(s, q)
}

/// A ramp: `RAMP:` and its name on a line, then the number of its points and the points.
pub open spec fn sp_ramp(s: Seq<char>, p: int) -> Result<(RampView, int), SmvError> {
    match sp_tag(s, space_end(s, p), "RAMP:"@) {
        Ok(c) => match in_line(s, sp_full_line(s, c)) {
            Ok((name, q)) => match sp_usize_line(s, q) {
                Ok((n, q2)) => match repeat_spec(ramp_value_step(s), q2, n as nat) {
                    Ok((values, q3)) => Ok((RampView { name, values }, q3)),
                    Err(e) => Err(e),
                },
                Err(e) => Err(e),
            },
            Err(e) => Err(e),
        },
        Err(e) => Err(e),
    }
}

/// Reading ramps.
pub open spec fn ramp_step(s: Seq<char>) -> spec_fn(Seq<RampView>, int) -> Result<(RampView, int), SmvError> {
    |acc: Seq<RampView>, q: int| sp_ramp(s, q)
}

/// The number of ramps, then the ramps.
pub open spec fn sp_ramps(s: Seq<char>, p: int) -> Result<(Seq<RampView>, int), SmvError> {
    match sp_usize_line(s, p) {
        Ok((n, q)) => repeat_spec(ramp_step(s), q, n as nat),
        Err(e) => Err(e),
    }
}

/// A quantity: three lines of text.
pub open spec fn sp_quantity(s: Seq<char>, p: int) -> Result<(Quantity, int), SmvError> {
    match sp_text_line(s, p) {
        Ok((label, q1)) => match sp_text_line(s, q1) {
            Ok((bar_label, q2)) => match sp_text_line(s, q2) {
                Ok((unit, q3)) => Ok((Quantity { label, bar_label, unit }, q3)),
                Err(e) => Err(e),
            },
            Err(e) => Err(e),
        },
        Err(e) => Err(e),
    }
}

/// Whether the number `t` reads as zero in `f32`: its value is at most 2^-150, which rounds to
/// zero (`rounds_to_zero`).
pub open spec fn is_zero_lexeme(t: Seq<char>) -> bool {
    rounds_to_zero(t)
}

/// The number of characters of `t` before its first `e` or `E`.
pub open spec fn mantissa_len(t: Seq<char>) -> int
    decreases t.len(),
{
    if t.len() == 0 {
        0
    } else if mantissa_len(t.drop_last()) < t.len() - 1 {
        mantissa_len(t.drop_last())
    } else if t.last() == 'e' || t.last() == 'E' {
        t.len() - 1
    } else {
        t.len() as int
    }
}

/// The position of the first `c` from `p`, or the end of `s`.
pub open spec fn char_pos(s: Seq<char>, p: int, c: char) -> int
    decreases s.len() - p,
{
    if 0 <= p < s.len() && s[p] != c {
        char_pos(s, p + 1, c)
    } else {
        p
    }
}

/// Whether every character of `t` is an ASCII upper-case letter.
pub open spec fn all_upper(t: Seq<char>) -> bool {
    forall|k: int| 0 <= k < t.len() ==> 'A' <= #[trigger] t[k] <= 'Z'
}

/// Skipping lines from `p` up to the first that is all upper-case letters (an empty line
/// counts), or up to a last line that has no line ending.
pub open spec fn skip_to_section(s: Seq<char>, p: int) -> int
    decreases s.len() - p,
{
    let e = eol_pos(s, p);
    if 0 <= p <= e && e < s.len() && s[e] == '\r' && !(e + 1 < s.len() && s[e + 1] == '\n') {
        p
    } else {
        match line_ending(s, e) {
            None => p,
            Some(q) => if all_upper(s.subrange(p, e)) || !(p < q) {
                p
            } else {
                skip_to_section(s, q)
            },
        }
    }
}

/// Skipping the section `w`: the rest of its line, then lines up to the next section. An
/// unknown section is recorded as a warning where `warn` holds.
pub open spec fn sp_skip(s: Seq<char>, p: int, w: Span, warn: bool, st: StateView) -> Result<
    (StateView, int),
    SmvError,
> {
    match sp_text_line(s, p) {
        Err(_) => Err(SmvError::UnexpectedEndOfInput { span: w }),
        Ok((_, q)) => Ok(
            (
                if warn {
                    StateView { warnings: st.warnings.push(w), ..st }
                } else {
                    st
                },
                skip_to_section(s, q),
            ),
        ),
    }
}

/// The second line of a version: kept where it is not blank, read where it ends with a line
/// ending.
pub open spec fn version_second(s: Seq<char>, q1: int) -> (Option<Span>, int) {
    match sp_full_line(s, q1) {
        Ok((l, e2)) => match line_ending(s, e2) {
            Some(q) => (
                if l.start < l.end {
                    Some(l)
                } else {
                    None
                },
                q,
            ),
            None => (None, q1),
        },
        Err(_) => (None, q1),
    }
}

/// `VERSION` or `FDSVERSION`: a line, and a second one where the next line is not blank.
pub open spec fn sp_version(s: Seq<char>, p: int, st: StateView) -> Result<(StateView, int), SmvError> {
    match sp_full_line(s, p) {
        Ok((v, e)) => match line_ending(s, e) {
            Some(q1) => {
                let (second, q2) = version_second(s, q1);
                Ok((StateView { fds_version: Some((v, second)), ..st }, q2))
            },
            None => Err(syn(e)),
        },
        Err(e) => Err(e),
    }
}

/// `HRRPUVCUT`: a line reading `1`, then the cut-off.
pub open spec fn sp_hrrpuvcut(s: Seq<char>, p: int, st: StateView) -> Result<(StateView, int), SmvError> {
    match in_line(s, match sp_tag(s, space_end(s, p), "1"@) {
        Ok(c) => Ok(((), c)),
        Err(e) => Err(e),
    }) {
        Ok((_, q)) => match sp_float_line(s, q) {
            Ok((f, q2)) => Ok((StateView { hrrpuv_cutoff: Some(f), ..st }, q2)),
            Err(e) => Err(e),
        },
        Err(e) => Err(e),
    }
}

/// The line of `VIEWTIMES`: a start that must be zero, an end and a number of frames.
pub open spec fn sp_viewtimes_line(s: Seq<char>, p: int) -> Result<((Span, Span, i32), int), SmvError> {
    match sp_floats(s, space_end(s, p), 2) {
        Ok((v, q)) => match sp_i32(s, space_end(s, q)) {
            Ok((n, t)) => in_line(s, Ok(((v[0], v[1], n), space_end(s, t.end as int)))),
            Err(e) => Err(e),
        },
        Err(e) => Err(e),
    }
}

/// `VIEWTIMES`.
pub open spec fn sp_viewtimes(s: Seq<char>, p: int, st: StateView) -> Result<(StateView, int), SmvError> {
    match sp_viewtimes_line(s, p) {
        Ok(((start, end, n), q)) => if !is_zero_lexeme(text(s, start)) {
            Err(SmvError::InvalidFloatConstant { span: start })
        } else {
            Ok((StateView { viewtimes: Some(ViewTimes { time_end: end, num_frames: n }), ..st }, q))
        },
        Err(e) => Err(e),
    }
}

/// The third line of `SURFACE`: type, texture size, colour and transparency.
pub open spec fn sp_surface_line(s: Seq<char>, p: int) -> Result<
    ((i32, Span, Span, Vec3<Span>, Span), int),
    SmvError,
> {
    match sp_i32(s, space_end(s, p)) {
        Ok((ty, t)) => match sp_floats(s, t.end as int, 2) {
            Ok((wh, q1)) => match sp_vec3f(s, space_end(s, q1)) {
                Ok((rgb, q2)) => match sp_float(s, space_end(s, q2)) {
                    Ok(tr) => in_line(s, Ok(((ty, wh[0], wh[1], rgb, tr), space_end(s, tr.end as int)))),
                    Err(e) => Err(e),
                },
                Err(e) => Err(e),
            },
            Err(e) => Err(e),
        },
        Err(e) => Err(e),
    }
}

/// `SURFACE`: its name, two numbers, its type line, then `null` or the name of a texture,
/// leaving that line's end.
pub open spec fn sp_surface(s: Seq<char>, p: int, st: StateView) -> Result<(StateView, int), SmvError> {
    match sp_text_line(s, p) {
        Ok((name, q1)) => match sp_floats_line(s, q1, 2) {
            Ok((tm, q2)) => match sp_surface_line(s, q2) {
                Ok(((ty, tw, th, rgb, tr), q3)) => {
                    let tex = match sp_tag(s, q3, "null"@) {
                        Ok(q) => Ok((None::<Span>, q)),
                        Err(_) => match sp_full_line(s, q3) {
                            Ok((t, q)) => Ok((Some(t), q)),
                            Err(e) => Err(e),
                        },
                    };
                    match tex {
                        Ok((texture, q4)) => Ok(
                            (
                                StateView {
                                    surfaces: st.surfaces.push(
                                        Surface {
                                            id: name,
                                            water_melting_temp: tm[0],
                                            material_emissivity: tm[1],
                                            surface_type: ty,
                                            texture_width: tw,
                                            texture_height: th,
                                            rgb,
                                            transparency: tr,
                                            texture,
                                        },
                                    ),
                                    ..st
                                },
                                q4,
                            ),
                        ),
                        Err(e) => Err(e),
                    }
                },
                Err(e) => Err(e),
            },
            Err(e) => Err(e),
        },
        Err(e) => Err(e),
    }
}

/// `PROP`: its name, then its Smokeview ids and properties, each a counted list of lines.
pub open spec fn sp_prop(s: Seq<char>, p: int, st: StateView) -> Result<(StateView, int), SmvError> {
    match sp_text_line(s, p) {
        Ok((name, q1)) => match sp_text_lines(s, q1) {
            Ok((ids, q2)) => match sp_text_lines(s, q2) {
                Ok((props, q3)) => Ok(
                    (
                        StateView {
                            properties: st.properties.push(
                                PropertyView { name, smv_ids: ids, smv_props: props },
                            ),
                            ..st
                        },
                        q3,
                    ),
                ),
                Err(e) => Err(e),
            },
            Err(e) => Err(e),
        },
        Err(e) => Err(e),
    }
}

/// The first line of `DEVICE`: the id up to `%`, trimmed, then the quantity.
pub open spec fn sp_device_head(s: Seq<char>, p: int) -> Result<((Span, Span), int), SmvError> {
    let a = space_end(s, p);
    let e1 = char_pos(s, a, '%');
    match sp_tag(s, e1, "%"@) {
        Ok(c) => in_line(
            s,
            match sp_full_line(s, c) {
                Ok((quantity, e2)) => Ok(((trimmed(s, a, e1), quantity), e2)),
                Err(e) => Err(e),
            },
        ),
        Err(e) => Err(e),
    }
}

/// The second line of `DEVICE`: position, orientation, state index, a zero, optional bounds
/// after `#`, then `%` and the property id.
pub open spec fn sp_device_body(s: Seq<char>, p: int) -> Result<
    ((Vec3<Span>, Vec3<Span>, i32, (i32, Span), Option<Bounds3<Span>>, Span), int),
    SmvError,
> {
    let a0 = space_end(s, p);
    match sp_vec3f(s, space_end(s, a0)) {
        Ok((pos, c1)) => match sp_vec3f(s, space_end(s, c1)) {
            Ok((ori, c2)) => match sp_i32(s, space_end(s, c2)) {
                Ok((si, t3)) => match sp_i32(s, space_end(s, t3.end as int)) {
                    Ok((zero, zt)) => {
                        let b5 = space_end(s, zt.end as int);
                        let (bounds, c5) = match sp_tag(s, b5, "#"@) {
                            Ok(c) => match sp_bounds3f(s, c) {
                                Ok((b, q)) => (Some(b), q),
                                Err(_) => (None, b5),
                            },
                            Err(_) => (None, b5),
                        };
                        match sp_tag(s, space_end(s, space_end(s, c5)), "%"@) {
                            Ok(c6) => match sp_full_line(s, c6) {
                                Ok((prop, e6)) => in_line(
                                    s,
                                    Ok(((pos, ori, si, (zero, zt), bounds, prop), space_end(s, e6))),
                                ),
                                Err(e) => Err(e),
                            },
                            Err(e) => Err(e),
                        }
                    },
                    Err(e) => Err(e),
                },
                Err(e) => Err(e),
            },
            Err(e) => Err(e),
        },
        Err(e) => Err(e),
    }
}

/// The first device whose id reads `name`.
pub open spec fn find_device(s: Seq<char>, devs: Seq<DeviceView>, name: Seq<char>) -> Option<int>
    decreases devs.len(),
{
    if devs.len() == 0 {
        None
    } else {
        match find_device(s, devs.drop_last(), name) {
            Some(i) => Some(i),
            None => if text(s, devs.last().id) == name {
                Some(devs.len() - 1)
            } else {
                None
            },
        }
    }
}

/// `devs` with `d` in place of the device of the same id, or added where there is none.
pub open spec fn insert_device(s: Seq<char>, devs: Seq<DeviceView>, d: DeviceView) -> Seq<DeviceView> {
    match find_device(s, devs, text(s, d.id)) {
        Some(i) => devs.update(i, d),
        None => devs.push(d),
    }
}

/// `DEVICE`.
pub open spec fn sp_device(s: Seq<char>, p: int, st: StateView) -> Result<(StateView, int), SmvError> {
    match sp_device_head(s, p) {
        Ok(((id, quantity), q1)) => match sp_device_body(s, q1) {
            Ok(((pos, ori, si, (zero, zt), bounds, prop), q2)) => if zero != 0 {
                Err(SmvError::InvalidIntConstant { span: zt, expected: 0 })
            } else {
                Ok(
                    (
                        StateView {
                            devices: insert_device(
                                s,
                                st.devices,
                                DeviceView {
                                    id,
                                    quantity,
                                    position: pos,
                                    orientation: ori,
                                    state_index: si,
                                    bounds,
                                    activations: Seq::empty(),
                                    property_id: prop,
                                },
                            ),
                            ..st
                        },
                        q2,
                    ),
                )
            },
            Err(e) => Err(e),
        },
        Err(e) => Err(e),
    }
}

/// A line holding an integer that must be 1.
pub open spec fn sp_one_line(s: Seq<char>, p: int) -> Result<int, SmvError> {
    match sp_i32_line(s, p) {
        Ok(((v, t), q)) => if v != 1 {
            Err(SmvError::InvalidIntConstant { span: t, expected: 1 })
        } else {
            Ok(q)
        },
        Err(e) => Err(e),
    }
}

/// A section whose word ends its line; `p` is after the line ending.
pub open spec fn sp_header_section(s: Seq<char>, p: int, w: Span, st: StateView) -> Result<
    (StateView, int),
    SmvError,
> {
    let word = text(s, w);
    if word == "TITLE"@ {
        match sp_text_line(s, p) {
            Ok((t, q)) => Ok((StateView { title: Some(t), ..st }, q)),
            Err(e) => Err(e),
        }
    } else if word == "VERSION"@ || word == "FDSVERSION"@ {
        sp_version(s, p, st)
    } else if word == "ENDF"@ {
        match sp_text_line(s, p) {
            Ok((t, q)) => Ok((StateView { end_file: Some(t), ..st }, q)),
            Err(e) => Err(e),
        }
    } else if word == "INPF"@ {
        match sp_text_line(s, p) {
            Ok((t, q)) => Ok((StateView { input_file: Some(t), ..st }, q)),
            Err(e) => Err(e),
        }
    } else if word == "REVISION"@ {
        match sp_text_line(s, p) {
            Ok((t, q)) => Ok((StateView { revision: Some(t), ..st }, q)),
            Err(e) => Err(e),
        }
    } else if word == "CHID"@ {
        match sp_text_line(s, p) {
            Ok((t, q)) => Ok((StateView { chid: Some(t), ..st }, q)),
            Err(e) => Err(e),
        }
    } else if word == "SOLID_HT3D"@ {
        match sp_i32_line(s, p) {
            Ok(((v, _), q)) => Ok((StateView { solid_ht3d: Some(v), ..st }, q)),
            Err(e) => Err(e),
        }
    } else if word == "CSVF"@ {
        match sp_text_line(s, p) {
            Ok((name, q1)) => match sp_text_line(s, q1) {
                Ok((file, q2)) => Ok((StateView { csv_files: st.csv_files.push((name, file)), ..st }, q2)),
                Err(e) => Err(e),
            },
            Err(e) => Err(e),
        }
    } else if word == "NMESHES"@ {
        match sp_usize_line(s, p) {
            Ok((n, q)) => Ok((StateView { num_meshes: Some(n), ..st }, q)),
            Err(e) => Err(e),
        }
    } else if word == "HRRPUVCUT"@ {
        sp_hrrpuvcut(s, p, st)
    } else if word == "TIMES"@ {
        match sp_floats_line(s, p, 2) {
            Ok((v, q)) => Ok(
                (StateView { time_range: Some(TimeRange { time_start: v[0], time_end: v[1] }), ..st }, q),
            ),
            Err(e) => Err(e),
        }
    } else if word == "VIEWTIMES"@ {
        sp_viewtimes(s, p, st)
    } else if word == "ALBEDO"@ {
        match sp_float_line(s, p) {
            Ok((f, q)) => Ok((StateView { smoke_albedo: Some(f), ..st }, q)),
            Err(e) => Err(e),
        }
    } else if word == "IBLANK"@ {
        match sp_u32_line(s, p) {
            Ok((v, q)) => Ok((StateView { i_blank: Some(v == 1), ..st }, q)),
            Err(e) => Err(e),
        }
    } else if word == "GVEC"@ {
        match sp_vec3f_line(s, p) {
            Ok((v, q)) => Ok((StateView { gravity_vec: Some(v), ..st }, q)),
            Err(e) => Err(e),
        }
    } else if word == "SURFDEF"@ {
        match sp_text_line(s, p) {
            Ok((t, q)) => Ok((StateView { default_surface_id: Some(t), ..st }, q)),
            Err(e) => Err(e),
        }
    } else {
        sp_header_rest(s, p, w, st)
    }
}

/// A section whose word ends its line, for the words from `SURFACE` on.
pub open spec fn sp_header_rest(s: Seq<char>, p: int, w: Span, st: StateView) -> Result<
    (StateView, int),
    SmvError,
> {
    let word = text(s, w);
    if word == "SURFACE"@ {
        sp_surface(s, p, st)
    } else if word == "MATERIAL"@ {
        match sp_text_line(s, p) {
            Ok((name, q1)) => match sp_vec3f_line(s, q1) {
                Ok((rgb, q2)) => Ok(
                    (StateView { materials: st.materials.push(Material { name, rgb }), ..st }, q2),
                ),
                Err(e) => Err(e),
            },
            Err(e) => Err(e),
        }
    } else if word == "OUTLINE"@ {
        match sp_outlines(s, p) {
            Ok((v, q)) => Ok((StateView { outlines: Some(v), ..st }, q)),
            Err(e) => Err(e),
        }
    } else if word == "TOFFSET"@ {
        match sp_vec3f_line(s, p) {
            Ok((v, q)) => Ok((StateView { default_texture_origin: Some(v), ..st }, q)),
            Err(e) => Err(e),
        }
    } else if word == "RAMP"@ {
        match sp_ramps(s, p) {
            Ok((v, q)) => Ok((StateView { ramps: Some(v), ..st }, q)),
            Err(e) => Err(e),
        }
    } else if word == "PROP"@ {
        sp_prop(s, p, st)
    } else if word == "DEVICE"@ {
        sp_device(s, p, st)
    } else if word == "OFFSET"@ {
        match st.default_texture_origin {
            None => Err(SmvError::MissingSection { name: SectionName::TOffset }),
            Some(dto) => match sp_mesh(s, p, dto) {
                Ok((m, q)) => Ok((StateView { meshes: st.meshes.push(m), ..st }, q)),
                Err(e) => Err(e),
            },
        }
    } else if word == "XYZ"@ {
        match sp_text_line(s, p) {
            Ok((t, q)) => Ok((StateView { xyz_files: st.xyz_files.push(t), ..st }, q)),
            Err(e) => Err(e),
        }
    } else if word == "HoC"@ {
        match sp_one_line(s, p) {
            Ok(q1) => match sp_float_line(s, q1) {
                Ok((f, q)) => Ok((StateView { heat_of_combustion: Some(f), ..st }, q)),
                Err(e) => Err(e),
            },
            Err(e) => Err(e),
        }
    } else if word == "FUEL"@ {
        match sp_one_line(s, p) {
            Ok(q1) => match sp_text_line(s, q1) {
                Ok((t, q)) => Ok((StateView { reaction_fuel: Some(t), ..st }, q)),
                Err(e) => Err(e),
            },
            Err(e) => Err(e),
        }
    } else if word == "FACE"@ || word == "CADGEOM"@ || word == "VERT"@ || word
        == "CLASS_OF_PARTICLES"@ {
        sp_skip(s, p, w, false, st)
    } else {
        sp_skip(s, p, w, true, st)
    }
}

/// The line of `SMOKF3D` or `SMOKG3D`: a mesh index and an optional mass extinction
/// coefficient.
pub open spec fn sp_smoke3d_line(s: Seq<char>, p: int) -> Result<((i32, Option<Span>), int), SmvError> {
    match sp_i32(s, space_end(s, space_end(s, p))) {
        Ok((mi, t)) => {
            let c = space_end(s, t.end as int);
            let (mec, q) = match sp_float(s, c) {
                Ok(f) => (Some(f), f.end as int),
                Err(_) => (None, c),
            };
            in_line(s, Ok(((mi, mec), space_end(s, q))))
        },
        Err(e) => Err(e),
    }
}

/// `SMOKF3D` or `SMOKG3D`: the rest of the line, the file name and the quantity.
pub open spec fn sp_smoke3d(s: Seq<char>, p: int, kind: Smoke3DType, st: StateView) -> Result<
    (StateView, int),
    SmvError,
> {
    match sp_smoke3d_line(s, p) {
        Ok(((mi, mec), q1)) => match sp_text_line(s, q1) {
            Ok((file, q2)) => match sp_quantity(s, q2) {
                Ok((quantity, q3)) => Ok(
                    (
                        StateView {
                            smoke3d: st.smoke3d.push(
                                Smoke3D {
                                    mesh_index: mi,
                                    file_name: file,
                                    quantity,
                                    smoke_type: kind,
                                    mass_extinction_coefficient: mec,
                                },
                            ),
                            ..st
                        },
                        q3,
                    ),
                ),
                Err(e) => Err(e),
            },
            Err(e) => Err(e),
        },
        Err(e) => Err(e),
    }
}

/// The optional `! index [index]` at the end of a slice line.
pub open spec fn sp_slice_stuff(s: Seq<char>, p: int) -> int {
    match sp_tag(s, p, "!"@) {
        Ok(c) => match sp_i32(s, space_end(s, c)) {
            Ok((_, t)) => {
                let b = space_end(s, t.end as int);
                let q = match sp_i32(s, b) {
                    Ok((_, t2)) => t2.end as int,
                    Err(_) => b,
                };
                space_end(s, q)
            },
            Err(_) => p,
        },
        Err(_) => p,
    }
}

/// The line of `SLCF` or `SLCC`: mesh index, `#`, the slice type, an optional id after `%`
/// up to `&`, then `&` and the cell box.
pub open spec fn sp_slice_line(s: Seq<char>, p: int) -> Result<
    ((i32, Span, Option<Span>, Bounds3<i32>), int),
    SmvError,
> {
    match sp_i32(s, space_end(s, space_end(s, p))) {
        Ok((mi, t1)) => match sp_tag(s, space_end(s, t1.end as int), "#"@) {
            Ok(c2) => match sp_token(s, space_end(s, c2)) {
                Ok(ty) => {
                    let b4 = space_end(s, ty.end as int);
                    let (id, c4) = match sp_tag(s, b4, "%"@) {
                        Ok(c) => {
                            let e = char_pos(s, c, '&');
                            if e == c {
                                (None, b4)
                            } else {
                                (Some(trimmed(s, c, e)), e)
                            }
                        },
                        Err(_) => (None, b4),
                    };
                    match sp_tag(s, space_end(s, c4), "&"@) {
                        Ok(c5) => match sp_bounds3i(s, space_end(s, c5)) {
                            Ok((bi, c6)) => {
                                let c7 = sp_slice_stuff(s, space_end(s, c6));
                                in_line(s, Ok(((mi, ty, id, bi), space_end(s, c7))))
                            },
                            Err(e) => Err(e),
                        },
                        Err(e) => Err(e),
                    }
                },
                Err(e) => Err(e),
            },
            Err(e) => Err(e),
        },
        Err(e) => Err(e),
    }
}

/// `SLCF` or `SLCC`: the rest of the line, then file name, quantity, name and unit.
pub open spec fn sp_slice(s: Seq<char>, p: int, cell_centered: bool, st: StateView) -> Result<
    (StateView, int),
    SmvError,
> {
    match sp_slice_line(s, p) {
        Ok(((mi, ty, id, bi), q1)) => match sp_text_line(s, q1) {
            Ok((file, q2)) => match sp_text_line(s, q2) {
                Ok((quantity, q3)) => match sp_text_line(s, q3) {
                    Ok((name, q4)) => match sp_text_line(s, q4) {
                        Ok((unit, q5)) => Ok(
                            (
                                StateView {
                                    slices: st.slices.push(
                                        Slice {
                                            mesh_index: mi,
                                            file_name: file,
                                            quantity,
                                            name,
                                            unit,
                                            cell_centered,
                                            slice_type: ty,
                                            bounds: bi,
                                            id,
                                        },
                                    ),
                                    ..st
                                },
                                q5,
                            ),
                        ),
                        Err(e) => Err(e),
                    },
                    Err(e) => Err(e),
                },
                Err(e) => Err(e),
            },
            Err(e) => Err(e),
        },
        Err(e) => Err(e),
    }
}

/// The line of a device activation: two integers around a number.
pub open spec fn sp_activation_line(s: Seq<char>, p: int) -> Result<(DeviceActivation, int), SmvError> {
    match sp_i32(s, space_end(s, space_end(s, p))) {
        Ok((a, t1)) => match sp_float(s, space_end(s, t1.end as int)) {
            Ok(b) => match sp_i32(s, space_end(s, b.end as int)) {
                Ok((c, t3)) => in_line(s, Ok((DeviceActivation { a, b, c }, space_end(s, t3.end as int)))),
                Err(e) => Err(e),
            },
            Err(e) => Err(e),
        },
        Err(e) => Err(e),
    }
}

/// `DEVICE_ACT`: the id of a device defined before, then an activation of it.
pub open spec fn sp_device_act(s: Seq<char>, p: int, st: StateView) -> Result<(StateView, int), SmvError> {
    match sp_text_line(s, p) {
        Ok((d, q1)) => match find_device(s, st.devices, text(s, d)) {
            None => Err(SmvError::InvalidKey { key: d, key_type: KeyType::DeviceAct }),
            Some(i) => match sp_activation_line(s, q1) {
                Ok((act, q2)) => {
                    let dev = st.devices[i];
                    Ok(
                        (
                            StateView {
                                devices: st.devices.update(
                                    i,
                                    DeviceView { activations: dev.activations.push(act), ..dev },
                                ),
                                ..st
                            },
                            q2,
                        ),
                    )
                },
                Err(e) => Err(e),
            },
        },
        Err(e) => Err(e),
    }
}

/// `OPEN_VENT` or `CLOSE_VENT`: read and left unused.
pub open spec fn sp_vent_change(s: Seq<char>, p: int) -> Result<int, SmvError> {
    match sp_i32_line(s, p) {
        Ok((_, q1)) => match sp_i32(s, space_end(s, space_end(s, q1))) {
            Ok((_, t)) => match sp_float(s, space_end(s, t.end as int)) {
                Ok(f) => match in_line(s, Ok(((), space_end(s, f.end as int)))) {
                    Ok((_, q)) => Ok(q),
                    Err(e) => Err(e),
                },
                Err(e) => Err(e),
            },
            Err(e) => Err(e),
        },
        Err(e) => Err(e),
    }
}

/// `PL3D`: a time and a mesh index, the file name, then five quantities.
pub open spec fn sp_plot3d(s: Seq<char>, p: int, st: StateView) -> Result<(StateView, int), SmvError> {
    match sp_float(s, space_end(s, space_end(s, p))) {
        Ok(time) => match sp_i32(s, space_end(s, time.end as int)) {
            Ok((mi, t)) => match in_line(s, Ok(((), space_end(s, t.end as int)))) {
                Ok((_, q1)) => match sp_text_line(s, q1) {
                    Ok((file, q2)) => match sp_quantity(s, q2) {
                        Ok((a, q3)) => match sp_quantity(s, q3) {
                            Ok((b, q4)) => match sp_quantity(s, q4) {
                                Ok((c, q5)) => match sp_quantity(s, q5) {
                                    Ok((d, q6)) => match sp_quantity(s, q6) {
                                        Ok((e, q7)) => Ok(
                                            (
                                                StateView {
                                                    plot3d: st.plot3d.push(
                                                        Plot3D {
                                                            file_name: file,
                                                            mesh_index: mi,
                                                            quantities: (a, b, c, d, e),
                                                        },
                                                    ),
                                                    ..st
                                                },
                                                q7,
                                            ),
                                        ),
                                        Err(x) => Err(x),
                                    },
                                    Err(x) => Err(x),
                                },
                                Err(x) => Err(x),
                            },
                            Err(x) => Err(x),
                        },
                        Err(x) => Err(x),
                    },
                    Err(x) => Err(x),
                },
                Err(x) => Err(x),
            },
            Err(x) => Err(x),
        },
        Err(x) => Err(x),
    }
}

/// A section whose word is followed by more on its line; `p` is right after the word.
pub open spec fn sp_inline_section(s: Seq<char>, p: int, w: Span, st: StateView) -> Result<
    (StateView, int),
    SmvError,
> {
    let word = text(s, w);
    if word == "SMOKF3D"@ {
        sp_smoke3d(s, p, Smoke3DType::F, st)
    } else if word == "SMOKG3D"@ {
        sp_smoke3d(s, p, Smoke3DType::G, st)
    } else if word == "SLCF"@ {
        sp_slice(s, p, false, st)
    } else if word == "SLCC"@ {
        sp_slice(s, p, true, st)
    } else if word == "DEVICE_ACT"@ {
        sp_device_act(s, p, st)
    } else if word == "OPEN_VENT"@ || word == "CLOSE_VENT"@ {
        match sp_vent_change(s, p) {
            Ok(q) => Ok((st, q)),
            Err(e) => Err(e),
        }
    } else if word == "PL3D"@ {
        sp_plot3d(s, p, st)
    } else if word == "PRT5"@ || word == "ISOG"@ || word == "HIDE_OBST"@ || word == "SHOW_OBST"@
        || word == "BNDF"@ {
        sp_skip(s, p, w, false, st)
    } else {
        sp_skip(s, p, w, true, st)
    }
}

/// One section from `p`: blanks and line ends, the section's word, then the section.
#[verifier::opaque]
pub open spec fn sp_section(s: Seq<char>, p: int, st: StateView) -> Result<(StateView, int), SmvError> {
    match sp_token(s, sep_end(s, p)) {
        Ok(w) => match line_ending(s, w.end as int) {
            Some(q) => sp_header_section(s, q, w, st),
            None => sp_inline_section(s, w.end as int, w, st),
        },
        Err(e) => Err(e),
    }
}

/// Reading the sections from `p` to the end of the file: the state reached, and the error
/// that stopped reading, if one did.
pub open spec fn sp_run(s: Seq<char>, p: int, st: StateView) -> (StateView, Option<SmvError>)
    decreases s.len() - p,
{
    if p >= s.len() {
        (st, None)
    } else {
        match sp_section(s, p, st) {
            Ok((st2, q)) => if p < q <= s.len() {
                sp_run(s, q, st2)
            } else {
                (st2, None)
            },
            Err(e) => (st, Some(e)),
        }
    }
}

/// The simulation that the sections read describe, or the first section missing, in the
/// order checked.
pub open spec fn sp_finish(st: StateView) -> Result<SmvView, SmvError> {
    if st.num_meshes is None {
        Err(SmvError::MissingSection { name: SectionName::NMeshes })
    } else if st.meshes.len() != st.num_meshes->0 {
        Err(SmvError::WrongNumberOfMeshes { expected: st.num_meshes->0, found: st.meshes.len() as usize })
    } else if st.title is None {
        Err(SmvError::MissingSection { name: SectionName::Title })
    } else if st.fds_version is None {
        Err(SmvError::MissingSection { name: SectionName::FdsVersion })
    } else if st.end_file is None {
        Err(SmvError::MissingSection { name: SectionName::Endf })
    } else if st.input_file is None {
        Err(SmvError::MissingSection { name: SectionName::Inpf })
    } else if st.revision is None {
        Err(SmvError::MissingSection { name: SectionName::Revision })
    } else if st.chid is None {
        Err(SmvError::MissingSection { name: SectionName::Chid })
    } else if st.hrrpuv_cutoff is None {
        Err(SmvError::MissingSection { name: SectionName::HrrpuvCut })
    } else if st.viewtimes is None {
        Err(SmvError::MissingSection { name: SectionName::ViewTimes })
    } else if st.smoke_albedo is None {
        Err(SmvError::MissingSection { name: SectionName::Albedo })
    } else if st.i_blank is None {
        Err(SmvError::MissingSection { name: SectionName::IBlank })
    } else if st.gravity_vec is None {
        Err(SmvError::MissingSection { name: SectionName::GVec })
    } else if st.ramps is None {
        Err(SmvError::MissingSection { name: SectionName::Ramp })
    } else if st.outlines is None {
        Err(SmvError::MissingSection { name: SectionName::Outline })
    } else if st.default_surface_id is None {
        Err(SmvError::MissingSection { name: SectionName::SurfDef })
    } else {
        Ok(
            SmvView {
                title: st.title->0,
                fds_version: st.fds_version->0,
                end_version: st.end_file->0,
                input_file: st.input_file->0,
                revision: st.revision->0,
                chid: st.chid->0,
                solid_ht3d: st.solid_ht3d,
                meshes: st.meshes,
                devices: st.devices,
                hrrpuv_cutoff: st.hrrpuv_cutoff->0,
                smoke_albedo: st.smoke_albedo->0,
                i_blank: st.i_blank->0,
                gravity_vec: st.gravity_vec->0,
                surfaces: st.surfaces,
                ramps: st.ramps->0,
                outlines: st.outlines->0,
                default_surface_id: st.default_surface_id->0,
                viewtimes: st.viewtimes->0,
                xyz_files: st.xyz_files,
                time_range: st.time_range,
                heat_of_combustion: st.heat_of_combustion,
                reaction_fuel: st.reaction_fuel,
                materials: st.materials,
                smoke3d: st.smoke3d,
                slices: st.slices,
                plot3d: st.plot3d,
                properties: st.properties,
                csv_files: st.csv_files,
            },
        )
    }
}

/// What reading the `.smv` file with characters `s` gives: the simulation or the error that
/// stopped reading, and the sections skipped as unknown before that.
pub open spec fn smv_parse(s: Seq<char>) -> (Result<SmvView, SmvError>, Seq<Span>) {
    let (st, err) = sp_run(s, 0, empty_state());
    (
        match err {
            Some(e) => Err(located(s, e)),
            None => sp_finish(st),
        },
        st.warnings,
    )
}

/// Whether no two devices have ids of the same text.
pub open spec fn ids_unique(s: Seq<char>, devs: Seq<DeviceView>) -> bool {
    forall|i: int, j: int|
        0 <= i < j < devs.len() ==> text(s, (#[trigger] devs[i]).id) != text(s, (#[trigger] devs[j]).id)
}

proof fn lemma_find_device_none(s: Seq<char>, devs: Seq<DeviceView>, name: Seq<char>)
    ensures
        find_device(s, devs, name) is None ==> forall|k: int|
            0 <= k < devs.len() ==> text(s, (#[trigger] devs[k]).id) != name,
        find_device(s, devs, name) matches Some(i) ==> 0 <= i < devs.len() && text(s, devs[i].id)
            == name,
    decreases devs.len(),
{
    if devs.len() > 0 {
        lemma_find_device_none(s, devs.drop_last(), name);
        if find_device(s, devs, name) is None {
            assert forall|k: int| 0 <= k < devs.len() implies text(s, (#[trigger] devs[k]).id)
                != name by {
                if k < devs.len() - 1 {
                    assert(devs[k] == devs.drop_last()[k]);
                }
            }
        }
    }
}

proof fn lemma_insert_keeps_unique(s: Seq<char>, devs: Seq<DeviceView>, d: DeviceView)
    requires
        ids_unique(s, devs),
    ensures
        ids_unique(s, insert_device(s, devs, d)),
{
    lemma_find_device_none(s, devs, text(s, d.id));
    let r = insert_device(s, devs, d);
    assert forall|i: int, j: int| 0 <= i < j < r.len() implies text(s, (#[trigger] r[i]).id) != text(
        s,
        (#[trigger] r[j]).id,
    ) by {
        match find_device(s, devs, text(s, d.id)) {
            Some(k) => {
                assert(text(s, r[i].id) == text(s, devs[i].id));
                assert(text(s, r[j].id) == text(s, devs[j].id));
            },
            None => {
                if j == devs.len() {
                    assert(r[i] == devs[i]);
                } else {
                    assert(r[i] == devs[i] && r[j] == devs[j]);
                }
            },
        }
    }
}

#[verifier::spinoff_prover]
#[verifier::rlimit(60)]
proof fn lemma_header_keeps_unique(s: Seq<char>, p: int, w: Span, st: StateView)
    requires
        ids_unique(s, st.devices),
    ensures
        sp_header_section(s, p, w, st) matches Ok((st2, _)) ==> ids_unique(s, st2.devices),
{
    if text(s, w) == "DEVICE"@ {
        match sp_device_head(s, p) {
            Ok(((id, quantity), q1)) => match sp_device_body(s, q1) {
                Ok(((pos, ori, si, (zero, zt), bounds, prop), q2)) => {
                    lemma_insert_keeps_unique(
                        s,
                        st.devices,
                        DeviceView {
                            id,
                            quantity,
                            position: pos,
                            orientation: ori,
                            state_index: si,
                            bounds,
                            activations: Seq::empty(),
                            property_id: prop,
                        },
                    );
                },
                Err(_) => {},
            },
            Err(_) => {},
        }
    }
}

proof fn lemma_inline_keeps_unique(s: Seq<char>, p: int, w: Span, st: StateView)
    requires
        ids_unique(s, st.devices),
    ensures
        sp_inline_section(s, p, w, st) matches Ok((st2, _)) ==> ids_unique(s, st2.devices),
{
    if text(s, w) == "DEVICE_ACT"@ {
        if let Ok((d, q1)) = sp_text_line(s, p) {
            if let Some(i) = find_device(s, st.devices, text(s, d)) {
                if let Ok((act, q2)) = sp_activation_line(s, q1) {
                    lemma_find_device_none(s, st.devices, text(s, d));
                    let dev = st.devices[i];
                    let devs = st.devices.update(i, DeviceView { activations: dev.activations.push(act), ..dev });
                    assert forall|a: int, b: int| 0 <= a < b < devs.len() implies text(
                        s,
                        (#[trigger] devs[a]).id,
                    ) != text(s, (#[trigger] devs[b]).id) by {
                        assert(devs[a].id == st.devices[a].id);
                        assert(devs[b].id == st.devices[b].id);
                    }
                }
            }
        }
    }
}

/// Reading a section never leaves two devices of the same id.
proof fn lemma_section_keeps_unique(s: Seq<char>, p: int, st: StateView)
    requires
        ids_unique(s, st.devices),
    ensures
        sp_section(s, p, st) matches Ok((st2, _)) ==> ids_unique(s, st2.devices),
{
    reveal(sp_section);
    match sp_token(s, sep_end(s, p)) {
        Ok(w) => match line_ending(s, w.end as int) {
            Some(q) => lemma_header_keeps_unique(s, q, w, st),
            None => lemma_inline_keeps_unique(s, w.end as int, w, st),
        },
        Err(_) => {},
    }
}

proof fn lemma_run_keeps_unique(s: Seq<char>, p: int, st: StateView)
    requires
        ids_unique(s, st.devices),
    ensures
        ids_unique(s, sp_run(s, p, st).0.devices),
    decreases s.len() - p,
{
    if p < s.len() {
        lemma_section_keeps_unique(s, p, st);
        match sp_section(s, p, st) {
            Ok((st2, q)) => if p < q <= s.len() {
                lemma_run_keeps_unique(s, q, st2);
            },
            Err(_) => {},
        }
    }
}

/// Whether `word`, ending its line, starts a section that is read: `TITLE`, `VERSION`,
/// `FDSVERSION`, `ENDF`, `INPF`, `REVISION`, `CHID`, `SOLID_HT3D`, `CSVF`, `NMESHES`,
/// `HRRPUVCUT`, `TIMES`, `VIEWTIMES`, `ALBEDO`, `IBLANK`, `GVEC`, `SURFDEF`, `SURFACE`,
/// `MATERIAL`, `OUTLINE`, `TOFFSET`, `RAMP`, `PROP`, `DEVICE`, `OFFSET`, `XYZ`, `HoC` or `FUEL`.
pub open spec fn header_word_read(word: Seq<char>) -> bool {
    ||| word == "TITLE"@
    ||| word == "VERSION"@
    ||| word == "FDSVERSION"@
    ||| word == "ENDF"@
    ||| word == "INPF"@
    ||| word == "REVISION"@
    ||| word == "CHID"@
    ||| word == "SOLID_HT3D"@
    ||| word == "CSVF"@
    ||| word == "NMESHES"@
    ||| word == "HRRPUVCUT"@
    ||| word == "TIMES"@
    ||| word == "VIEWTIMES"@
    ||| word == "ALBEDO"@
    ||| word == "IBLANK"@
    ||| word == "GVEC"@
    ||| word == "SURFDEF"@
    ||| word == "SURFACE"@
    ||| word == "MATERIAL"@
    ||| word == "OUTLINE"@
    ||| word == "TOFFSET"@
    ||| word == "RAMP"@
    ||| word == "PROP"@
    ||| word == "DEVICE"@
    ||| word == "OFFSET"@
    ||| word == "XYZ"@
    ||| word == "HoC"@
    ||| word == "FUEL"@
}

/// Whether `word`, ending its line, starts a section skipped without a warning: `FACE`,
/// `CADGEOM`, `VERT` or `CLASS_OF_PARTICLES`.
pub open spec fn header_word_quiet(word: Seq<char>) -> bool {
    word == "FACE"@ || word == "CADGEOM"@ || word == "VERT"@ || word == "CLASS_OF_PARTICLES"@
}

/// Whether `word`, followed by more on its line, starts a section that is read: `SMOKF3D`,
/// `SMOKG3D`, `SLCF`, `SLCC`, `DEVICE_ACT`, `OPEN_VENT`, `CLOSE_VENT` or `PL3D`.
pub open spec fn inline_word_read(word: Seq<char>) -> bool {
    ||| word == "SMOKF3D"@
    ||| word == "SMOKG3D"@
    ||| word == "SLCF"@
    ||| word == "SLCC"@
    ||| word == "DEVICE_ACT"@
    ||| word == "OPEN_VENT"@
    ||| word == "CLOSE_VENT"@
    ||| word == "PL3D"@
}

/// Whether `word`, followed by more on its line, starts a section skipped without a warning:
/// `PRT5`, `ISOG`, `HIDE_OBST`, `SHOW_OBST` or `BNDF`.
pub open spec fn inline_word_quiet(word: Seq<char>) -> bool {
    word == "PRT5"@ || word == "ISOG"@ || word == "HIDE_OBST"@ || word == "SHOW_OBST"@ || word
        == "BNDF"@
}

/// Whether the section word `w` of `s` names no section: neither one that is read nor one
/// that is skipped quietly, for a word alone on its line or one followed by more.
pub open spec fn unknown_word(s: Seq<char>, w: Span) -> bool {
    let word = text(s, w);
    if line_ending(s, w.end as int) is Some {
        !header_word_read(word) && !header_word_quiet(word)
    } else {
        !inline_word_read(word) && !inline_word_quiet(word)
    }
}

/// The word of the section at `p`.
pub open spec fn section_word(s: Seq<char>, p: int) -> Span {
    sp_token(s, sep_end(s, p))->Ok_0
}

/// The words of the sections read from `p` on, in order, up to the end of the file or the
/// section whose reading fails.
pub open spec fn sections_read(s: Seq<char>, p: int, st: StateView) -> Seq<Span>
    decreases s.len() - p,
{
    if p >= s.len() {
        Seq::empty()
    } else {
        match sp_section(s, p, st) {
            Ok((st2, q)) => seq![section_word(s, p)] + if p < q <= s.len() {
                sections_read(s, q, st2)
            } else {
                Seq::empty()
            },
            Err(_) => Seq::empty(),
        }
    }
}

proof fn lemma_skip_warnings(s: Seq<char>, p: int, w: Span, warn: bool, st: StateView)
    ensures
        sp_skip(s, p, w, warn, st) matches Ok((st2, _)) ==> st2.warnings == if warn {
            st.warnings.push(w)
        } else {
            st.warnings
        },
{
}

#[verifier::spinoff_prover]
#[verifier::rlimit(60)]
proof fn lemma_header_warnings(s: Seq<char>, p: int, w: Span, st: StateView)
    ensures
        sp_header_section(s, p, w, st) matches Ok((st2, _)) ==> st2.warnings == if !header_word_read(
            text(s, w),
        ) && !header_word_quiet(text(s, w)) {
            st.warnings.push(w)
        } else {
            st.warnings
        },
{
    lemma_skip_warnings(s, p, w, true, st);
    lemma_skip_warnings(s, p, w, false, st);
}

#[verifier::spinoff_prover]
#[verifier::rlimit(60)]
proof fn lemma_inline_warnings(s: Seq<char>, p: int, w: Span, st: StateView)
    ensures
        sp_inline_section(s, p, w, st) matches Ok((st2, _)) ==> st2.warnings == if !inline_word_read(
            text(s, w),
        ) && !inline_word_quiet(text(s, w)) {
            st.warnings.push(w)
        } else {
            st.warnings
        },
{
    lemma_skip_warnings(s, p, w, true, st);
    lemma_skip_warnings(s, p, w, false, st);
}

/// Reading a section adds a warning of its word exactly where the word is unknown.
proof fn lemma_section_warnings(s: Seq<char>, p: int, st: StateView)
    ensures
        sp_section(s, p, st) matches Ok((st2, _)) ==> st2.warnings == if unknown_word(
            s,
            section_word(s, p),
        ) {
            st.warnings.push(section_word(s, p))
        } else {
            st.warnings
        },
{
    reveal(sp_section);
    match sp_token(s, sep_end(s, p)) {
        Ok(w) => match line_ending(s, w.end as int) {
            Some(q) => lemma_header_warnings(s, q, w, st),
            None => lemma_inline_warnings(s, w.end as int, w, st),
        },
        Err(_) => {},
    }
}

proof fn lemma_run_warnings(s: Seq<char>, p: int, st: StateView)
    ensures
        sp_run(s, p, st).0.warnings == st.warnings + sections_read(s, p, st).filter(
            |w: Span| unknown_word(s, w),
        ),
    decreases s.len() - p,
{
    let pred = |w: Span| unknown_word(s, w);
    if p >= s.len() {
        assert(sections_read(s, p, st) =~= Seq::<Span>::empty());
        assert(Seq::<Span>::empty().filter(pred) =~= Seq::<Span>::empty());
        assert(st.warnings + Seq::<Span>::empty() =~= st.warnings);
    } else {
        lemma_section_warnings(s, p, st);
        match sp_section(s, p, st) {
            Ok((st2, q)) => {
                let w = section_word(s, p);
                let rest = if p < q <= s.len() {
                    sections_read(s, q, st2)
                } else {
                    Seq::empty()
                };
                if p < q <= s.len() {
                    lemma_run_warnings(s, q, st2);
                } else {
                    assert(rest.filter(pred) =~= Seq::<Span>::empty());
                }
                assert(sections_read(s, p, st) == seq![w] + rest);
                Seq::filter_distributes_over_add(seq![w], rest, pred);
                reveal_with_fuel(Seq::filter, 2);
                assert(seq![w].drop_last() =~= Seq::<Span>::empty());
                if pred(w) {
                    assert(seq![w].filter(pred) =~= seq![w]);
                    assert(st2.warnings + rest.filter(pred) =~= st.warnings + (seq![w] + rest.filter(
                        pred,
                    )));
                } else {
                    assert(seq![w].filter(pred) =~= Seq::<Span>::empty());
                    assert(seq![w].filter(pred) + rest.filter(pred) =~= rest.filter(pred));
                    if !(p < q <= s.len()) {
                        assert(st2.warnings + rest.filter(pred) =~= st2.warnings);
                    }
                }
            },
            Err(_) => {
                assert(sections_read(s, p, st) =~= Seq::<Span>::empty());
                assert(Seq::<Span>::empty().filter(pred) =~= Seq::<Span>::empty());
                assert(st.warnings + Seq::<Span>::empty() =~= st.warnings);
            },
        }
    }
}

/// The warnings of reading a `.smv` file are the words of the sections read, in order, that
/// name no section: neither one that is read nor one of the few skipped quietly (`FACE`,
/// `CADGEOM`, `VERT`, `CLASS_OF_PARTICLES` alone on their line; `PRT5`, `ISOG`, `HIDE_OBST`,
/// `SHOW_OBST`, `BNDF` followed by more). Each such word gives exactly one warning.
pub proof fn law_warnings_are_unknown_sections(s: Seq<char>)
    ensures
        smv_parse(s).1 == sections_read(s, 0, empty_state()).filter(|w: Span| unknown_word(s, w)),
{
    lemma_run_warnings(s, 0, empty_state());
    assert(empty_state().warnings + sections_read(s, 0, empty_state()).filter(
        |w: Span| unknown_word(s, w),
    ) =~= sections_read(s, 0, empty_state()).filter(|w: Span| unknown_word(s, w)));
}

/// The devices of a simulation have ids of pairwise different text: a device defined again
/// replaces the one of the same id.
pub proof fn law_device_ids_unique(s: Seq<char>)
    ensures
        smv_parse(s).0 matches Ok(v) ==> ids_unique(s, v.devices),
{
    assert(ids_unique(s, empty_state().devices));
    lemma_run_keeps_unique(s, 0, empty_state());
}

} // verus!
