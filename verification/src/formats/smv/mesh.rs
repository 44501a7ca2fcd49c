//! The meshes of a `.smv` file: the grid, its cell boundaries, and the obstructions and vents
//! within it. Obstructions and vents are written in two halves: first one line for each, then
//! a second line for each, in the same order.
use vstd::prelude::*;

use crate::formats::smv::err::{SmvError, SubSectionName};
use crate::formats::smv::lex::{
    advances, in_line, lemma_repeat_err, lemma_repeat_len, lifted, lifted_vec, read_eol, read_float, read_full_line, read_i32,
    read_tag, read_usize, repeat_spec, skip_space, sp_eol, sp_float, sp_full_line, sp_i32,
    sp_tag, sp_usize, space_end, span_of, syn, text, text_is, trimmed, Span,
};
use crate::formats::smv::values::{
    read_bounds3f, read_bounds3i, read_surfaces3i, read_vec3f, read_vec3u, sp_bounds3f,
    sp_bounds3i, sp_surfaces3i, sp_vec3f, sp_vec3u,
};
use crate::geom::{Bounds3, Surfaces3, Vec3};
use crate::text::trim_bounds;

verus! {

/// An obstruction.
#[derive(Debug, Clone, Copy, PartialEq, Eq)]
pub struct Obst {
    pub name: Option<Span>,
    pub id: u32,
    pub is_hole: bool,
    pub bounds: Bounds3<Span>,
    pub texture_origin: Vec3<Span>,
    pub side_surfaces: Surfaces3<i32>,
    pub bounds_idx: Bounds3<i32>,
    pub color_index: i32,
    pub block_type: i32,
    /// The colour and its alpha value.
    pub rgba: Option<(Vec3<Span>, Span)>,
}

/// What the first line of an obstruction gives.
#[derive(Debug, Clone, Copy, PartialEq, Eq)]
pub struct HalfObst {
    pub name: Option<Span>,
    pub id: u32,
    pub is_hole: bool,
    pub bounds: Bounds3<Span>,
    pub texture_origin: Vec3<Span>,
    pub side_surfaces: Surfaces3<i32>,
}

/// A vent.
#[derive(Debug, Clone, Copy, PartialEq, Eq)]
pub struct Vent {
    pub bounds: Bounds3<Span>,
    pub vent_index: i32,
    pub surface: i32,
    pub texture_origin: Option<Vec3<Span>>,
    pub bounds_idx: Bounds3<i32>,
    pub color_index: i32,
    pub draw_type: i32,
    pub rgba: Option<(Vec3<Span>, Span)>,
}

/// What the first line of a vent gives.
#[derive(Debug, Clone, Copy, PartialEq, Eq)]
pub struct HalfVent {
    pub bounds: Bounds3<Span>,
    pub vent_index: i32,
    pub surface: i32,
    pub texture_origin: Option<Vec3<Span>>,
}

/// A circular vent.
#[derive(Debug, Clone, Copy, PartialEq, Eq)]
pub struct CircularVent {
    pub bounds: Bounds3<Span>,
    pub vent_index: i32,
    pub surface: i32,
    pub origin: Vec3<Span>,
    pub radius: Span,
    pub bounds_idx: Bounds3<i32>,
    pub color_index: i32,
    pub draw_type: i32,
    pub rgba: Option<(Vec3<Span>, Span)>,
}

/// What the first line of a circular vent gives.
#[derive(Debug, Clone, Copy, PartialEq, Eq)]
pub struct HalfCircularVent {
    pub bounds: Bounds3<Span>,
    pub vent_index: i32,
    pub surface: i32,
    pub origin: Vec3<Span>,
    pub radius: Span,
}

/// A mesh.
#[derive(Debug, Clone)]
pub struct Mesh {
    pub name: Span,
    pub offset: Vec3<Span>,
    pub dimensions: Vec3<u32>,
    pub rgb: Vec3<Span>,
    pub bounds: Bounds3<Span>,
    pub obsts: Vec<Obst>,
    /// The cell boundaries along each axis.
    pub trn: Vec3<Vec<Span>>,
    pub vents: Vec<Vent>,
    pub circular_vents: Vec<CircularVent>,
}

/// A mesh, with its lists as sequences.
pub struct MeshView {
    pub name: Span,
    pub offset: Vec3<Span>,
    pub dimensions: Vec3<u32>,
    pub rgb: Vec3<Span>,
    pub bounds: Bounds3<Span>,
    pub obsts: Seq<Obst>,
    pub trn: Vec3<Seq<Span>>,
    pub vents: Seq<Vent>,
    pub circular_vents: Seq<CircularVent>,
}

impl View for Mesh {
    type V = MeshView;

    open spec fn view(&self) -> MeshView {
        MeshView {
            name: self.name,
            offset: self.offset,
            dimensions: self.dimensions,
            rgb: self.rgb,
            bounds: self.bounds,
            obsts: self.obsts@,
            trn: Vec3 { x: self.trn.x@, y: self.trn.y@, z: self.trn.z@ },
            vents: self.vents@,
            circular_vents: self.circular_vents@,
        }
    }
}

/// A line holding a `usize` number.
pub open spec fn sp_usize_line(s: Seq<char>, p: int) -> Result<(usize, int), SmvError> {
    in_line(
        s,
        match sp_usize(s, space_end(s, p)) {
            Ok((v, t)) => Ok((v, t.end as int)),
            Err(e) => Err(e),
        },
    )
}

/// A line of text, trimmed.
pub open spec fn sp_text_line(s: Seq<char>, p: int) -> Result<(Span, int), SmvError> {
    in_line(s, sp_full_line(s, space_end(s, p)))
}

/// A line that must read `tag`, starting a sub-section of the mesh named `parent`.
pub open spec fn sp_subsection(
    s: Seq<char>,
    p: int,
    tag: Seq<char>,
    name: SubSectionName,
    parent: Span,
) -> Result<(Span, int), SmvError> {
    match sp_text_line(s, p) {
        Ok((l, q)) => if text(s, l) == tag {
            Ok((l, q))
        } else {
            Err(SmvError::MissingSubSection { parent, name, found: Some(l) })
        },
        Err(e) => Err(e),
    }
}

/// An optional colour (three numbers) and alpha value, with the span they were read from;
/// nothing is read where they are not both there.
pub open spec fn sp_rgba(s: Seq<char>, p: int) -> (Option<((Vec3<Span>, Span), Span)>, int) {
    match sp_vec3f(s, space_end(s, p)) {
        Ok((v, w)) => match sp_float(s, space_end(s, w)) {
            Ok(f) => {
                let e = space_end(s, f.end as int);
                (Some(((v, f), span_of(p, e))), e)
            },
            Err(_) => (None, p),
        },
        Err(_) => (None, p),
    }
}

/// The first line of an obstruction: its box, its signed id, its surfaces, an optional texture
/// origin (`dto` where absent) and an optional name after `!`. An id of 0 is a syntax error.
pub open spec fn sp_obst_half(s: Seq<char>, p: int, dto: Vec3<Span>) -> Result<(HalfObst, int), SmvError> {
    let a0 = space_end(s, p);
    match sp_bounds3f(s, space_end(s, a0)) {
        Ok((b, q1)) => {
            let a2 = space_end(s, q1);
            match sp_i32(s, a2) {
                Ok((x, t)) => if x == 0 {
                    Err(syn(a2))
                } else {
                    match sp_surfaces3i(s, space_end(s, t.end as int)) {
                        Ok((surf, q3)) => {
                            let a4 = space_end(s, q3);
                            let (to, q4) = match sp_vec3f(s, a4) {
                                Ok((v, q)) => (v, q),
                                Err(_) => (dto, a4),
                            };
                            let a5 = space_end(s, q4);
                            let (name, q5) = match sp_tag(s, a5, "!"@) {
                                Ok(q) => match sp_full_line(s, q) {
                                    Ok((sp, q2)) => (Some(sp), q2),
                                    Err(_) => (None, a5),
                                },
                                Err(_) => (None, a5),
                            };
                            in_line(
                                s,
                                Ok(
                                    (
                                        HalfObst {
                                            name,
                                            id: (if x < 0 {
                                                -x
                                            } else {
                                                x as int
                                            }) as u32,
                                            is_hole: x < 0,
                                            bounds: b,
                                            texture_origin: to,
                                            side_surfaces: surf,
                                        },
                                        space_end(s, q5),
                                    ),
                                ),
                            )
                        },
                        Err(e) => Err(e),
                    }
                },
                Err(e) => Err(e),
            }
        },
        Err(e) => Err(e),
    }
}

/// The second line of an obstruction: its cell box, colour index, block type and optional
/// colour, which must be given exactly where the colour index is -3.
pub open spec fn sp_obst_full(s: Seq<char>, p: int, h: HalfObst) -> Result<(Obst, int), SmvError> {
    let a0 = space_end(s, p);
    match sp_bounds3i(s, space_end(s, a0)) {
        Ok((bi, q1)) => match sp_i32(s, space_end(s, q1)) {
            Ok((ci, ct)) => match sp_i32(s, space_end(s, ct.end as int)) {
                Ok((bt, t3)) => {
                    let (rgba, q4) = sp_rgba(s, space_end(s, t3.end as int));
                    match in_line(s, Ok(((), space_end(s, q4)))) {
                        Ok((_, q)) => if (ci == -3) != rgba is Some {
                            Err(
                                SmvError::InvalidObstColor {
                                    color_index: ct,
                                    color: match rgba {
                                        Some((_, sp)) => Some(sp),
                                        None => None,
                                    },
                                },
                            )
                        } else {
                            Ok(
                                (
                                    Obst {
                                        name: h.name,
                                        id: h.id,
                                        is_hole: h.is_hole,
                                        bounds: h.bounds,
                                        texture_origin: h.texture_origin,
                                        side_surfaces: h.side_surfaces,
                                        bounds_idx: bi,
                                        color_index: ci,
                                        block_type: bt,
                                        rgba: match rgba {
                                            Some((c, _)) => Some(c),
                                            None => None,
                                        },
                                    },
                                    q,
                                ),
                            )
                        },
                        Err(e) => Err(e),
                    }
                },
                Err(e) => Err(e),
            },
            Err(e) => Err(e),
        },
        Err(e) => Err(e),
    }
}

/// Reading first halves of obstructions.
pub open spec fn obst_half_step(s: Seq<char>, dto: Vec3<Span>) -> spec_fn(Seq<HalfObst>, int) -> Result<
    (HalfObst, int),
    SmvError,
> {
    |acc: Seq<HalfObst>, q: int| sp_obst_half(s, q, dto)
}

/// Reading second halves of the obstructions `hs`, in order.
pub open spec fn obst_full_step(s: Seq<char>, hs: Seq<HalfObst>) -> spec_fn(Seq<Obst>, int) -> Result<
    (Obst, int),
    SmvError,
> {
    |acc: Seq<Obst>, q: int| sp_obst_full(s, q, hs[acc.len() as int])
}

/// The obstructions of a mesh: their number, then their first and second halves.
pub open spec fn sp_obsts(s: Seq<char>, p: int, dto: Vec3<Span>) -> Result<(Seq<Obst>, int), SmvError> {
    match sp_usize_line(s, p) {
        Ok((n, q)) => match repeat_spec(obst_half_step(s, dto), q, n as nat) {
            Ok((hs, q2)) => repeat_spec(obst_full_step(s, hs), q2, n as nat),
            Err(e) => Err(e),
        },
        Err(e) => Err(e),
    }
}

/// The first line of vent number `i`, of `total` vents of which the first `nnd` are no
/// dummies: its box, index and surface, and a texture origin exactly where it is no dummy.
pub open spec fn sp_vent_half(s: Seq<char>, p: int, i: int, total: usize, nnd: usize) -> Result<
    (HalfVent, int),
    SmvError,
> {
    let a0 = space_end(s, p);
    match sp_bounds3f(s, space_end(s, a0)) {
        Ok((b, q1)) => match sp_i32(s, space_end(s, q1)) {
            Ok((vi, t2)) => match sp_i32(s, space_end(s, t2.end as int)) {
                Ok((su, t3)) => {
                    let wend = space_end(s, t3.end as int);
                    let c = space_end(s, wend);
                    let (to, after) = match sp_vec3f(s, c) {
                        Ok((v, vend)) => (Some((v, span_of(c, vend))), vend),
                        Err(_) => (None, wend),
                    };
                    match sp_eol(s, after) {
                        Ok(q) => if (i < nnd) != to is Some {
                            Err(
                                SmvError::VentTextureOrigin {
                                    vent: trimmed(s, a0, wend),
                                    num_vents_total: total,
                                    num_non_dummies: nnd,
                                    vent_line_number: i as usize,
                                    texture_origin: match to {
                                        Some((_, sp)) => Some(
                                            trimmed(s, sp.start as int, sp.end as int),
                                        ),
                                        None => None,
                                    },
                                },
                            )
                        } else {
                            Ok(
                                (
                                    HalfVent {
                                        bounds: b,
                                        vent_index: vi,
                                        surface: su,
                                        texture_origin: match to {
                                            Some((v, _)) => Some(v),
                                            None => None,
                                        },
                                    },
                                    q,
                                ),
                            )
                        },
                        Err(e) => Err(e),
                    }
                },
                Err(e) => Err(e),
            },
            Err(e) => Err(e),
        },
        Err(e) => Err(e),
    }
}

/// The second line of a vent or circular vent: its cell box, colour index, draw type and an
/// optional colour.
pub open spec fn sp_vent_tail(s: Seq<char>, p: int) -> Result<
    ((Bounds3<i32>, i32, i32, Option<(Vec3<Span>, Span)>), int),
    SmvError,
> {
    let a0 = space_end(s, p);
    match sp_bounds3i(s, space_end(s, a0)) {
        Ok((bi, q1)) => match sp_i32(s, space_end(s, q1)) {
            Ok((ci, t2)) => match sp_i32(s, space_end(s, t2.end as int)) {
                Ok((dt, t3)) => {
                    let (rgba, q4) = sp_rgba(s, space_end(s, t3.end as int));
                    in_line(
                        s,
                        Ok(
                            (
                                (
                                    bi,
                                    ci,
                                    dt,
                                    match rgba {
                                        Some((c, _)) => Some(c),
                                        None => None,
                                    },
                                ),
                                space_end(s, q4),
                            ),
                        ),
                    )
                },
                Err(e) => Err(e),
            },
            Err(e) => Err(e),
        },
        Err(e) => Err(e),
    }
}

/// The second line of vent `h`.
pub open spec fn sp_vent_full(s: Seq<char>, p: int, h: HalfVent) -> Result<(Vent, int), SmvError> {
    match sp_vent_tail(s, p) {
        Ok(((bi, ci, dt, rgba), q)) => Ok(
            (
                Vent {
                    bounds: h.bounds,
                    vent_index: h.vent_index,
                    surface: h.surface,
                    texture_origin: h.texture_origin,
                    bounds_idx: bi,
                    color_index: ci,
                    draw_type: dt,
                    rgba,
                },
                q,
            ),
        ),
        Err(e) => Err(e),
    }
}

/// Reading first halves of vents.
pub open spec fn vent_half_step(s: Seq<char>, total: usize, nnd: usize) -> spec_fn(Seq<HalfVent>, int) -> Result<
    (HalfVent, int),
    SmvError,
> {
    |acc: Seq<HalfVent>, q: int| sp_vent_half(s, q, acc.len() as int, total, nnd)
}

/// Reading second halves of the vents `hs`, in order.
pub open spec fn vent_full_step(s: Seq<char>, hs: Seq<HalfVent>) -> spec_fn(Seq<Vent>, int) -> Result<
    (Vent, int),
    SmvError,
> {
    |acc: Seq<Vent>, q: int| sp_vent_full(s, q, hs[acc.len() as int])
}

/// The first line of the vents of a mesh: their total number and the number of dummies.
pub open spec fn sp_vents_head(s: Seq<char>, p: int) -> Result<((usize, usize), int), SmvError> {
    let a0 = space_end(s, p);
    match sp_usize(s, space_end(s, a0)) {
        Ok((total, t1)) => match sp_usize(s, space_end(s, t1.end as int)) {
            Ok((dummies, t2)) => in_line(s, Ok(((total, dummies), space_end(s, t2.end as int)))),
            Err(e) => Err(e),
        },
        Err(e) => Err(e),
    }
}

/// The vents of a mesh: their total number and the number of dummies among them, then their
/// first and second halves. The number of vents that are no dummies is the difference,
/// wrapping around below zero.
pub open spec fn sp_vents(s: Seq<char>, p: int) -> Result<(Seq<Vent>, int), SmvError> {
    match sp_vents_head(s, p) {
        Ok(((total, dummies), q)) => {
            let nnd = vstd::wrapping::usize_specs::wrapping_sub(total, dummies);
            match repeat_spec(vent_half_step(s, total, nnd), q, total as nat) {
                Ok((hs, q2)) => repeat_spec(vent_full_step(s, hs), q2, total as nat),
                Err(e) => Err(e),
            }
        },
        Err(e) => Err(e),
    }
}

/// The first line of a circular vent: its box, index, surface, origin and radius.
pub open spec fn sp_cvent_half(s: Seq<char>, p: int) -> Result<(HalfCircularVent, int), SmvError> {
    let a0 = space_end(s, p);
    match sp_bounds3f(s, space_end(s, a0)) {
        Ok((b, q1)) => match sp_i32(s, space_end(s, q1)) {
            Ok((vi, t2)) => match sp_i32(s, space_end(s, t2.end as int)) {
                Ok((su, t3)) => match sp_vec3f(s, space_end(s, t3.end as int)) {
                    Ok((o, q4)) => match sp_float(s, space_end(s, q4)) {
                        Ok(r) => in_line(
                            s,
                            Ok(
                                (
                                    HalfCircularVent {
                                        bounds: b,
                                        vent_index: vi,
                                        surface: su,
                                        origin: o,
                                        radius: r,
                                    },
                                    space_end(s, r.end as int),
                                ),
                            ),
                        ),
                        Err(e) => Err(e),
                    },
                    Err(e) => Err(e),
                },
                Err(e) => Err(e),
            },
            Err(e) => Err(e),
        },
        Err(e) => Err(e),
    }
}

/// The second line of circular vent `h`.
pub open spec fn sp_cvent_full(s: Seq<char>, p: int, h: HalfCircularVent) -> Result<
    (CircularVent, int),
    SmvError,
> {
    match sp_vent_tail(s, p) {
        Ok(((bi, ci, dt, rgba), q)) => Ok(
            (
                CircularVent {
                    bounds: h.bounds,
                    vent_index: h.vent_index,
                    surface: h.surface,
                    origin: h.origin,
                    radius: h.radius,
                    bounds_idx: bi,
                    color_index: ci,
                    draw_type: dt,
                    rgba,
                },
                q,
            ),
        ),
        Err(e) => Err(e),
    }
}

/// Reading first halves of circular vents.
pub open spec fn cvent_half_step(s: Seq<char>) -> spec_fn(Seq<HalfCircularVent>, int) -> Result<
    (HalfCircularVent, int),
    SmvError,
> {
    |acc: Seq<HalfCircularVent>, q: int| sp_cvent_half(s, q)
}

/// Reading second halves of the circular vents `hs`, in order.
pub open spec fn cvent_full_step(s: Seq<char>, hs: Seq<HalfCircularVent>) -> spec_fn(
    Seq<CircularVent>,
    int,
) -> Result<(CircularVent, int), SmvError> {
    |acc: Seq<CircularVent>, q: int| sp_cvent_full(s, q, hs[acc.len() as int])
}

/// The circular vents of a mesh: their number, then their first and second halves.
pub open spec fn sp_cvents(s: Seq<char>, p: int) -> Result<(Seq<CircularVent>, int), SmvError> {
    match sp_usize_line(s, p) {
        Ok((n, q)) => match repeat_spec(cvent_half_step(s), q, n as nat) {
            Ok((hs, q2)) => repeat_spec(cvent_full_step(s, hs), q2, n as nat),
            Err(e) => Err(e),
        },
        Err(e) => Err(e),
    }
}

/// Reads a line holding a `usize` number.
pub fn read_usize_line(s: &[char], p: usize) -> (r: Result<(usize, usize), SmvError>)
    requires
        p <= s@.len(),
    ensures
        lifted(r) == sp_usize_line(s@, p as int),
        advances(r, p as int, s@),
{
    let a = skip_space(s, p);
    let (v, t) = read_usize(s, a)?;
    let q = read_eol(s, t.end)?;
    Ok((v, q))
}

/// Reads a line of text.
pub fn read_text_line(s: &[char], p: usize) -> (r: Result<(Span, usize), SmvError>)
    requires
        p <= s@.len(),
    ensures
        lifted(r) == sp_text_line(s@, p as int),
        advances(r, p as int, s@),
        r matches Ok((l, _)) ==> l.start <= l.end <= s@.len(),
{
    let a = skip_space(s, p);
    let (l, e) = read_full_line(s, a)?;
    let q = read_eol(s, e)?;
    Ok((l, q))
}

/// Reads the line that starts sub-section `tag` of the mesh named `parent`.
pub fn read_subsection(s: &[char], p: usize, tag: &str, name: SubSectionName, parent: Span) -> (r:
    Result<(Span, usize), SmvError>)
    requires
        p <= s@.len(),
    ensures
        lifted(r) == sp_subsection(s@, p as int, tag@, name, parent),
        advances(r, p as int, s@),
{
    let (l, q) = read_text_line(s, p)?;
    if text_is(s, l, tag) {
        Ok((l, q))
    } else {
        Err(SmvError::MissingSubSection { parent, name, found: Some(l) })
    }
}

/// Reads an optional colour and alpha value.
pub fn read_rgba(s: &[char], p: usize) -> (r: (Option<((Vec3<Span>, Span), Span)>, usize))
    requires
        p <= s@.len(),
    ensures
        (r.0, r.1 as int) == sp_rgba(s@, p as int),
        p <= r.1 <= s@.len(),
{
    match read_vec3f(s, skip_space(s, p)) {
        Ok((v, w)) => match read_float(s, skip_space(s, w)) {
            Ok(f) => {
                let e = skip_space(s, f.end);
                (Some(((v, f), Span { start: p, end: e })), e)
            },
            Err(_) => (None, p),
        },
        Err(_) => (None, p),
    }
}

/// Reads the first line of an obstruction.
pub fn read_obst_half(s: &[char], p: usize, dto: Vec3<Span>) -> (r: Result<(HalfObst, usize), SmvError>)
    requires
        p <= s@.len(),
    ensures
        lifted(r) == sp_obst_half(s@, p as int, dto),
        advances(r, p as int, s@),
{
    let a0 = skip_space(s, p);
    let (b, q1) = read_bounds3f(s, skip_space(s, a0))?;
    let a2 = skip_space(s, q1);
    let (x, t) = read_i32(s, a2)?;
    if x == 0 {
        return Err(SmvError::SyntaxNonDiagnostic { position: a2 });
    }
    let (surf, q3) = read_surfaces3i(s, skip_space(s, t.end))?;
    let a4 = skip_space(s, q3);
    let (to, q4) = match read_vec3f(s, a4) {
        Ok((v, q)) => (v, q),
        Err(_) => (dto, a4),
    };
    let a5 = skip_space(s, q4);
    let (name, q5) = match read_tag(s, a5, "!") {
        Ok(q) => match read_full_line(s, q) {
            Ok((sp, q2)) => (Some(sp), q2),
            Err(_) => (None, a5),
        },
        Err(_) => (None, a5),
    };
    let id: u32 = if x < 0 {
        if x == i32::MIN {
            0x8000_0000
        } else {
            (-x) as u32
        }
    } else {
        x as u32
    };
    let q = read_eol(s, skip_space(s, q5))?;
    Ok(
        (
            HalfObst {
                name,
                id,
                is_hole: x < 0,
                bounds: b,
                texture_origin: to,
                side_surfaces: surf,
            },
            q,
        ),
    )
}

/// Reads the second line of obstruction `h`.
pub fn read_obst_full(s: &[char], p: usize, h: HalfObst) -> (r: Result<(Obst, usize), SmvError>)
    requires
        p <= s@.len(),
    ensures
        lifted(r) == sp_obst_full(s@, p as int, h),
        advances(r, p as int, s@),
{
    let a0 = skip_space(s, p);
    let (bi, q1) = read_bounds3i(s, skip_space(s, a0))?;
    let (ci, ct) = read_i32(s, skip_space(s, q1))?;
    let (bt, t3) = read_i32(s, skip_space(s, ct.end))?;
    let (rgba, q4) = read_rgba(s, skip_space(s, t3.end));
    let q = read_eol(s, skip_space(s, q4))?;
    if (ci == -3) != rgba.is_some() {
        return Err(
            SmvError::InvalidObstColor {
                color_index: ct,
                color: match rgba {
                    Some((_, sp)) => Some(sp),
                    None => None,
                },
            },
        );
    }
    Ok(
        (
            Obst {
                name: h.name,
                id: h.id,
                is_hole: h.is_hole,
                bounds: h.bounds,
                texture_origin: h.texture_origin,
                side_surfaces: h.side_surfaces,
                bounds_idx: bi,
                color_index: ci,
                block_type: bt,
                rgba: match rgba {
                    Some((c, _)) => Some(c),
                    None => None,
                },
            },
            q,
        ),
    )
}

/// Reads the obstructions of a mesh.
pub fn read_obsts(s: &[char], p: usize, dto: Vec3<Span>) -> (r: Result<(Vec<Obst>, usize), SmvError>)
    requires
        p <= s@.len(),
    ensures
        lifted_vec(r) == sp_obsts(s@, p as int, dto),
        r matches Ok((_, q)) ==> p <= q <= s@.len(),
{
    let (n, q0) = read_usize_line(s, p)?;
    let ghost hstep = obst_half_step(s@, dto);
    let mut hs: Vec<HalfObst> = Vec::new();
    let mut q = q0;
    let mut i: usize = 0;
    while i < n
        invariant
            i <= n,
            p <= q0 <= q <= s@.len(),
            hstep == obst_half_step(s@, dto),
            sp_usize_line(s@, p as int) == Ok::<(usize, int), SmvError>((n, q0 as int)),
            repeat_spec(hstep, q0 as int, i as nat) == Ok::<(Seq<HalfObst>, int), SmvError>(
                (hs@, q as int),
            ),
        decreases n - i,
    {
        match read_obst_half(s, q, dto) {
            Ok((h, q2)) => {
                hs.push(h);
                q = q2;
            },
            Err(e) => {
                proof {
                    lemma_repeat_err(hstep, q0 as int, (i + 1) as nat, n as nat);
                }
                return Err(e);
            },
        }
        i = i + 1;
    }
    proof {
        lemma_repeat_len(hstep, q0 as int, n as nat);
    }
    let ghost fstep = obst_full_step(s@, hs@);
    let q1 = q;
    let mut obsts: Vec<Obst> = Vec::new();
    let mut j: usize = 0;
    while j < n
        invariant
            j <= n == hs@.len(),
            p <= q1 <= q <= s@.len(),
            fstep == obst_full_step(s@, hs@),
            hstep == obst_half_step(s@, dto),
            sp_usize_line(s@, p as int) == Ok::<(usize, int), SmvError>((n, q0 as int)),
            repeat_spec(hstep, q0 as int, n as nat) == Ok::<(Seq<HalfObst>, int), SmvError>(
                (hs@, q1 as int),
            ),
            obsts@.len() == j,
            repeat_spec(fstep, q1 as int, j as nat) == Ok::<(Seq<Obst>, int), SmvError>(
                (obsts@, q as int),
            ),
        decreases n - j,
    {
        match read_obst_full(s, q, hs[j]) {
            Ok((o, q2)) => {
                obsts.push(o);
                q = q2;
            },
            Err(e) => {
                proof {
                    lemma_repeat_err(fstep, q1 as int, (j + 1) as nat, n as nat);
                }
                return Err(e);
            },
        }
        j = j + 1;
    }
    Ok((obsts, q))
}

/// Reads the first line of vent number `i`.
pub fn read_vent_half(s: &[char], p: usize, i: usize, total: usize, nnd: usize) -> (r: Result<
    (HalfVent, usize),
    SmvError,
>)
    requires
        p <= s@.len(),
    ensures
        lifted(r) == sp_vent_half(s@, p as int, i as int, total, nnd),
        advances(r, p as int, s@),
{
    let a0 = skip_space(s, p);
    let (b, q1) = read_bounds3f(s, skip_space(s, a0))?;
    let (vi, t2) = read_i32(s, skip_space(s, q1))?;
    let (su, t3) = read_i32(s, skip_space(s, t2.end))?;
    let wend = skip_space(s, t3.end);
    let c = skip_space(s, wend);
    let (to, after) = match read_vec3f(s, c) {
        Ok((v, vend)) => (Some((v, Span { start: c, end: vend })), vend),
        Err(_) => (None, wend),
    };
    let q = read_eol(s, after)?;
    if (i < nnd) != to.is_some() {
        let (va, vb) = trim_bounds(s, a0, wend);
        return Err(
            SmvError::VentTextureOrigin {
                vent: Span { start: va, end: vb },
                num_vents_total: total,
                num_non_dummies: nnd,
                vent_line_number: i,
                texture_origin: match to {
                    Some((_, sp)) => {
                        let (ta, tb) = trim_bounds(s, sp.start, sp.end);
                        Some(Span { start: ta, end: tb })
                    },
                    None => None,
                },
            },
        );
    }
    Ok(
        (
            HalfVent {
                bounds: b,
                vent_index: vi,
                surface: su,
                texture_origin: match to {
                    Some((v, _)) => Some(v),
                    None => None,
                },
            },
            q,
        ),
    )
}

/// Reads the second line of a vent or circular vent.
pub fn read_vent_tail(s: &[char], p: usize) -> (r: Result<
    ((Bounds3<i32>, i32, i32, Option<(Vec3<Span>, Span)>), usize),
    SmvError,
>)
    requires
        p <= s@.len(),
    ensures
        lifted(r) == sp_vent_tail(s@, p as int),
        advances(r, p as int, s@),
{
    let a0 = skip_space(s, p);
    let (bi, q1) = read_bounds3i(s, skip_space(s, a0))?;
    let (ci, t2) = read_i32(s, skip_space(s, q1))?;
    let (dt, t3) = read_i32(s, skip_space(s, t2.end))?;
    let (rgba, q4) = read_rgba(s, skip_space(s, t3.end));
    let q = read_eol(s, skip_space(s, q4))?;
    Ok(
        (
            (
                bi,
                ci,
                dt,
                match rgba {
                    Some((c, _)) => Some(c),
                    None => None,
                },
            ),
            q,
        ),
    )
}

/// Reads the vents of a mesh.
pub fn read_vents(s: &[char], p: usize) -> (r: Result<(Vec<Vent>, usize), SmvError>)
    requires
        p <= s@.len(),
    ensures
        lifted_vec(r) == sp_vents(s@, p as int),
        r matches Ok((_, q)) ==> p <= q <= s@.len(),
{
    let a0 = skip_space(s, p);
    let (total, t1) = read_usize(s, skip_space(s, a0))?;
    let (dummies, t2) = read_usize(s, skip_space(s, t1.end))?;
    let q0 = read_eol(s, skip_space(s, t2.end))?;
    assert(sp_vents_head(s@, p as int) == Ok::<((usize, usize), int), SmvError>(
        ((total, dummies), q0 as int),
    ));
    let nnd = total.wrapping_sub(dummies);
    let ghost hstep = vent_half_step(s@, total, nnd);
    let mut hs: Vec<HalfVent> = Vec::new();
    let mut q = q0;
    let mut i: usize = 0;
    while i < total
        invariant
            i <= total,
            p <= q0 <= q <= s@.len(),
            hstep == vent_half_step(s@, total, nnd),
            nnd == vstd::wrapping::usize_specs::wrapping_sub(total, dummies),
            sp_vents_head(s@, p as int) == Ok::<((usize, usize), int), SmvError>(
                ((total, dummies), q0 as int),
            ),
            hs@.len() == i,
            repeat_spec(hstep, q0 as int, i as nat) == Ok::<(Seq<HalfVent>, int), SmvError>(
                (hs@, q as int),
            ),
        decreases total - i,
    {
        match read_vent_half(s, q, i, total, nnd) {
            Ok((h, q2)) => {
                hs.push(h);
                q = q2;
            },
            Err(e) => {
                proof {
                    lemma_repeat_err(hstep, q0 as int, (i + 1) as nat, total as nat);
                }
                return Err(e);
            },
        }
        i = i + 1;
    }
    let ghost fstep = vent_full_step(s@, hs@);
    let q1 = q;
    let mut vents: Vec<Vent> = Vec::new();
    let mut j: usize = 0;
    while j < total
        invariant
            j <= total == hs@.len(),
            p <= q1 <= q <= s@.len(),
            fstep == vent_full_step(s@, hs@),
            hstep == vent_half_step(s@, total, nnd),
            nnd == vstd::wrapping::usize_specs::wrapping_sub(total, dummies),
            sp_vents_head(s@, p as int) == Ok::<((usize, usize), int), SmvError>(
                ((total, dummies), q0 as int),
            ),
            repeat_spec(hstep, q0 as int, total as nat) == Ok::<(Seq<HalfVent>, int), SmvError>(
                (hs@, q1 as int),
            ),
            vents@.len() == j,
            repeat_spec(fstep, q1 as int, j as nat) == Ok::<(Seq<Vent>, int), SmvError>(
                (vents@, q as int),
            ),
        decreases total - j,
    {
        let h = hs[j];
        match read_vent_tail(s, q) {
            Ok(((bi, ci, dt, rgba), q2)) => {
                vents.push(
                    Vent {
                        bounds: h.bounds,
                        vent_index: h.vent_index,
                        surface: h.surface,
                        texture_origin: h.texture_origin,
                        bounds_idx: bi,
                        color_index: ci,
                        draw_type: dt,
                        rgba,
                    },
                );
                q = q2;
            },
            Err(e) => {
                proof {
                    lemma_repeat_err(fstep, q1 as int, (j + 1) as nat, total as nat);
                }
                return Err(e);
            },
        }
        j = j + 1;
    }
    Ok((vents, q))
}

/// Reads the first line of a circular vent.
pub fn read_cvent_half(s: &[char], p: usize) -> (r: Result<(HalfCircularVent, usize), SmvError>)
    requires
        p <= s@.len(),
    ensures
        lifted(r) == sp_cvent_half(s@, p as int),
        advances(r, p as int, s@),
{
    let a0 = skip_space(s, p);
    let (b, q1) = read_bounds3f(s, skip_space(s, a0))?;
    let (vi, t2) = read_i32(s, skip_space(s, q1))?;
    let (su, t3) = read_i32(s, skip_space(s, t2.end))?;
    let (o, q4) = read_vec3f(s, skip_space(s, t3.end))?;
    let r = read_float(s, skip_space(s, q4))?;
    let q = read_eol(s, skip_space(s, r.end))?;
    Ok((HalfCircularVent { bounds: b, vent_index: vi, surface: su, origin: o, radius: r }, q))
}

/// Reads the circular vents of a mesh.
pub fn read_cvents(s: &[char], p: usize) -> (r: Result<(Vec<CircularVent>, usize), SmvError>)
    requires
        p <= s@.len(),
    ensures
        lifted_vec(r) == sp_cvents(s@, p as int),
        r matches Ok((_, q)) ==> p <= q <= s@.len(),
{
    let (n, q0) = read_usize_line(s, p)?;
    let ghost hstep = cvent_half_step(s@);
    let mut hs: Vec<HalfCircularVent> = Vec::new();
    let mut q = q0;
    let mut i: usize = 0;
    while i < n
        invariant
            i <= n,
            p <= q0 <= q <= s@.len(),
            hstep == cvent_half_step(s@),
            sp_usize_line(s@, p as int) == Ok::<(usize, int), SmvError>((n, q0 as int)),
            hs@.len() == i,
            repeat_spec(hstep, q0 as int, i as nat) == Ok::<(Seq<HalfCircularVent>, int), SmvError>(
                (hs@, q as int),
            ),
        decreases n - i,
    {
        match read_cvent_half(s, q) {
            Ok((h, q2)) => {
                hs.push(h);
                q = q2;
            },
            Err(e) => {
                proof {
                    lemma_repeat_err(hstep, q0 as int, (i + 1) as nat, n as nat);
                }
                return Err(e);
            },
        }
        i = i + 1;
    }
    let ghost fstep = cvent_full_step(s@, hs@);
    let q1 = q;
    let mut vents: Vec<CircularVent> = Vec::new();
    let mut j: usize = 0;
    while j < n
        invariant
            j <= n == hs@.len(),
            p <= q1 <= q <= s@.len(),
            fstep == cvent_full_step(s@, hs@),
            hstep == cvent_half_step(s@),
            sp_usize_line(s@, p as int) == Ok::<(usize, int), SmvError>((n, q0 as int)),
            repeat_spec(hstep, q0 as int, n as nat) == Ok::<(Seq<HalfCircularVent>, int), SmvError>(
                (hs@, q1 as int),
            ),
            vents@.len() == j,
            repeat_spec(fstep, q1 as int, j as nat) == Ok::<(Seq<CircularVent>, int), SmvError>(
                (vents@, q as int),
            ),
        decreases n - j,
    {
        let h = hs[j];
        match read_vent_tail(s, q) {
            Ok(((bi, ci, dt, rgba), q2)) => {
                vents.push(
                    CircularVent {
                        bounds: h.bounds,
                        vent_index: h.vent_index,
                        surface: h.surface,
                        origin: h.origin,
                        radius: h.radius,
                        bounds_idx: bi,
                        color_index: ci,
                        draw_type: dt,
                        rgba,
                    },
                );
                q = q2;
            },
            Err(e) => {
                proof {
                    lemma_repeat_err(fstep, q1 as int, (j + 1) as nat, n as nat);
                }
                return Err(e);
            },
        }
        j = j + 1;
    }
    Ok((vents, q))
}

/// A line of a cell-boundary sub-section: the index `k` and the boundary's coordinate.
pub open spec fn sp_trn_line(s: Seq<char>, p: int, header: Span, k: int) -> Result<(Span, int), SmvError> {
    let a0 = space_end(s, p);
    match sp_usize(s, space_end(s, a0)) {
        Ok((i, isp)) => match sp_float(s, space_end(s, isp.end as int)) {
            Ok(f) => match in_line(s, Ok(((), space_end(s, f.end as int)))) {
                Ok((_, q)) => if i != k {
                    Err(
                        SmvError::SuspiciousIndex {
                            inside_subsection: header,
                            index: isp,
                            expected: k as usize,
                        },
                    )
                } else {
                    Ok((f, q))
                },
                Err(e) => Err(e),
            },
            Err(e) => Err(e),
        },
        Err(e) => Err(e),
    }
}

/// Reading lines of text.
pub open spec fn text_line_step(s: Seq<char>) -> spec_fn(Seq<Span>, int) -> Result<(Span, int), SmvError> {
    |acc: Seq<Span>, q: int| sp_text_line(s, q)
}

/// Reading the lines of a cell-boundary sub-section, numbered from 0.
pub open spec fn trn_step(s: Seq<char>, header: Span) -> spec_fn(Seq<Span>, int) -> Result<
    (Span, int),
    SmvError,
> {
    |acc: Seq<Span>, q: int| sp_trn_line(s, q, header, acc.len() as int)
}

/// A cell-boundary sub-section `tag` of the mesh named `parent` with `len` cells: its header,
/// a number of lines that are skipped, then `len + 1` boundaries.
pub open spec fn sp_trn(
    s: Seq<char>,
    p: int,
    tag: Seq<char>,
    sub: SubSectionName,
    parent: Span,
    len: u32,
) -> Result<(Seq<Span>, int), SmvError> {
    match sp_subsection(s, p, tag, sub, parent) {
        Ok((header, q1)) => match sp_usize_line(s, q1) {
            Ok((n, q2)) => match repeat_spec(text_line_step(s), q2, n as nat) {
                Ok((_, q3)) => repeat_spec(trn_step(s, header), q3, len as nat + 1),
                Err(e) => Err(e),
            },
            Err(e) => Err(e),
        },
        Err(e) => Err(e),
    }
}

/// The lines of a mesh up to its cell boundaries: its offset, `GRID` and name, its number of
/// cells along each axis, `PDIM`, and its box and colour.
pub open spec fn sp_mesh_head(s: Seq<char>, p: int) -> Result<
    ((Vec3<Span>, Span, Vec3<u32>, Bounds3<Span>, Vec3<Span>), int),
    SmvError,
> {
    match in_line(s, sp_vec3f(s, space_end(s, p))) {
        Ok((offset, q1)) => {
            let a = space_end(s, q1);
            match sp_tag(s, space_end(s, a), "GRID"@) {
                Ok(c) => match sp_full_line(s, space_end(s, c)) {
                    Ok((name, e)) => match in_line(s, Ok(((), space_end(s, e)))) {
                        Ok((_, q2)) => {
                            let a2 = space_end(s, q2);
                            match sp_vec3u(s, space_end(s, a2)) {
                                Ok((dims, c2)) => match sp_i32(s, space_end(s, c2)) {
                                    Ok((_, t)) => match in_line(
                                        s,
                                        Ok(((), space_end(s, t.end as int))),
                                    ) {
                                        Ok((_, q3)) => match sp_subsection(
                                            s,
                                            q3,
                                            "PDIM"@,
                                            SubSectionName::Pdim,
                                            name,
                                        ) {
                                            Ok((_, q4)) => {
                                                let a4 = space_end(s, q4);
                                                match sp_bounds3f(s, space_end(s, a4)) {
                                                    Ok((bounds, c4)) => match sp_vec3f(
                                                        s,
                                                        space_end(s, c4),
                                                    ) {
                                                        Ok((rgb, e4)) => in_line(
                                                            s,
                                                            Ok(
                                                                (
                                                                    (offset, name, dims, bounds, rgb),
                                                                    space_end(s, e4),
                                                                ),
                                                            ),
                                                        ),
                                                        Err(e) => Err(e),
                                                    },
                                                    Err(e) => Err(e),
                                                }
                                            },
                                            Err(e) => Err(e),
                                        },
                                        Err(e) => Err(e),
                                    },
                                    Err(e) => Err(e),
                                },
                                Err(e) => Err(e),
                            }
                        },
                        Err(e) => Err(e),
                    },
                    Err(e) => Err(e),
                },
                Err(e) => Err(e),
            }
        },
        Err(e) => Err(e),
    }
}

/// A mesh, starting at the line after `OFFSET`; `dto` is the texture origin of obstructions
/// that give none.
pub open spec fn sp_mesh(s: Seq<char>, p: int, dto: Vec3<Span>) -> Result<(MeshView, int), SmvError> {
    match sp_mesh_head(s, p) {
        Ok(((offset, name, dims, bounds, rgb), q1)) => match sp_trn(
            s,
            q1,
            "TRNX"@,
            SubSectionName::Trnx,
            name,
            dims.x,
        ) {
            Ok((tx, q2)) => match sp_trn(s, q2, "TRNY"@, SubSectionName::Trny, name, dims.y) {
                Ok((ty, q3)) => match sp_trn(s, q3, "TRNZ"@, SubSectionName::Trnz, name, dims.z) {
                    Ok((tz, q4)) => match sp_subsection(s, q4, "OBST"@, SubSectionName::Obst, name) {
                        Ok((_, q5)) => match sp_obsts(s, q5, dto) {
                            Ok((obsts, q6)) => match sp_subsection(
                                s,
                                q6,
                                "VENT"@,
                                SubSectionName::Vent,
                                name,
                            ) {
                                Ok((_, q7)) => match sp_vents(s, q7) {
                                    Ok((vents, q8)) => match sp_subsection(
                                        s,
                                        q8,
                                        "CVENT"@,
                                        SubSectionName::Cvent,
                                        name,
                                    ) {
                                        Ok((_, q9)) => match sp_cvents(s, q9) {
                                            Ok((cvents, q10)) => Ok(
                                                (
                                                    MeshView {
                                                        name,
                                                        offset,
                                                        dimensions: dims,
                                                        rgb,
                                                        bounds,
                                                        obsts,
                                                        trn: Vec3 { x: tx, y: ty, z: tz },
                                                        vents,
                                                        circular_vents: cvents,
                                                    },
                                                    q10,
                                                ),
                                            ),
                                            Err(e) => Err(e),
                                        },
                                        Err(e) => Err(e),
                                    },
                                    Err(e) => Err(e),
                                },
                                Err(e) => Err(e),
                            },
                            Err(e) => Err(e),
                        },
                        Err(e) => Err(e),
                    },
                    Err(e) => Err(e),
                },
                Err(e) => Err(e),
            },
            Err(e) => Err(e),
        },
        Err(e) => Err(e),
    }
}

/// Reads a line of a cell-boundary sub-section.
pub fn read_trn_line(s: &[char], p: usize, header: Span, k: usize) -> (r: Result<(Span, usize), SmvError>)
    requires
        p <= s@.len(),
    ensures
        lifted(r) == sp_trn_line(s@, p as int, header, k as int),
        advances(r, p as int, s@),
{
    let a0 = skip_space(s, p);
    let (i, isp) = read_usize(s, skip_space(s, a0))?;
    let f = read_float(s, skip_space(s, isp.end))?;
    let q = read_eol(s, skip_space(s, f.end))?;
    if i != k {
        return Err(SmvError::SuspiciousIndex { inside_subsection: header, index: isp, expected: k });
    }
    Ok((f, q))
}

/// Reads a cell-boundary sub-section.
pub fn read_trn(s: &[char], p: usize, tag: &str, sub: SubSectionName, parent: Span, len: u32) -> (r:
    Result<(Vec<Span>, usize), SmvError>)
    requires
        p <= s@.len(),
    ensures
        lifted_vec(r) == sp_trn(s@, p as int, tag@, sub, parent, len),
        r matches Ok((_, q)) ==> p <= q <= s@.len(),
{
    let (header, q1) = read_subsection(s, p, tag, sub, parent)?;
    let (n, q2) = read_usize_line(s, q1)?;
    let ghost lstep = text_line_step(s@);
    let ghost skipped: Seq<Span> = Seq::empty();
    let mut q = q2;
    let mut i: usize = 0;
    while i < n
        invariant
            i <= n,
            p <= q2 <= q <= s@.len(),
            lstep == text_line_step(s@),
            sp_subsection(s@, p as int, tag@, sub, parent) == Ok::<(Span, int), SmvError>(
                (header, q1 as int),
            ),
            sp_usize_line(s@, q1 as int) == Ok::<(usize, int), SmvError>((n, q2 as int)),
            repeat_spec(lstep, q2 as int, i as nat) == Ok::<(Seq<Span>, int), SmvError>(
                (skipped, q as int),
            ),
        decreases n - i,
    {
        match read_text_line(s, q) {
            Ok((l, q3)) => {
                proof {
                    skipped = skipped.push(l);
                }
                q = q3;
            },
            Err(e) => {
                proof {
                    lemma_repeat_err(lstep, q2 as int, (i + 1) as nat, n as nat);
                }
                return Err(e);
            },
        }
        i = i + 1;
    }
    let ghost tstep = trn_step(s@, header);
    let q3 = q;
    let count: u64 = len as u64 + 1;
    let mut v: Vec<Span> = Vec::new();
    let mut k: u64 = 0;
    while k < count
        invariant
            k <= count == len + 1,
            p <= q3 <= q <= s@.len(),
            tstep == trn_step(s@, header),
            lstep == text_line_step(s@),
            sp_subsection(s@, p as int, tag@, sub, parent) == Ok::<(Span, int), SmvError>(
                (header, q1 as int),
            ),
            sp_usize_line(s@, q1 as int) == Ok::<(usize, int), SmvError>((n, q2 as int)),
            repeat_spec(lstep, q2 as int, n as nat) == Ok::<(Seq<Span>, int), SmvError>(
                (skipped, q3 as int),
            ),
            v@.len() == k,
            repeat_spec(tstep, q3 as int, k as nat) == Ok::<(Seq<Span>, int), SmvError>(
                (v@, q as int),
            ),
        decreases count - k,
    {
        match read_trn_line(s, q, header, k as usize) {
            Ok((f, q4)) => {
                v.push(f);
                q = q4;
            },
            Err(e) => {
                proof {
                    lemma_repeat_err(tstep, q3 as int, (k + 1) as nat, count as nat);
                }
                return Err(e);
            },
        }
        k = k + 1;
    }
    Ok((v, q))
}

/// Reads the lines of a mesh up to its cell boundaries.
pub fn read_mesh_head(s: &[char], p: usize) -> (r: Result<
    ((Vec3<Span>, Span, Vec3<u32>, Bounds3<Span>, Vec3<Span>), usize),
    SmvError,
>)
    requires
        p <= s@.len(),
    ensures
        lifted(r) == sp_mesh_head(s@, p as int),
        advances(r, p as int, s@),
{
    let (offset, e0) = read_vec3f(s, skip_space(s, p))?;
    let q1 = read_eol(s, e0)?;
    let a = skip_space(s, q1);
    let c = read_tag(s, skip_space(s, a), "GRID")?;
    let (name, e) = read_full_line(s, skip_space(s, c))?;
    let q2 = read_eol(s, skip_space(s, e))?;
    let a2 = skip_space(s, q2);
    let (dims, c2) = read_vec3u(s, skip_space(s, a2))?;
    let (_, t) = read_i32(s, skip_space(s, c2))?;
    let q3 = read_eol(s, skip_space(s, t.end))?;
    let (_, q4) = read_subsection(s, q3, "PDIM", SubSectionName::Pdim, name)?;
    let a4 = skip_space(s, q4);
    let (bounds, c4) = read_bounds3f(s, skip_space(s, a4))?;
    let (rgb, e4) = read_vec3f(s, skip_space(s, c4))?;
    let q5 = read_eol(s, skip_space(s, e4))?;
    Ok(((offset, name, dims, bounds, rgb), q5))
}

/// Reads a mesh, starting at the line after `OFFSET`.
pub fn read_mesh(s: &[char], p: usize, dto: Vec3<Span>) -> (r: Result<(Mesh, usize), SmvError>)
    requires
        p <= s@.len(),
    ensures
        match r {
            Ok((m, q)) => sp_mesh(s@, p as int, dto) == Ok::<(MeshView, int), SmvError>((m@, q as int))
                && p <= q <= s@.len(),
            Err(e) => sp_mesh(s@, p as int, dto) == Err::<(MeshView, int), SmvError>(e),
        },
{
    let ((offset, name, dims, bounds, rgb), q1) = read_mesh_head(s, p)?;
    let (tx, q2) = read_trn(s, q1, "TRNX", SubSectionName::Trnx, name, dims.x)?;
    let (ty, q3) = read_trn(s, q2, "TRNY", SubSectionName::Trny, name, dims.y)?;
    let (tz, q4) = read_trn(s, q3, "TRNZ", SubSectionName::Trnz, name, dims.z)?;
    let (_, q5) = read_subsection(s, q4, "OBST", SubSectionName::Obst, name)?;
    let (obsts, q6) = read_obsts(s, q5, dto)?;
    let (_, q7) = read_subsection(s, q6, "VENT", SubSectionName::Vent, name)?;
    let (vents, q8) = read_vents(s, q7)?;
    let (_, q9) = read_subsection(s, q8, "CVENT", SubSectionName::Cvent, name)?;
    let (cvents, q10) = read_cvents(s, q9)?;
    let m = Mesh {
        name,
        offset,
        dimensions: dims,
        rgb,
        bounds,
        obsts,
        trn: Vec3 { x: tx, y: ty, z: tz },
        vents,
        circular_vents: cvents,
    };
    Ok((m, q10))
}

} // verus!
