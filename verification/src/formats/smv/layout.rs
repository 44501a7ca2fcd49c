//! Where in a `.smv` file the values read for a surface and for a mesh's cell boundaries come
//! from: each reader moves forward through the file, so values read one after the other lie
//! one after the other in it.
use vstd::prelude::*;

use crate::formats::num::is_float_lexeme;
use crate::formats::smv::err::{SmvError, SubSectionName};
use crate::formats::smv::lex::{
    eol_pos, is_space, line_ending, repeat_spec, sep_end, sp_eol, sp_float, sp_full_line,
    sp_token, sp_usize, space_end, text, then_eol, token_end, Span,
};
use crate::formats::smv::mesh::{
    sp_mesh, sp_subsection, sp_text_line, sp_trn, sp_trn_line, sp_usize_line, text_line_step,
    trn_step,
};
use crate::formats::smv::model::StateView;
use crate::formats::smv::sections::sp_surface;
use crate::formats::smv::values::sp_floats;
use crate::geom::Vec3;

verus! {

/// Whether `p` is a position within `s` (its end included).
pub open spec fn pos_ok(s: Seq<char>, p: int) -> bool {
    0 <= p <= s.len()
}

/// Whether every character of `s[a..b]` is a blank within a line.
pub open spec fn blanks(s: Seq<char>, a: int, b: int) -> bool {
    forall|k: int| a <= k < b ==> is_space(#[trigger] s[k])
}

/// Whether the spans `v` lie in order within `s[p..q]`, each holding at least one character.
pub open spec fn spans_in_order(v: Seq<Span>, p: int, q: int) -> bool {
    &&& forall|i: int| 0 <= i < v.len() ==> p <= (#[trigger] v[i]).start < v[i].end <= q
    &&& forall|i: int, j: int| 0 <= i < j < v.len() ==> (#[trigger] v[i]).end <= (#[trigger] v[j]).start
}

proof fn lemma_space_end(s: Seq<char>, p: int)
    requires
        pos_ok(s, p),
    ensures
        p <= space_end(s, p) <= s.len(),
        blanks(s, p, space_end(s, p)),
    decreases s.len() - p,
{
    if p < s.len() && is_space(s[p]) {
        lemma_space_end(s, p + 1);
    }
}

proof fn lemma_sep_end(s: Seq<char>, p: int)
    requires
        pos_ok(s, p),
    ensures
        p <= sep_end(s, p) <= s.len(),
    decreases s.len() - p,
{
    if p < s.len() && crate::formats::smv::lex::is_sep(s[p]) {
        lemma_sep_end(s, p + 1);
    }
}

proof fn lemma_token_end(s: Seq<char>, p: int)
    requires
        pos_ok(s, p),
    ensures
        p <= token_end(s, p) <= s.len(),
    decreases s.len() - p,
{
    if p < s.len() && !crate::formats::smv::lex::is_sep(s[p]) {
        lemma_token_end(s, p + 1);
    }
}

proof fn lemma_eol_pos(s: Seq<char>, p: int)
    requires
        pos_ok(s, p),
    ensures
        p <= eol_pos(s, p) <= s.len(),
    decreases s.len() - p,
{
    if p < s.len() && !crate::formats::smv::lex::is_eol(s[p]) {
        lemma_eol_pos(s, p + 1);
    }
}

/// The end of a line lies after the position it is read from, within the file.
proof fn lemma_then_eol<T>(s: Seq<char>, v: T, q: int)
    ensures
        then_eol(s, Ok::<(T, int), SmvError>((v, q))) matches Ok((_, e)) ==> q < e <= s.len() && 0
            < e,
{
    match line_ending(s, q) {
        Some(l) => {
            lemma_sep_end(s, l);
        },
        None => {},
    }
}

/// A token read at a position within the file is the characters up to its end.
proof fn lemma_token(s: Seq<char>, a: int)
    requires
        pos_ok(s, a),
        s.len() <= usize::MAX,
    ensures
        sp_token(s, a) matches Ok(t) ==> t.start == a && a < t.end && t.end == token_end(s, a)
            && t.end <= s.len(),
{
    lemma_token_end(s, a);
}

proof fn lemma_text_line(s: Seq<char>, p: int)
    requires
        pos_ok(s, p),
    ensures
        sp_text_line(s, p) matches Ok((_, q)) ==> p < q <= s.len(),
{
    lemma_space_end(s, p);
    let a = space_end(s, p);
    lemma_eol_pos(s, a);
    match sp_full_line(s, a) {
        Ok((l, e)) => lemma_then_eol(s, l, e),
        Err(_) => {},
    }
}

proof fn lemma_usize_line(s: Seq<char>, p: int)
    requires
        pos_ok(s, p),
        s.len() <= usize::MAX,
    ensures
        sp_usize_line(s, p) matches Ok((_, q)) ==> p < q <= s.len(),
{
    lemma_space_end(s, p);
    let a = space_end(s, p);
    lemma_token(s, a);
    match sp_usize(s, a) {
        Ok((v, t)) => lemma_then_eol(s, v, t.end as int),
        Err(_) => {},
    }
}

/// Repeating a reader that moves forward moves forward.
proof fn lemma_repeat_forward<T>(
    s: Seq<char>,
    step: spec_fn(Seq<T>, int) -> Result<(T, int), SmvError>,
    p: int,
    n: nat,
)
    requires
        pos_ok(s, p),
        forall|acc: Seq<T>, q: int|
            pos_ok(s, q) && (#[trigger] step(acc, q)) is Ok ==> q <= step(acc, q)->Ok_0.1 <= s.len(),
    ensures
        repeat_spec(step, p, n) matches Ok((_, q)) ==> p <= q <= s.len(),
    decreases n,
{
    if n > 0 {
        lemma_repeat_forward(s, step, p, (n - 1) as nat);
    }
}

/// Repeating a reader that gives spans in order, each after the position it is read from and
/// before the position it leaves, gives spans in order.
proof fn lemma_repeat_spans(
    s: Seq<char>,
    step: spec_fn(Seq<Span>, int) -> Result<(Span, int), SmvError>,
    p: int,
    n: nat,
)
    requires
        pos_ok(s, p),
        forall|acc: Seq<Span>, q: int|
            pos_ok(s, q) && (#[trigger] step(acc, q)) is Ok ==> {
                let (x, q2) = step(acc, q)->Ok_0;
                q <= x.start < x.end <= q2 <= s.len()
            },
    ensures
        repeat_spec(step, p, n) matches Ok((v, q)) ==> v.len() == n && spans_in_order(v, p, q)
            && p <= q <= s.len(),
    decreases n,
{
    if n > 0 {
        lemma_repeat_spans(s, step, p, (n - 1) as nat);
        match repeat_spec(step, p, (n - 1) as nat) {
            Ok((v, q)) => match step(v, q) {
                Ok((x, q2)) => {
                    let w = v.push(x);
                    assert forall|i: int| 0 <= i < w.len() implies p <= (#[trigger] w[i]).start
                        < w[i].end <= q2 by {
                        if i < v.len() {
                            assert(w[i] == v[i]);
                        }
                    }
                    assert forall|i: int, j: int| 0 <= i < j < w.len() implies (
                    #[trigger] w[i]).end <= (#[trigger] w[j]).start by {
                        assert(w[i] == v[i]);
                        if j < v.len() {
                            assert(w[j] == v[j]);
                        }
                    }
                },
                Err(_) => {},
            },
            Err(_) => {},
        }
    }
}

proof fn lemma_trn_line(s: Seq<char>, q: int, header: Span, k: int)
    requires
        pos_ok(s, q),
        s.len() <= usize::MAX,
    ensures
        sp_trn_line(s, q, header, k) matches Ok((f, q2)) ==> q <= f.start < f.end <= q2 <= s.len(),
{
    lemma_space_end(s, q);
    let a0 = space_end(s, q);
    lemma_space_end(s, a0);
    let a1 = space_end(s, a0);
    lemma_token(s, a1);
    match sp_usize(s, a1) {
        Ok((i, isp)) => {
            lemma_space_end(s, isp.end as int);
            let a2 = space_end(s, isp.end as int);
            lemma_token(s, a2);
            match sp_float(s, a2) {
                Ok(f) => {
                    lemma_space_end(s, f.end as int);
                    lemma_then_eol(s, (), space_end(s, f.end as int));
                },
                Err(_) => {},
            }
        },
        Err(_) => {},
    }
}

/// The boundaries read for a cell-boundary sub-section: one more than the cells, in order,
/// between where reading started and where it ended.
proof fn lemma_trn(s: Seq<char>, p: int, tag: Seq<char>, sub: SubSectionName, parent: Span, len: u32)
    requires
        pos_ok(s, p),
        s.len() <= usize::MAX,
    ensures
        sp_trn(s, p, tag, sub, parent, len) matches Ok((v, q)) ==> v.len() == len + 1
            && spans_in_order(v, p, q) && p <= q <= s.len(),
{
    lemma_text_line(s, p);
    match sp_subsection(s, p, tag, sub, parent) {
        Ok((header, q1)) => {
            lemma_usize_line(s, q1);
            match sp_usize_line(s, q1) {
                Ok((n, q2)) => {
                    assert forall|acc: Seq<Span>, q: int|
                        pos_ok(s, q) && (#[trigger] text_line_step(s)(acc, q)) is Ok implies q
                        <= text_line_step(s)(acc, q)->Ok_0.1 <= s.len() by {
                        lemma_text_line(s, q);
                    }
                    lemma_repeat_forward(s, text_line_step(s), q2, n as nat);
                    match repeat_spec(text_line_step(s), q2, n as nat) {
                        Ok((_, q3)) => {
                            assert forall|acc: Seq<Span>, q: int|
                                pos_ok(s, q) && (#[trigger] trn_step(s, header)(acc, q)) is Ok implies {
                                let (x, q4) = trn_step(s, header)(acc, q)->Ok_0;
                                q <= x.start < x.end <= q4 <= s.len()
                            } by {
                                lemma_trn_line(s, q, header, acc.len() as int);
                            }
                            lemma_repeat_spans(s, trn_step(s, header), q3, len as nat + 1);
                            match repeat_spec(trn_step(s, header), q3, len as nat + 1) {
                                Ok((v, q)) => {
                                    assert forall|i: int| 0 <= i < v.len() implies p <= (
                                    #[trigger] v[i]).start < v[i].end <= q by {}
                                },
                                Err(_) => {},
                            }
                        },
                        Err(_) => {},
                    }
                },
                Err(_) => {},
            }
        },
        Err(_) => {},
    }
}

/// The cell boundaries of a mesh: along each axis one more than its number of cells, in the
/// order they stand in the file, those along X (under `TRNX`) before those along Y (under
/// `TRNY`), before those along Z (under `TRNZ`).
pub proof fn law_mesh_boundaries(s: Seq<char>, p: int, dto: Vec3<Span>)
    requires
        pos_ok(s, p),
        s.len() <= usize::MAX,
    ensures
        sp_mesh(s, p, dto) matches Ok((m, _)) ==> {
            &&& m.trn.x.len() == m.dimensions.x + 1
            &&& m.trn.y.len() == m.dimensions.y + 1
            &&& m.trn.z.len() == m.dimensions.z + 1
            &&& spans_in_order(m.trn.x + m.trn.y + m.trn.z, 0, s.len() as int)
        },
{
    match crate::formats::smv::mesh::sp_mesh_head(s, p) {
        Ok(((offset, name, dims, bounds, rgb), q1)) => {
            assert(pos_ok(s, q1)) by {
                reveal_with_fuel(crate::formats::smv::mesh::sp_mesh_head, 1);
                lemma_head_end(s, p);
            }
            lemma_trn(s, q1, "TRNX"@, SubSectionName::Trnx, name, dims.x);
            match sp_trn(s, q1, "TRNX"@, SubSectionName::Trnx, name, dims.x) {
                Ok((tx, q2)) => {
                    lemma_trn(s, q2, "TRNY"@, SubSectionName::Trny, name, dims.y);
                    match sp_trn(s, q2, "TRNY"@, SubSectionName::Trny, name, dims.y) {
                        Ok((ty, q3)) => {
                            lemma_trn(s, q3, "TRNZ"@, SubSectionName::Trnz, name, dims.z);
                            match sp_trn(s, q3, "TRNZ"@, SubSectionName::Trnz, name, dims.z) {
                                Ok((tz, q4)) => {
                                    lemma_concat_in_order(tx, ty, q1, q2, q3);
                                    lemma_concat_in_order(tx + ty, tz, q1, q3, q4);
                                    let all = tx + ty + tz;
                                    assert forall|i: int| 0 <= i < all.len() implies 0 <= (
                                    #[trigger] all[i]).start < all[i].end <= s.len() by {}
                                },
                                Err(_) => {},
                            }
                        },
                        Err(_) => {},
                    }
                },
                Err(_) => {},
            }
        },
        Err(_) => {},
    }
}

/// The head of a mesh ends at the end of a line within the file.
proof fn lemma_head_end(s: Seq<char>, p: int)
    ensures
        crate::formats::smv::mesh::sp_mesh_head(s, p) matches Ok((_, q)) ==> pos_ok(s, q),
{
    assert forall|x: int| #[trigger] sp_eol(s, x) is Ok implies 0 < sp_eol(s, x)->Ok_0 <= s.len() by {
        match line_ending(s, x) {
            Some(l) => lemma_sep_end(s, l),
            None => {},
        }
    }
}

/// Spans in order within `[p, q]` followed by spans in order within `[q, r]` are in order
/// within `[p, r]`.
proof fn lemma_concat_in_order(a: Seq<Span>, b: Seq<Span>, p: int, q: int, r: int)
    requires
        p <= q <= r,
        spans_in_order(a, p, q),
        spans_in_order(b, q, r),
    ensures
        spans_in_order(a + b, p, r),
{
    let c = a + b;
    assert forall|i: int| 0 <= i < c.len() implies p <= (#[trigger] c[i]).start < c[i].end <= r by {
        if i < a.len() {
            assert(c[i] == a[i]);
        } else {
            assert(c[i] == b[i - a.len()]);
        }
    }
    assert forall|i: int, j: int| 0 <= i < j < c.len() implies (#[trigger] c[i]).end <= (
    #[trigger] c[j]).start by {
        if j < a.len() {
            assert(c[i] == a[i] && c[j] == a[j]);
        } else if i < a.len() {
            assert(c[i] == a[i] && c[j] == b[j - a.len()]);
        } else {
            assert(c[i] == b[i - a.len()] && c[j] == b[j - a.len()]);
        }
    }
}

/// The numbers read by `sp_floats`: as many as asked, each a number, in order on the line,
/// with only blanks before each of them.
proof fn lemma_floats(s: Seq<char>, p: int, n: nat)
    requires
        pos_ok(s, p),
        s.len() <= usize::MAX,
    ensures
        sp_floats(s, p, n) matches Ok((v, q)) ==> {
            &&& v.len() == n
            &&& spans_in_order(v, p, q)
            &&& p <= q <= s.len()
            &&& n > 0 ==> q == v[n - 1].end
            &&& forall|i: int| 0 <= i < v.len() ==> is_float_lexeme(text(s, #[trigger] v[i]))
            &&& forall|i: int| 0 < i < v.len() ==> blanks(s, v[i - 1].end as int, (#[trigger] v[i]).start as int)
        },
    decreases n,
{
    if n > 0 {
        lemma_floats(s, p, (n - 1) as nat);
        match sp_floats(s, p, (n - 1) as nat) {
            Ok((v, q)) => {
                lemma_space_end(s, q);
                let a = space_end(s, q);
                lemma_token(s, a);
                match sp_float(s, a) {
                    Ok(t) => {
                        let w = v.push(t);
                        assert(w[w.len() - 1] == t);
                        assert forall|i: int| 0 <= i < w.len() implies p <= (#[trigger] w[i]).start
                            < w[i].end <= t.end by {
                            if i < v.len() {
                                assert(w[i] == v[i]);
                            }
                        }
                        assert forall|i: int, j: int| 0 <= i < j < w.len() implies (
                        #[trigger] w[i]).end <= (#[trigger] w[j]).start by {
                            assert(w[i] == v[i]);
                            if j < v.len() {
                                assert(w[j] == v[j]);
                            }
                        }
                        assert forall|i: int| 0 <= i < w.len() implies is_float_lexeme(
                            text(s, #[trigger] w[i]),
                        ) by {
                            if i < v.len() {
                                assert(w[i] == v[i]);
                            }
                        }
                        assert forall|i: int| 0 < i < w.len() implies blanks(
                            s,
                            w[i - 1].end as int,
                            (#[trigger] w[i]).start as int,
                        ) by {
                            assert(w[i - 1] == v[i - 1] || i == w.len() - 1);
                            if i < v.len() {
                                assert(w[i] == v[i] && w[i - 1] == v[i - 1]);
                            } else {
                                assert(w[i - 1] == v[i - 1]);
                            }
                        }
                    },
                    Err(_) => {},
                }
            },
            Err(_) => {},
        }
    }
}

/// The two numbers of a surface's second line: the melting temperature of water is the first
/// number on that line and the emissivity the second, each a number, in that order with only
/// blanks between them.
pub proof fn law_surface_numbers(s: Seq<char>, p: int, st: StateView)
    requires
        pos_ok(s, p),
        s.len() <= usize::MAX,
    ensures
        sp_surface(s, p, st) matches Ok((st2, _)) ==> {
            let sf = st2.surfaces.last();
            &&& st2.surfaces.len() == st.surfaces.len() + 1
            &&& st2.surfaces.drop_last() == st.surfaces
            &&& sf.water_melting_temp.start < sf.water_melting_temp.end
                <= sf.material_emissivity.start < sf.material_emissivity.end
            &&& blanks(s, sf.water_melting_temp.end as int, sf.material_emissivity.start as int)
            &&& is_float_lexeme(text(s, sf.water_melting_temp))
            &&& is_float_lexeme(text(s, sf.material_emissivity))
        },
{
    lemma_text_line(s, p);
    match sp_text_line(s, p) {
        Ok((name, q1)) => {
            lemma_space_end(s, q1);
            lemma_floats(s, space_end(s, q1), 2);
            match sp_floats(s, space_end(s, q1), 2) {
                Ok((tm, _)) => {
                    assert(tm[0].end <= tm[1].start);
                    assert(blanks(s, tm[0].end as int, tm[1].start as int));
                    assert(is_float_lexeme(text(s, tm[0])));
                    assert(is_float_lexeme(text(s, tm[1])));
                },
                Err(_) => {},
            }
        },
        Err(_) => {},
    }
}

} // verus!
