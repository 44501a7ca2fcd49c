//! Binary slice files (`.sf`): a two-dimensional cut through a mesh, one frame of values per
//! time step. Values and times are kept as the bit patterns of their little-endian `f32`s.
use vstd::prelude::*;


use crate::formats::read_ext::{
    fortran_string_ok, fortran_string_outcome, fortran_string_text, i32_le, u32_le, ByteReader,
    IoError, ReadStrErr, ReadValErr,
};
use crate::geom::{abs_diff_spec, dim_index, Bounds3, Dim3D, Vec2, Vec3};
use crate::text::trim_spec;

verus! {

/// Errors of reading a slice file.
#[derive(Debug)]
pub enum ParseErr {
    /// A string record is malformed.
    BadString(ReadStrErr),
    /// A record length differs from the one the format fixes.
    BadMagicNumber(ReadValErr),
    /// No dimension of the bounds has extent 1, or an upper bound is `i32::MAX`.
    BadBoundsSize,
    /// A frame's data record has the wrong byte count.
    BadFrameSize { read: u32, expected: u128 },
    /// The data ended inside a record.
    IoErr(IoError),
    /// No further frame starts here.
    NoBlocks,
}

/// What a slice covers: its bounds, the flat dimension, and the quantity shown.
#[derive(Debug)]
pub struct SliceInfo {
    pub bounds: Bounds3<i32>,
    pub flat_dim: Dim3D,
    pub quantity: String,
    pub short_name: String,
    pub units: String,
}

/// The first of the two dimensions that span a slice whose flat dimension is `flat`.
pub open spec fn dim_i_of(flat: Dim3D) -> Dim3D {
    if flat == Dim3D::X {
        Dim3D::Y
    } else {
        Dim3D::X
    }
}

/// The second of the two dimensions that span a slice whose flat dimension is `flat`.
pub open spec fn dim_j_of(flat: Dim3D) -> Dim3D {
    if flat == Dim3D::Z {
        Dim3D::Y
    } else {
        Dim3D::Z
    }
}

/// The extent of bounds along each axis.
pub open spec fn extent(b: Bounds3<i32>, d: Dim3D) -> int {
    abs_diff_spec(b.min.at(d), b.max.at(d))
}

impl SliceInfo {
    /// The first dimension spanning the slice.
    pub fn dim_i(&self) -> (r: Dim3D)
        ensures
            r == dim_i_of(self.flat_dim),
    {
        if self.flat_dim == Dim3D::X {
            Dim3D::Y
        } else {
            Dim3D::X
        }
    }

    /// The second dimension spanning the slice.
    pub fn dim_j(&self) -> (r: Dim3D)
        ensures
            r == dim_j_of(self.flat_dim),
    {
        if self.flat_dim == Dim3D::Z {
            Dim3D::Y
        } else {
            Dim3D::Z
        }
    }

    /// The extent of the bounds along the flat dimension.
    pub fn flat_dim_pos(&self) -> (r: u32)
        ensures
            r == extent(self.bounds, self.flat_dim),
    {
        self.bounds.area().get(self.flat_dim)
    }

    /// The extent of the bounds along the first spanning dimension.
    pub fn dim_i_len(&self) -> (r: u32)
        ensures
            r == extent(self.bounds, dim_i_of(self.flat_dim)),
    {
        self.bounds.area().get(self.dim_i())
    }

    /// The extent of the bounds along the second spanning dimension.
    pub fn dim_j_len(&self) -> (r: u32)
        ensures
            r == extent(self.bounds, dim_j_of(self.flat_dim)),
    {
        self.bounds.area().get(self.dim_j())
    }

    /// The extents along the two spanning dimensions.
    pub fn area(&self) -> (r: Vec2<u32>)
        ensures
            r.x == extent(self.bounds, dim_i_of(self.flat_dim)),
            r.y == extent(self.bounds, dim_j_of(self.flat_dim)),
    {
        Vec2::new(self.dim_i_len(), self.dim_j_len())
    }
}

/// One time step of a slice: the time and the values, row by row along the first spanning
/// dimension.
#[derive(Debug, Clone, PartialEq, Eq)]
pub struct SliceFrame {
    pub time: u32,
    pub values: Vec<u32>,
}

/// The frames of a slice over time: times, and values indexed by time step, then by the first
/// and second spanning dimension.
#[derive(Debug, Clone, PartialEq, Eq)]
pub struct TimeSeries2 {
    pub name: String,
    pub unit: String,
    pub time_in_seconds: Vec<u32>,
    pub values: Vec<u32>,
    pub steps: usize,
    pub dim_i: usize,
    pub dim_j: usize,
}

/// A slice: what it covers and its data.
#[derive(Debug)]
pub struct Slice {
    pub info: SliceInfo,
    pub data: TimeSeries2,
}

/// The `k`th little-endian `u32` from position `p`.
pub open spec fn word_at(s: Seq<u8>, p: int, k: int) -> int {
    u32_le(s.skip(p + 4 * k))
}

/// The `n` little-endian `u32`s from position `p`.
pub open spec fn words(s: Seq<u8>, p: int, n: nat) -> Seq<u32> {
    Seq::new(n, |k: int| word_at(s, p, k) as u32)
}

/// What reading one frame at position `p` of `s` gives, with `count` values of which the data
/// record must have `block * 4` bytes; on success also the position after the frame.
pub open spec fn frame_outcome(s: Seq<u8>, p: int, block: u128, count: nat, r: Result<
    SliceFrame,
    ParseErr,
>, end: int) -> bool {
    if s.len() < p + 4 {
        r matches Err(ParseErr::NoBlocks)
    } else if s.len() < p + 12 {
        r matches Err(ParseErr::IoErr(IoError::UnexpectedEof))
    } else if word_at(s, p, 2) != block * 4 {
        r matches Err(ParseErr::BadFrameSize { read, expected }) && read == word_at(s, p, 2)
            && expected == block * 4
    } else if s.len() < p + 12 + 4 * count + 4 {
        r matches Err(ParseErr::IoErr(IoError::UnexpectedEof))
    } else {
        &&& r matches Ok(f) && f.time == word_at(s, p, 0) && f.values@ == words(s, p + 12, count)
        &&& end == p + 12 + 4 * count + 4
    }
}

proof fn lemma_skip_skip(s: Seq<u8>, a: int, b: int)
    requires
        0 <= a,
        0 <= b,
        a + b <= s.len(),
    ensures
        s.skip(a).skip(b) =~= s.skip(a + b),
{
}

impl SliceFrame {
    /// Reads one frame: a time, a skipped word, the byte count of the data (which must be
    /// `block * 4`), the values along the two spanning dimensions, and a skipped word. Running
    /// out of data before the time reports [`ParseErr::NoBlocks`].
    pub fn from_reader(reader: &mut ByteReader, slice: &SliceInfo, block: u128) -> (r: Result<
        SliceFrame,
        ParseErr,
    >)
        requires
            old(reader).wf(),
            block < 0x1_0000_0000_0000_0000_0000_0000_0000u128,
        ensures
            final(reader).bytes() == old(reader).bytes(),
            final(reader).wf(),
            frame_outcome(
                old(reader).bytes(),
                old(reader).position() as int,
                block,
                (extent(slice.bounds, dim_i_of(slice.flat_dim)) * extent(
                    slice.bounds,
                    dim_j_of(slice.flat_dim),
                )) as nat,
                r,
                final(reader).position() as int,
            ),
    {
        let ghost s = reader.bytes();
        let ghost p = reader.position() as int;
        let time = match reader.read_u32_le() {
            Ok(t) => t,
            Err(_) => return Err(ParseErr::NoBlocks),
        };
        if let Err(e) = reader.skip_bytes(4) {
            return Err(ParseErr::IoErr(e));
        }
        proof {
            lemma_skip_skip(s, p, 8);
        }
        let block_size = match reader.read_u32_le() {
            Ok(b) => b,
            Err(e) => return Err(ParseErr::IoErr(e)),
        };
        if (block_size as u128) != block * 4 {
            return Err(ParseErr::BadFrameSize { read: block_size, expected: block * 4 });
        }
        let ni = slice.dim_i_len();
        let nj = slice.dim_j_len();
        let ghost count = (ni as nat) * (nj as nat);
        let mut values: Vec<u32> = Vec::new();
        let mut j: u32 = 0;
        while j < ni
            invariant
                j <= ni,
                reader.bytes() == s,
                s == old(reader).bytes(),
                count == ni * nj,
                count == (extent(slice.bounds, dim_i_of(slice.flat_dim)) * extent(
                    slice.bounds,
                    dim_j_of(slice.flat_dim),
                )) as nat,
                p == old(reader).position(),
                s.len() >= p + 12,
                word_at(s, p, 2) == block * 4,
                reader.wf(),
                reader.position() == p + 12 + 4 * (j * nj),
                reader.position() <= s.len(),
                values@.len() == j * nj,
                forall|k: int| 0 <= k < values@.len() ==> values@[k] == word_at(s, p + 12, k),
            decreases ni - j,
        {
            let mut k: u32 = 0;
            while k < nj
                invariant
                    k <= nj,
                    j < ni,
                    reader.bytes() == s,
                    s == old(reader).bytes(),
                    count == ni * nj,
                    count == (extent(slice.bounds, dim_i_of(slice.flat_dim)) * extent(
                        slice.bounds,
                        dim_j_of(slice.flat_dim),
                    )) as nat,
                    p == old(reader).position(),
                    s.len() >= p + 12,
                    word_at(s, p, 2) == block * 4,
                    reader.wf(),
                    reader.position() == p + 12 + 4 * (j * nj + k),
                    reader.position() <= s.len(),
                    values@.len() == j * nj + k,
                    forall|m: int| 0 <= m < values@.len() ==> values@[m] == word_at(s, p + 12, m),
                decreases nj - k,
            {
                let ghost before = reader.position() as int;
                let value = match reader.read_u32_le() {
                    Ok(v) => v,
                    Err(e) => {
                        proof {
                            assert(s.len() < p + 12 + 4 * count + 4) by (nonlinear_arith)
                                requires
                                    s.len() < before + 4,
                                    before == p + 12 + 4 * (j * nj + k),
                                    j < ni,
                                    k < nj,
                                    count == ni * nj,
                            ;
                        }
                        return Err(ParseErr::IoErr(e));
                    },
                };
                proof {
                    lemma_skip_skip(s, 0, before);
                    assert(s.skip(before) =~= s.skip(p + 12 + 4 * (values@.len() as int)));
                }
                values.push(value);
                k = k + 1;
                assert(j * nj + k == j * nj + (k - 1) + 1);
            }
            assert((j + 1) * nj == j * nj + nj) by (nonlinear_arith);
            j = j + 1;
        }
        assert(values@.len() == count);
        if let Err(e) = reader.skip_bytes(4) {
            return Err(ParseErr::IoErr(e));
        }
        assert(values@ =~= words(s, p + 12, count));
        Ok(SliceFrame { time, values })
    }
}


/// The frames read from position `p` until the data runs out before a frame's time, or the
/// error that stops them.
pub open spec fn frames_spec(s: Seq<u8>, p: int, block: u128, count: nat) -> Result<
    Seq<(u32, Seq<u32>)>,
    ParseErr,
>
    decreases s.len() - p,
{
    if p < 0 || s.len() < p + 4 {
        Ok(Seq::empty())
    } else if s.len() < p + 12 {
        Err(ParseErr::IoErr(IoError::UnexpectedEof))
    } else if word_at(s, p, 2) != block * 4 {
        Err(ParseErr::BadFrameSize { read: word_at(s, p, 2) as u32, expected: (block * 4) as u128 })
    } else if s.len() < p + 12 + 4 * count + 4 {
        Err(ParseErr::IoErr(IoError::UnexpectedEof))
    } else {
        match frames_spec(s, p + 12 + 4 * count + 4, block, count) {
            Ok(rest) => Ok(seq![(word_at(s, p, 0) as u32, words(s, p + 12, count))] + rest),
            Err(e) => Err(e),
        }
    }
}

/// The position after the Fortran string record at `p`.
pub open spec fn record_end(s: Seq<u8>, p: int) -> int {
    p + 8 + u32_le(s.skip(p))
}

/// The `k`th little-endian `i32` from position `q`.
pub open spec fn int_at(s: Seq<u8>, q: int, k: int) -> int {
    i32_le(s.skip(q + 4 * k))
}

/// The bounds stored as six integers from `q`: the index ranges along X, Y and Z, each upper
/// end made exclusive by adding one.
pub open spec fn bounds_at(s: Seq<u8>, q: int) -> Bounds3<i32> {
    Bounds3 {
        min: Vec3 { x: int_at(s, q, 0) as i32, y: int_at(s, q, 2) as i32, z: int_at(s, q, 4) as i32 },
        max: Vec3 {
            x: (int_at(s, q, 1) + 1) as i32,
            y: (int_at(s, q, 3) + 1) as i32,
            z: (int_at(s, q, 5) + 1) as i32,
        },
    }
}

/// The first dimension, in the order X, Y, Z, along which the bounds have extent 1.
pub open spec fn first_flat(b: Bounds3<i32>) -> Option<Dim3D> {
    if extent(b, Dim3D::X) == 1 {
        Some(Dim3D::X)
    } else if extent(b, Dim3D::Y) == 1 {
        Some(Dim3D::Y)
    } else if extent(b, Dim3D::Z) == 1 {
        Some(Dim3D::Z)
    } else {
        None
    }
}

/// The values of a time series made from `frames` of `n` values each: every frame's values are
/// written over the first time step in turn, so that step holds the last frame's values and
/// every later step holds zeros.
pub open spec fn placed_values(frames: Seq<(u32, Seq<u32>)>, n: nat) -> Seq<u32> {
    if frames.len() == 0 {
        Seq::empty()
    } else {
        frames.last().1 + Seq::new(((frames.len() - 1) * n) as nat, |k: int| 0u32)
    }
}

/// Whether `t` is the time series built from `frames` for a slice described by `info`.
pub open spec fn series_of(info: &SliceInfo, frames: Seq<(u32, Seq<u32>)>, t: TimeSeries2) -> bool {
    let ni = extent(info.bounds, dim_i_of(info.flat_dim));
    let nj = extent(info.bounds, dim_j_of(info.flat_dim));
    &&& t.name@ == info.short_name@
    &&& t.unit@ == info.units@
    &&& t.time_in_seconds@ == frames.map_values(|f: (u32, Seq<u32>)| f.0)
    &&& t.values@ == placed_values(frames, (ni * nj) as nat)
    &&& t.steps == frames.len()
    &&& t.dim_i == ni
    &&& t.dim_j == nj
}

/// What reading a whole slice file `s` gives.
pub open spec fn slice_outcome(s: Seq<u8>, r: Result<Slice, ParseErr>) -> bool {
    let e1 = record_end(s, 0);
    let e2 = record_end(s, e1);
    let h = record_end(s, e2);
    let b = bounds_at(s, h + 4);
    if !fortran_string_ok(s) {
        r matches Err(ParseErr::BadString(e)) && fortran_string_outcome(s, Err(e))
    } else if !fortran_string_ok(s.skip(e1)) {
        r matches Err(ParseErr::BadString(e)) && fortran_string_outcome(s.skip(e1), Err(e))
    } else if !fortran_string_ok(s.skip(e2)) {
        r matches Err(ParseErr::BadString(e)) && fortran_string_outcome(s.skip(e2), Err(e))
    } else if s.len() < h + 4 {
        r matches Err(ParseErr::BadMagicNumber(ReadValErr::Io(IoError::UnexpectedEof)))
    } else if u32_le(s.skip(h)) != 24 {
        r matches Err(ParseErr::BadMagicNumber(ReadValErr::Mismatch { read, expected }))
            && read == u32_le(s.skip(h)) && expected == 24
    } else if s.len() < h + 28 {
        r matches Err(ParseErr::IoErr(IoError::UnexpectedEof))
    } else if int_at(s, h + 4, 1) == i32::MAX || int_at(s, h + 4, 3) == i32::MAX || int_at(
        s,
        h + 4,
        5,
    ) == i32::MAX {
        r matches Err(ParseErr::BadBoundsSize)
    } else if s.len() < h + 32 {
        r matches Err(ParseErr::BadMagicNumber(ReadValErr::Io(IoError::UnexpectedEof)))
    } else if u32_le(s.skip(h + 28)) != 24 {
        r matches Err(ParseErr::BadMagicNumber(ReadValErr::Mismatch { read, expected }))
            && read == u32_le(s.skip(h + 28)) && expected == 24
    } else if first_flat(b) is None {
        r matches Err(ParseErr::BadBoundsSize)
    } else {
        let flat = first_flat(b)->0;
        let volume = extent(b, Dim3D::X) * extent(b, Dim3D::Y) * extent(b, Dim3D::Z);
        let count = (extent(b, dim_i_of(flat)) * extent(b, dim_j_of(flat))) as nat;
        match frames_spec(s, h + 32, volume as u128, count) {
            Err(e) => r matches Err(e2) && e2 == e,
            Ok(frames) => r matches Ok(sl) && {
                &&& sl.info.quantity@ == trim_spec(fortran_string_text(s))
                &&& sl.info.short_name@ == trim_spec(fortran_string_text(s.skip(e1)))
                &&& sl.info.units@ == trim_spec(fortran_string_text(s.skip(e2)))
                &&& sl.info.bounds == b
                &&& sl.info.flat_dim == flat
                &&& series_of(&sl.info, frames, sl.data)
            },
        }
    }
}

/// The times and values of frames.
pub open spec fn frames_view(v: Seq<SliceFrame>) -> Seq<(u32, Seq<u32>)> {
    v.map_values(|f: SliceFrame| (f.time, f.values@))
}

impl TimeSeries2 {
    /// Gathers frames into a time series named after the slice's short name and units.
    ///
    /// The series has room for every frame, but each frame's values are copied into the first
    /// time step: the position written is never advanced from one frame to the next. So the
    /// first step ends up with the last frame's values and the others stay zero
    /// (`placed_values`).
    pub fn from_frames(info: &SliceInfo, frames: Vec<SliceFrame>) -> (r: TimeSeries2)
        requires
            forall|k: int|
                0 <= k < frames@.len() ==> (#[trigger] frames@[k]).values@.len() == extent(
                    info.bounds,
                    dim_i_of(info.flat_dim),
                ) * extent(info.bounds, dim_j_of(info.flat_dim)),
        ensures
            series_of(info, frames_view(frames@), r),
    {
        let area = info.area();
        let ni = area.x as usize;
        let nj = area.y as usize;
        let ghost n = (ni as nat) * (nj as nat);
        let mut times: Vec<u32> = Vec::new();
        let mut first: Vec<u32> = Vec::new();
        let mut i: usize = 0;
        while i < frames.len()
            invariant
                i <= frames@.len(),
                times@ == frames_view(frames@.take(i as int)).map_values(
                    |f: (u32, Seq<u32>)| f.0,
                ),
                i > 0 ==> first@ == frames@[i - 1].values@,
            decreases frames@.len() - i,
        {
            times.push(frames[i].time);
            first = frames[i].values.clone();
            i = i + 1;
            assert(times@ =~= frames_view(frames@.take(i as int)).map_values(
                |f: (u32, Seq<u32>)| f.0,
            ));
        }
        assert(frames@.take(i as int) =~= frames@);
        let mut values: Vec<u32> = Vec::new();
        if frames.len() > 0 {
            values = first;
            let ghost head = values@;
            let per_step: usize = values.len();
            let mut step: usize = 1;
            while step < frames.len()
                invariant
                    1 <= step <= frames@.len(),
                    per_step == head.len(),
                    per_step == n,
                    values@ == head + Seq::new(((step - 1) * per_step) as nat, |m: int| 0u32),
                decreases frames@.len() - step,
            {
                let mut k: usize = 0;
                assert((step - 1) * per_step >= 0) by (nonlinear_arith)
                    requires
                        step >= 1,
                ;
                while k < per_step
                    invariant
                        k <= per_step,
                        1 <= step,
                        (step - 1) * per_step >= 0,
                        values@ == head + Seq::new(((step - 1) * per_step + k) as nat, |m: int| 0u32),
                    decreases per_step - k,
                {
                    values.push(0);
                    k = k + 1;
                    assert(values@ =~= head + Seq::new(((step - 1) * per_step + k) as nat, |m: int| 0u32));
                }
                assert((step - 1) * per_step + per_step == step * per_step) by (nonlinear_arith);
                step = step + 1;
            }
        }
        proof {
            if frames@.len() > 0 {
                assert(frames_view(frames@).last().1 == frames@[frames@.len() - 1].values@);
            }
        }
        assert(values@ =~= placed_values(frames_view(frames@), n));
        TimeSeries2 {
            name: info.short_name.clone(),
            unit: info.units.clone(),
            time_in_seconds: times,
            values,
            steps: frames.len(),
            dim_i: ni,
            dim_j: nj,
        }
    }
}

/// `done` followed by the frames of `r`, or the error of `r`.
pub open spec fn prepend_frames(done: Seq<(u32, Seq<u32>)>, r: Result<Seq<(u32, Seq<u32>)>, ParseErr>) -> Result<
    Seq<(u32, Seq<u32>)>,
    ParseErr,
> {
    match r {
        Ok(rest) => Ok(done + rest),
        Err(e) => Err(e),
    }
}

/// Reads a Fortran string record of a slice header, reporting a bad record as a bad string.
fn header_string(rdr: &mut ByteReader) -> (r: Result<String, ParseErr>)
    ensures
        final(rdr).wf(),
        final(rdr).bytes() == old(rdr).bytes(),
        r is Ok <==> fortran_string_ok(old(rdr).rest()),
        r matches Ok(s) ==> s@ == trim_spec(fortran_string_text(old(rdr).rest())),
        r matches Err(e) ==> e matches ParseErr::BadString(e2) && fortran_string_outcome(
            old(rdr).rest(),
            Err(e2),
        ),
        r is Ok ==> final(rdr).position() == old(rdr).position() + 8 + u32_le(old(rdr).rest()),
{
    match rdr.read_fortran_string() {
        Ok(s) => Ok(s),
        Err(e) => Err(ParseErr::BadString(e)),
    }
}

/// Reads a little-endian `i32` of a slice header.
fn header_int(rdr: &mut ByteReader) -> (r: Result<i32, ParseErr>)
    ensures
        final(rdr).wf(),
        final(rdr).bytes() == old(rdr).bytes(),
        old(rdr).rest().len() >= 4 ==> r == Ok::<i32, ParseErr>(i32_le(old(rdr).rest()) as i32)
            && final(rdr).position() == old(rdr).position() + 4,
        old(rdr).rest().len() < 4 ==> r matches Err(ParseErr::IoErr(IoError::UnexpectedEof)),
{
    match rdr.read_i32_le() {
        Ok(v) => Ok(v),
        Err(e) => Err(ParseErr::IoErr(e)),
    }
}

/// What reading the header of a slice file `s` gives: the slice's description, or the error.
pub open spec fn header_outcome(s: Seq<u8>, r: Result<SliceInfo, ParseErr>) -> bool {
    let e1 = record_end(s, 0);
    let e2 = record_end(s, e1);
    let h = record_end(s, e2);
    let b = bounds_at(s, h + 4);
    if !fortran_string_ok(s) {
        r matches Err(ParseErr::BadString(e)) && fortran_string_outcome(s, Err(e))
    } else if !fortran_string_ok(s.skip(e1)) {
        r matches Err(ParseErr::BadString(e)) && fortran_string_outcome(s.skip(e1), Err(e))
    } else if !fortran_string_ok(s.skip(e2)) {
        r matches Err(ParseErr::BadString(e)) && fortran_string_outcome(s.skip(e2), Err(e))
    } else if s.len() < h + 4 {
        r matches Err(ParseErr::BadMagicNumber(ReadValErr::Io(IoError::UnexpectedEof)))
    } else if u32_le(s.skip(h)) != 24 {
        r matches Err(ParseErr::BadMagicNumber(ReadValErr::Mismatch { read, expected }))
            && read == u32_le(s.skip(h)) && expected == 24
    } else if s.len() < h + 28 {
        r matches Err(ParseErr::IoErr(IoError::UnexpectedEof))
    } else if int_at(s, h + 4, 1) == i32::MAX || int_at(s, h + 4, 3) == i32::MAX || int_at(
        s,
        h + 4,
        5,
    ) == i32::MAX {
        r matches Err(ParseErr::BadBoundsSize)
    } else if s.len() < h + 32 {
        r matches Err(ParseErr::BadMagicNumber(ReadValErr::Io(IoError::UnexpectedEof)))
    } else if u32_le(s.skip(h + 28)) != 24 {
        r matches Err(ParseErr::BadMagicNumber(ReadValErr::Mismatch { read, expected }))
            && read == u32_le(s.skip(h + 28)) && expected == 24
    } else if first_flat(b) is None {
        r matches Err(ParseErr::BadBoundsSize)
    } else {
        r matches Ok(info) && {
            &&& info.quantity@ == trim_spec(fortran_string_text(s))
            &&& info.short_name@ == trim_spec(fortran_string_text(s.skip(e1)))
            &&& info.units@ == trim_spec(fortran_string_text(s.skip(e2)))
            &&& info.bounds == b
            &&& info.flat_dim == first_flat(b)->0
        }
    }
}

/// Reads the header of a slice file from the start of the reader's buffer.
fn read_header(rdr: &mut ByteReader) -> (r: Result<SliceInfo, ParseErr>)
    requires
        old(rdr).wf(),
        old(rdr).position() == 0,
    ensures
        final(rdr).wf(),
        final(rdr).bytes() == old(rdr).bytes(),
        header_outcome(old(rdr).bytes(), r),
        r is Ok ==> final(rdr).position() == record_end(
            old(rdr).bytes(),
            record_end(old(rdr).bytes(), record_end(old(rdr).bytes(), 0)),
        ) + 32,
{
    let ghost s = rdr.bytes();
    assert(rdr.rest() =~= s);
    let ghost e1 = record_end(s, 0);
    let ghost e2 = record_end(s, e1);
    let ghost h = record_end(s, e2);
    let quantity = header_string(rdr)?;
    assert(rdr.rest() =~= s.skip(e1));
    let short_name = header_string(rdr)?;
    assert(rdr.rest() =~= s.skip(e2));
    let units = header_string(rdr)?;
    assert(rdr.rest() =~= s.skip(h));
    if let Err(e) = rdr.read_fixed_u32(24) {
        return Err(ParseErr::BadMagicNumber(e));
    }
    assert(rdr.rest() =~= s.skip(h + 4));
    let v0 = header_int(rdr)?;
    assert(rdr.rest() =~= s.skip(h + 8));
    let v1 = header_int(rdr)?;
    assert(rdr.rest() =~= s.skip(h + 12));
    let v2 = header_int(rdr)?;
    assert(rdr.rest() =~= s.skip(h + 16));
    let v3 = header_int(rdr)?;
    assert(rdr.rest() =~= s.skip(h + 20));
    let v4 = header_int(rdr)?;
    assert(rdr.rest() =~= s.skip(h + 24));
    let v5 = header_int(rdr)?;
    assert(rdr.rest() =~= s.skip(h + 28));
    if v1 == i32::MAX || v3 == i32::MAX || v5 == i32::MAX {
        return Err(ParseErr::BadBoundsSize);
    }
    let bounds = Bounds3::new(Vec3::new(v0, v2, v4), Vec3::new(v1 + 1, v3 + 1, v5 + 1));
    assert(bounds == bounds_at(s, h + 4));
    if let Err(e) = rdr.read_fixed_u32(24) {
        return Err(ParseErr::BadMagicNumber(e));
    }
    let area = bounds.area();
    let flat_dim = if area.x == 1 {
        Dim3D::X
    } else if area.y == 1 {
        Dim3D::Y
    } else if area.z == 1 {
        Dim3D::Z
    } else {
        return Err(ParseErr::BadBoundsSize);
    };
    Ok(SliceInfo { bounds, flat_dim, quantity, short_name, units })
}

/// The number of values in a frame of a slice with the given bounds and flat dimension.
pub open spec fn frame_len(b: Bounds3<i32>, flat: Dim3D) -> nat {
    (extent(b, dim_i_of(flat)) * extent(b, dim_j_of(flat))) as nat
}

/// Reads frames until the data runs out before a frame's time.
fn read_frames(rdr: &mut ByteReader, info: &SliceInfo, volume: u128) -> (r: Result<
    Vec<SliceFrame>,
    ParseErr,
>)
    requires
        old(rdr).wf(),
        volume < 0x1_0000_0000_0000_0000_0000_0000_0000u128,
    ensures
        frames_spec(
            old(rdr).bytes(),
            old(rdr).position() as int,
            volume,
            frame_len(info.bounds, info.flat_dim),
        ) == match r {
            Ok(v) => Ok::<Seq<(u32, Seq<u32>)>, ParseErr>(frames_view(v@)),
            Err(e) => Err(e),
        },
        r matches Ok(v) ==> forall|k: int|
            0 <= k < v@.len() ==> (#[trigger] v@[k]).values@.len() == frame_len(
                info.bounds,
                info.flat_dim,
            ),
{
    let ghost s = rdr.bytes();
    let ghost start = rdr.position() as int;
    let ghost count = frame_len(info.bounds, info.flat_dim);
    let mut frames: Vec<SliceFrame> = Vec::new();
    assert(frames_view(frames@) =~= Seq::<(u32, Seq<u32>)>::empty());
    assert(prepend_frames(Seq::empty(), frames_spec(s, start, volume, count)) =~= frames_spec(
        s,
        start,
        volume,
        count,
    )) by {
        match frames_spec(s, start, volume, count) {
            Ok(rest) => {
                assert(Seq::<(u32, Seq<u32>)>::empty() + rest =~= rest);
            },
            Err(e) => {},
        }
    }
    loop
        invariant
            rdr.wf(),
            rdr.bytes() == s,
            s == old(rdr).bytes(),
            start == old(rdr).position(),
            volume < 0x1_0000_0000_0000_0000_0000_0000_0000u128,
            count == frame_len(info.bounds, info.flat_dim),
            frames_spec(s, start, volume, count) == prepend_frames(
                frames_view(frames@),
                frames_spec(s, rdr.position() as int, volume, count),
            ),
            forall|k: int| 0 <= k < frames@.len() ==> (#[trigger] frames@[k]).values@.len() == count,
        decreases s.len() - rdr.position(),
    {
        let ghost p = rdr.position() as int;
        match SliceFrame::from_reader(rdr, info, volume) {
            Ok(f) => {
                let ghost fv = (f.time, f.values@);
                let ghost q = rdr.position() as int;
                let ghost old_frames = frames_view(frames@);
                frames.push(f);
                proof {
                    assert(frames_view(frames@) =~= old_frames.push(fv));
                    match frames_spec(s, q, volume, count) {
                        Ok(rest) => {
                            assert(old_frames + (seq![fv] + rest) =~= old_frames.push(fv) + rest);
                        },
                        Err(e) => {},
                    }
                }
            },
            Err(ParseErr::NoBlocks) => {
                proof {
                    assert(frames_spec(s, p, volume, count) == Ok::<Seq<(u32, Seq<u32>)>, ParseErr>(
                        Seq::empty(),
                    ));
                    assert(frames_view(frames@) + Seq::<(u32, Seq<u32>)>::empty() =~= frames_view(
                        frames@,
                    ));
                }
                return Ok(frames);
            },
            Err(e) => {
                return Err(e);
            },
        }
    }
}

impl Slice {
    /// Reads a slice file: three string records (quantity, short name, units), a record of the
    /// bounds as index ranges along X, Y and Z, then frames until the data runs out.
    pub fn from_reader(data: &[u8]) -> (r: Result<Slice, ParseErr>)
        ensures
            slice_outcome(data@, r),
    {
        let ghost s = data@;
        let mut rdr = ByteReader::new(data);
        let info = read_header(&mut rdr)?;
        let area = info.bounds.area();
        assert(area.x * area.y <= 0xffff_ffff * 0xffff_ffff) by (nonlinear_arith)
            requires
                area.x <= 0xffff_ffff,
                area.y <= 0xffff_ffff,
        ;
        assert(area.x * area.y * area.z <= 0xffff_ffff * 0xffff_ffff * 0xffff_ffff)
            by (nonlinear_arith)
            requires
                area.x * area.y <= 0xffff_ffff * 0xffff_ffff,
                area.z <= 0xffff_ffff,
                area.x * area.y >= 0,
        ;
        let volume: u128 = (area.x as u128) * (area.y as u128) * (area.z as u128);
        let frames = read_frames(&mut rdr, &info, volume)?;
        let data = TimeSeries2::from_frames(&info, frames);
        Ok(Slice { info, data })
    }
}

/// The flat dimension of a slice and the two dimensions that span it are the three axes, each
/// once, with the first spanning dimension before the second in the order X, Y, Z. So a frame
/// holds one value per cell of the slice's bounds: the extents along the two spanning
/// dimensions and the flat one multiply to the product of all three extents.
pub proof fn law_slice_dimensions(flat: Dim3D, b: Bounds3<i32>)
    ensures
        flat != dim_i_of(flat),
        flat != dim_j_of(flat),
        dim_i_of(flat) != dim_j_of(flat),
        dim_index(dim_i_of(flat)) < dim_index(dim_j_of(flat)),
        extent(b, dim_i_of(flat)) * extent(b, dim_j_of(flat)) * extent(b, flat) == extent(
            b,
            Dim3D::X,
        ) * extent(b, Dim3D::Y) * extent(b, Dim3D::Z),
{
    let (x, y, z) = (extent(b, Dim3D::X), extent(b, Dim3D::Y), extent(b, Dim3D::Z));
    let i = dim_i_of(flat);
    let j = dim_j_of(flat);
    assert(dim_index(i) != dim_index(j) && dim_index(i) != dim_index(flat) && dim_index(j)
        != dim_index(flat) && dim_index(i) < dim_index(j));
    match flat {
        Dim3D::X => {
            assert(y * z * x == x * y * z) by (nonlinear_arith);
        },
        Dim3D::Y => {
            assert(x * z * y == x * y * z) by (nonlinear_arith);
        },
        Dim3D::Z => {},
    }
}

} // verus!
