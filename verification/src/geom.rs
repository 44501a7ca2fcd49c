//! Small geometric value types: axes, vectors, axis-aligned bounds.
use vstd::prelude::*;

verus! {

/// One of the three axes of space.
#[derive(Clone, Copy, PartialEq, Eq, Debug, Structural)]
pub enum Dim3D {
    X,
    Y,
    Z,
}

/// The position of an axis in the order X, Y, Z.
pub open spec fn dim_index(d: Dim3D) -> int {
    match d {
        Dim3D::X => 0,
        Dim3D::Y => 1,
        Dim3D::Z => 2,
    }
}

/// An axis together with a direction along it.
#[derive(Clone, Copy, PartialEq, Eq, Debug, Structural)]
pub struct Dim3DSigned {
    pub is_positive: bool,
    pub dim: Dim3D,
}

impl Dim3DSigned {
    pub fn new(is_positive: bool, dim: Dim3D) -> (r: Self)
        ensures
            r.is_positive == is_positive,
            r.dim == dim,
    {
        Self { is_positive, dim }
    }

    /// All six signed axes: for each of X, Y, Z the positive direction, then the negative one.
    pub fn iter() -> (r: Vec<Dim3DSigned>)
        ensures
            r@ == seq![
                Dim3DSigned { is_positive: true, dim: Dim3D::X },
                Dim3DSigned { is_positive: false, dim: Dim3D::X },
                Dim3DSigned { is_positive: true, dim: Dim3D::Y },
                Dim3DSigned { is_positive: false, dim: Dim3D::Y },
                Dim3DSigned { is_positive: true, dim: Dim3D::Z },
                Dim3DSigned { is_positive: false, dim: Dim3D::Z },
            ],
    {
        let mut v: Vec<Dim3DSigned> = Vec::new();
        v.push(Dim3DSigned::new(true, Dim3D::X));
        v.push(Dim3DSigned::new(false, Dim3D::X));
        v.push(Dim3DSigned::new(true, Dim3D::Y));
        v.push(Dim3DSigned::new(false, Dim3D::Y));
        v.push(Dim3DSigned::new(true, Dim3D::Z));
        v.push(Dim3DSigned::new(false, Dim3D::Z));
        v
    }

    /// The axis number (X = 0, Y = 1, Z = 2), plus 3 for the negative direction.
    /// The number of a direction: 0 to 2 for the positive X, Y and Z directions, 3 to 5 for
    /// the negative ones.
    pub open spec fn code(self) -> int {
        dim_index(self.dim) + if self.is_positive { 0int } else { 3int }
    }

    pub fn as_u8(&self) -> (r: u8)
        ensures
            r == self.code(),
    {
        let d: u8 = match self.dim {
            Dim3D::X => 0,
            Dim3D::Y => 1,
            Dim3D::Z => 2,
        };
        d + if self.is_positive { 0 } else { 3 }
    }
}

impl Dim3D {
    /// The three axes in the order X, Y, Z.
    pub fn iter() -> (r: Vec<Dim3D>)
        ensures
            r@ == seq![Dim3D::X, Dim3D::Y, Dim3D::Z],
    {
        let mut v: Vec<Dim3D> = Vec::new();
        v.push(Dim3D::X);
        v.push(Dim3D::Y);
        v.push(Dim3D::Z);
        v
    }
}

/// A two-dimensional vector.
#[derive(Clone, Copy, PartialEq, Eq, Debug, Default)]
pub struct Vec2<T> {
    pub x: T,
    pub y: T,
}

impl<T> Vec2<T> {
    pub fn new(x: T, y: T) -> (r: Self)
        ensures
            r.x == x,
            r.y == y,
    {
        Vec2 { x, y }
    }
}

/// A three-dimensional vector.
#[derive(Clone, Copy, PartialEq, Eq, Debug, Default)]
pub struct Vec3<T> {
    pub x: T,
    pub y: T,
    pub z: T,
}

impl<T> Vec3<T> {
    /// The component along the given axis.
    pub open spec fn at(self, d: Dim3D) -> T {
        match d {
            Dim3D::X => self.x,
            Dim3D::Y => self.y,
            Dim3D::Z => self.z,
        }
    }

    /// The components in the order x, y, z.
    pub open spec fn components(self) -> Seq<T> {
        seq![self.x, self.y, self.z]
    }

    pub fn new(x: T, y: T, z: T) -> (r: Self)
        ensures
            r.x == x,
            r.y == y,
            r.z == z,
    {
        Vec3 { x, y, z }
    }

    /// The components in the order x, y, z.
    pub fn iter(&self) -> (r: Vec<T>)
        where
            T: Copy,
        ensures
            r@ == self.components(),
    {
        let mut v: Vec<T> = Vec::new();
        v.push(self.x);
        v.push(self.y);
        v.push(self.z);
        v
    }

    /// The components paired with their axes, in the order X, Y, Z.
    pub fn enumerate(&self) -> (r: Vec<(Dim3D, T)>)
        where
            T: Copy,
        ensures
            r@ == seq![(Dim3D::X, self.x), (Dim3D::Y, self.y), (Dim3D::Z, self.z)],
    {
        let mut v: Vec<(Dim3D, T)> = Vec::new();
        v.push((Dim3D::X, self.x));
        v.push((Dim3D::Y, self.y));
        v.push((Dim3D::Z, self.z));
        v
    }

    /// The component along the given axis.
    pub fn get(&self, d: Dim3D) -> (r: T)
        where
            T: Copy,
        ensures
            r == self.at(d),
    {
        match d {
            Dim3D::X => self.x,
            Dim3D::Y => self.y,
            Dim3D::Z => self.z,
        }
    }
}

/// An axis-aligned box given by its minimum and maximum corner.
#[derive(Clone, Copy, PartialEq, Eq, Debug, Default)]
pub struct Bounds3<T> {
    pub min: Vec3<T>,
    pub max: Vec3<T>,
}

impl<T> Bounds3<T> {
    pub fn new(min: Vec3<T>, max: Vec3<T>) -> (r: Self)
        ensures
            r.min == min,
            r.max == max,
    {
        Bounds3 { min, max }
    }

    /// Builds bounds from the order FDS writes them in: the extent along X, then Y, then Z.
    pub fn from_fds_notation(min_x: T, max_x: T, min_y: T, max_y: T, min_z: T, max_z: T) -> (r:
        Self)
        ensures
            r.min == (Vec3 { x: min_x, y: min_y, z: min_z }),
            r.max == (Vec3 { x: max_x, y: max_y, z: max_z }),
    {
        Bounds3::new(Vec3::new(min_x, min_y, min_z), Vec3::new(max_x, max_y, max_z))
    }

    /// The tuple form of [`Bounds3::from_fds_notation`].
    pub fn from_fds_notation_tuple(tuple: (T, T, T, T, T, T)) -> (r: Self)
        ensures
            r.min == (Vec3 { x: tuple.0, y: tuple.2, z: tuple.4 }),
            r.max == (Vec3 { x: tuple.1, y: tuple.3, z: tuple.5 }),
    {
        Self::from_fds_notation(tuple.0, tuple.1, tuple.2, tuple.3, tuple.4, tuple.5)
    }
}

/// The distance between two integers.
pub open spec fn abs_diff_spec(a: i32, b: i32) -> int {
    if a <= b {
        b - a
    } else {
        a - b
    }
}

/// The distance between two integers, as `i32::abs_diff` computes it.
pub fn abs_diff(a: i32, b: i32) -> (r: u32)
    ensures
        r == abs_diff_spec(a, b),
{
    if a <= b {
        ((b as i64) - (a as i64)) as u32
    } else {
        ((a as i64) - (b as i64)) as u32
    }
}

impl Bounds3<i32> {
    /// The extent along each axis: the distance between the minimum and maximum coordinate.
    pub fn area(&self) -> (r: Vec3<u32>)
        ensures
            r.x == abs_diff_spec(self.min.x, self.max.x),
            r.y == abs_diff_spec(self.min.y, self.max.y),
            r.z == abs_diff_spec(self.min.z, self.max.z),
    {
        Vec3::new(
            abs_diff(self.min.x, self.max.x),
            abs_diff(self.min.y, self.max.y),
            abs_diff(self.min.z, self.max.z),
        )
    }

    /// The integer points of the box, corners included: `x` varies slowest, then `y`, then `z`.
    pub open spec fn points(self) -> Seq<Vec3<i32>> {
        block(
            self.min.x as int,
            self.max.x + 1,
            self.min.y as int,
            self.max.y + 1,
            self.min.z as int,
            self.max.z + 1,
        )
    }

    /// The integer points of the box, corners included, with `x` varying slowest, then `y`,
    /// then `z`. A box whose minimum exceeds its maximum along some axis has none.
    pub fn iter(&self) -> (r: Vec<Vec3<i32>>)
        ensures
            r@ == self.points(),
    {
        let (x0, x1) = (self.min.x as i64, self.max.x as i64 + 1);
        let (y0, y1) = (self.min.y as i64, self.max.y as i64 + 1);
        let (z0, z1) = (self.min.z as i64, self.max.z as i64 + 1);
        let mut r: Vec<Vec3<i32>> = Vec::new();
        let mut x = x0;
        while x < x1
            invariant
                x0 == self.min.x,
                x1 == self.max.x + 1,
                y0 == self.min.y,
                y1 == self.max.y + 1,
                z0 == self.min.z,
                z1 == self.max.z + 1,
                x0 <= x,
                x <= x1 || x == x0,
                r@ == block(x0 as int, x as int, y0 as int, y1 as int, z0 as int, z1 as int),
            decreases x1 - x,
        {
            let ghost before = r@;
            let mut y = y0;
            while y < y1
                invariant
                    x0 <= x < x1,
                    x1 == self.max.x + 1,
                    y0 == self.min.y,
                    y1 == self.max.y + 1,
                    z0 == self.min.z,
                    z1 == self.max.z + 1,
                    y0 <= y,
                    y <= y1 || y == y0,
                    r@ == before + slab(x as int, y0 as int, y as int, z0 as int, z1 as int),
                decreases y1 - y,
            {
                let ghost mid = r@;
                let mut z = z0;
                while z < z1
                    invariant
                        x0 <= x < x1,
                        x1 == self.max.x + 1,
                        y0 <= y < y1,
                        y1 == self.max.y + 1,
                        z0 == self.min.z,
                        z1 == self.max.z + 1,
                        z0 <= z,
                        z <= z1 || z == z0,
                        r@ == mid + column(x as int, y as int, z0 as int, z as int),
                    decreases z1 - z,
                {
                    r.push(Vec3 { x: x as i32, y: y as i32, z: z as i32 });
                    proof {
                        let c = column(x as int, y as int, z0 as int, z as int);
                        assert(mid + c.push(Vec3 { x: x as i32, y: y as i32, z: z as i32 }) =~= (
                        mid + c).push(Vec3 { x: x as i32, y: y as i32, z: z as i32 }));
                    }
                    z = z + 1;
                }
                proof {
                    let s = slab(x as int, y0 as int, y as int, z0 as int, z1 as int);
                    let c = column(x as int, y as int, z0 as int, z1 as int);
                    assert(before + (s + c) =~= (before + s) + c);
                }
                y = y + 1;
            }
            x = x + 1;
        }
        r
    }
}

/// The points `(x, y, z)` for `z` from `z0` up to, not including, `z1`.
pub open spec fn column(x: int, y: int, z0: int, z1: int) -> Seq<Vec3<i32>>
    decreases z1 - z0,
{
    if z1 <= z0 {
        Seq::empty()
    } else {
        column(x, y, z0, z1 - 1).push(Vec3 { x: x as i32, y: y as i32, z: (z1 - 1) as i32 })
    }
}

/// The columns at `x` for `y` from `y0` up to, not including, `y1`.
pub open spec fn slab(x: int, y0: int, y1: int, z0: int, z1: int) -> Seq<Vec3<i32>>
    decreases y1 - y0,
{
    if y1 <= y0 {
        Seq::empty()
    } else {
        slab(x, y0, y1 - 1, z0, z1) + column(x, y1 - 1, z0, z1)
    }
}

/// The slabs for `x` from `x0` up to, not including, `x1`.
pub open spec fn block(x0: int, x1: int, y0: int, y1: int, z0: int, z1: int) -> Seq<Vec3<i32>>
    decreases x1 - x0,
{
    if x1 <= x0 {
        Seq::empty()
    } else {
        block(x0, x1 - 1, y0, y1, z0, z1) + slab(x1 - 1, y0, y1, z0, z1)
    }
}

/// Six values, one for each face of a box.
#[derive(Clone, Copy, PartialEq, Eq, Debug, Default)]
pub struct Surfaces3<T> {
    pub neg_x: T,
    pub pos_x: T,
    pub neg_y: T,
    pub pos_y: T,
    pub neg_z: T,
    pub pos_z: T,
}

impl<T> Surfaces3<T> {
    pub fn new(neg_x: T, pos_x: T, neg_y: T, pos_y: T, neg_z: T, pos_z: T) -> (r: Self)
        ensures
            r == (Surfaces3 { neg_x, pos_x, neg_y, pos_y, neg_z, pos_z }),
    {
        Surfaces3 { neg_x, pos_x, neg_y, pos_y, neg_z, pos_z }
    }
}

/// The number of integers from `a` up to, not including, `b`.
pub open spec fn count_between(a: int, b: int) -> int {
    if b <= a {
        0
    } else {
        b - a
    }
}

/// A point is in a concatenation when it is in one of the parts.
proof fn lemma_contains_add(a: Seq<Vec3<i32>>, b: Seq<Vec3<i32>>, p: Vec3<i32>)
    ensures
        (a + b).contains(p) <==> (a.contains(p) || b.contains(p)),
{
    if (a + b).contains(p) {
        let i = choose|i: int| 0 <= i < (a + b).len() && (a + b)[i] == p;
        if i < a.len() {
            assert(a[i] == p);
        } else {
            assert(b[i - a.len()] == p);
        }
    }
    if a.contains(p) {
        let i = choose|i: int| 0 <= i < a.len() && a[i] == p;
        assert((a + b)[i] == p);
    }
    if b.contains(p) {
        let i = choose|i: int| 0 <= i < b.len() && b[i] == p;
        assert((a + b)[a.len() + i] == p);
    }
}

proof fn lemma_column(x: int, y: int, z0: int, z1: int, p: Vec3<i32>)
    requires
        i32::MIN <= x <= i32::MAX,
        i32::MIN <= y <= i32::MAX,
        i32::MIN <= z0,
        z1 <= i32::MAX + 1,
    ensures
        column(x, y, z0, z1).len() == count_between(z0, z1),
        column(x, y, z0, z1).contains(p) <==> (p.x == x && p.y == y && z0 <= p.z < z1),
    decreases z1 - z0,
{
    if z1 > z0 {
        let c = column(x, y, z0, z1 - 1);
        let q = Vec3 { x: x as i32, y: y as i32, z: (z1 - 1) as i32 };
        lemma_column(x, y, z0, z1 - 1, p);
        if c.push(q).contains(p) {
            let i = choose|i: int| 0 <= i < c.push(q).len() && c.push(q)[i] == p;
            if i < c.len() {
                assert(c[i] == p);
            }
        }
        if c.contains(p) {
            let i = choose|i: int| 0 <= i < c.len() && c[i] == p;
            assert(c.push(q)[i] == p);
        }
        if p == q {
            assert(c.push(q)[c.len() as int] == p);
        }
    }
}

proof fn lemma_slab(x: int, y0: int, y1: int, z0: int, z1: int, p: Vec3<i32>)
    requires
        i32::MIN <= x <= i32::MAX,
        i32::MIN <= y0,
        y1 <= i32::MAX + 1,
        i32::MIN <= z0,
        z1 <= i32::MAX + 1,
    ensures
        slab(x, y0, y1, z0, z1).len() == count_between(y0, y1) * count_between(z0, z1),
        slab(x, y0, y1, z0, z1).contains(p) <==> (p.x == x && y0 <= p.y < y1 && z0 <= p.z < z1),
    decreases y1 - y0,
{
    if y1 > y0 {
        lemma_slab(x, y0, y1 - 1, z0, z1, p);
        lemma_column(x, y1 - 1, z0, z1, p);
        lemma_contains_add(slab(x, y0, y1 - 1, z0, z1), column(x, y1 - 1, z0, z1), p);
        let (ny, nz) = (count_between(y0, y1 - 1), count_between(z0, z1));
        assert(ny * nz + nz == (ny + 1) * nz) by (nonlinear_arith);
    }
}

proof fn lemma_block(x0: int, x1: int, y0: int, y1: int, z0: int, z1: int, p: Vec3<i32>)
    requires
        i32::MIN <= x0,
        x1 <= i32::MAX + 1,
        i32::MIN <= y0,
        y1 <= i32::MAX + 1,
        i32::MIN <= z0,
        z1 <= i32::MAX + 1,
    ensures
        block(x0, x1, y0, y1, z0, z1).len() == count_between(x0, x1) * (count_between(y0, y1)
            * count_between(z0, z1)),
        block(x0, x1, y0, y1, z0, z1).contains(p) <==> (x0 <= p.x < x1 && y0 <= p.y < y1 && z0
            <= p.z < z1),
    decreases x1 - x0,
{
    if x1 > x0 {
        lemma_block(x0, x1 - 1, y0, y1, z0, z1, p);
        lemma_slab(x1 - 1, y0, y1, z0, z1, p);
        lemma_contains_add(block(x0, x1 - 1, y0, y1, z0, z1), slab(x1 - 1, y0, y1, z0, z1), p);
        let (nx, nyz) = (count_between(x0, x1 - 1), count_between(y0, y1) * count_between(z0, z1));
        assert(nx * nyz + nyz == (nx + 1) * nyz) by (nonlinear_arith);
    }
}

/// The points of a box are those that lie within it, corners included, and there are as many
/// as the product of the box's extents along the three axes.
pub proof fn law_box_points(b: Bounds3<i32>, p: Vec3<i32>)
    ensures
        b.points().contains(p) <==> (b.min.x <= p.x <= b.max.x && b.min.y <= p.y <= b.max.y
            && b.min.z <= p.z <= b.max.z),
        b.points().len() == count_between(b.min.x as int, b.max.x + 1) * (count_between(
            b.min.y as int,
            b.max.y + 1,
        ) * count_between(b.min.z as int, b.max.z + 1)),
{
    lemma_block(
        b.min.x as int,
        b.max.x + 1,
        b.min.y as int,
        b.max.y + 1,
        b.min.z as int,
        b.max.z + 1,
        p,
    );
}

/// Distinct directions have distinct numbers, each below 6.
pub proof fn law_direction_codes_distinct(a: Dim3DSigned, b: Dim3DSigned)
    ensures
        0 <= a.code() < 6,
        a.code() == b.code() ==> a == b,
{
}

} // verus!
