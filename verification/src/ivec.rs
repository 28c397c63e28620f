//! Integer vectors: voxels, chunks, field cells and body keys.
use vstd::prelude::*;

verus! {

/// A point of the integer lattice.
#[derive(Clone, Copy, PartialEq, Eq, Structural, Debug)]
pub struct IVec3 {
    pub x: i32,
    pub y: i32,
    pub z: i32,
}

/// Whether an integer fits in one coordinate.
pub open spec fn fits(n: int) -> bool {
    i32::MIN <= n <= i32::MAX
}

/// The larger of two integers.
pub open spec fn larger(a: int, b: int) -> int {
    if a >= b {
        a
    } else {
        b
    }
}

/// Distance of an integer from zero.
pub open spec fn magnitude(n: int) -> int {
    if n >= 0 {
        n
    } else {
        -n
    }
}

/// The three coordinates of a vector as mathematical integers, so that sums
/// and differences never wrap.
pub struct Point {
    pub x: int,
    pub y: int,
    pub z: int,
}

impl Point {
    pub open spec fn plus(self, o: Point) -> Point {
        Point { x: self.x + o.x, y: self.y + o.y, z: self.z + o.z }
    }

    pub open spec fn minus(self, o: Point) -> Point {
        Point { x: self.x - o.x, y: self.y - o.y, z: self.z - o.z }
    }

    pub open spec fn scaled(self, k: int) -> Point {
        Point { x: self.x * k, y: self.y * k, z: self.z * k }
    }

    /// Every coordinate fits in a machine word.
    pub open spec fn representable(self) -> bool {
        fits(self.x) && fits(self.y) && fits(self.z)
    }

    pub open spec fn length_squared(self) -> int {
        self.x * self.x + self.y * self.y + self.z * self.z
    }

    /// Chebyshev norm.
    pub open spec fn max_abs(self) -> int {
        larger(larger(magnitude(self.x), magnitude(self.y)), magnitude(self.z))
    }

    /// Inside the box spanned by two corners, both included.
    pub open spec fn within(self, lo: Point, hi: Point) -> bool {
        &&& lo.x <= self.x <= hi.x
        &&& lo.y <= self.y <= hi.y
        &&& lo.z <= self.z <= hi.z
    }

    pub open spec fn lattice(self) -> IVec3 {
        IVec3 { x: self.x as i32, y: self.y as i32, z: self.z as i32 }
    }
}

impl View for IVec3 {
    type V = Point;

    open spec fn view(&self) -> Point {
        Point { x: self.x as int, y: self.y as int, z: self.z as int }
    }
}

/// The lattice origin.
pub open spec fn origin() -> IVec3 {
    IVec3 { x: 0, y: 0, z: 0 }
}

impl IVec3 {
    pub fn new(x: i32, y: i32, z: i32) -> (v: IVec3)
        ensures
            v == (IVec3 { x, y, z }),
    {
        IVec3 { x, y, z }
    }

    pub fn zero() -> (v: IVec3)
        ensures
            v == origin(),
    {
        IVec3 { x: 0, y: 0, z: 0 }
    }

    /// The sum, when every coordinate of it fits.
    pub fn checked_add(self, o: IVec3) -> (r: Option<IVec3>)
        ensures
            r is Some <==> self@.plus(o@).representable(),
            r matches Some(s) ==> s@ == self@.plus(o@),
            r is Some <==> i32::MIN <= self.x + o.x <= i32::MAX && i32::MIN <= self.y + o.y
                <= i32::MAX && i32::MIN <= self.z + o.z <= i32::MAX,
            r matches Some(s) ==> s.x == self.x + o.x && s.y == self.y + o.y && s.z == self.z + o.z,
    {
        match (self.x.checked_add(o.x), self.y.checked_add(o.y), self.z.checked_add(o.z)) {
            (Some(x), Some(y), Some(z)) => Some(IVec3 { x, y, z }),
            _ => None,
        }
    }

    /// The difference, when every coordinate of it fits.
    pub fn checked_sub(self, o: IVec3) -> (r: Option<IVec3>)
        ensures
            r is Some <==> self@.minus(o@).representable(),
            r matches Some(s) ==> s@ == self@.minus(o@),
            r is Some <==> i32::MIN <= self.x - o.x <= i32::MAX && i32::MIN <= self.y - o.y
                <= i32::MAX && i32::MIN <= self.z - o.z <= i32::MAX,
            r matches Some(s) ==> s.x == self.x - o.x && s.y == self.y - o.y && s.z == self.z - o.z,
    {
        match (self.x.checked_sub(o.x), self.y.checked_sub(o.y), self.z.checked_sub(o.z)) {
            (Some(x), Some(y), Some(z)) => Some(IVec3 { x, y, z }),
            _ => None,
        }
    }

    /// Inside the box spanned by `lo` and `hi`, both included.
    pub fn within(self, lo: IVec3, hi: IVec3) -> (r: bool)
        ensures
            r == self@.within(lo@, hi@),
            r == (lo.x <= self.x <= hi.x && lo.y <= self.y <= hi.y && lo.z <= self.z <= hi.z),
    {
        lo.x <= self.x && self.x <= hi.x && lo.y <= self.y && self.y <= hi.y && lo.z <= self.z
            && self.z <= hi.z
    }
}

/// Two vectors with the same coordinates are the same vector.
pub broadcast proof fn lemma_view_injective(a: IVec3, b: IVec3)
    requires
        #[trigger] a@ == #[trigger] b@,
    ensures
        a == b,
{
}

/// A representable point is the view of a lattice vector.
pub broadcast proof fn lemma_lattice_view(p: Point)
    requires
        p.representable(),
    ensures
        #[trigger] p.lattice()@ == p,
{
}

/// Sums, differences and norms of points go coordinate by coordinate, and a box
/// holds what lies between its corners along every axis.
pub proof fn law_points_by_coordinates(a: Point, b: Point, c: Point)
    ensures
        a.plus(b).x == a.x + b.x && a.plus(b).y == a.y + b.y && a.plus(b).z == a.z + b.z,
        a.plus(b).minus(b) == a,
        a.minus(b).plus(b) == a,
        a.within(b, c) <==> b.x <= a.x <= c.x && b.y <= a.y <= c.y && b.z <= a.z <= c.z,
        a.length_squared() == a.x * a.x + a.y * a.y + a.z * a.z,
        forall|n: int|
            #![trigger magnitude(n)]
            a.max_abs() <= n <==> -n <= a.x <= n && -n <= a.y <= n && -n <= a.z <= n,
{
}

/// `2^32`, the number of values of one coordinate.
pub open spec fn span() -> int {
    0x1_0000_0000
}

/// One number for all three coordinates.
pub open spec fn packed(v: IVec3) -> int {
    ((v.x + 0x8000_0000) * span() + (v.y + 0x8000_0000)) * span() + (v.z + 0x8000_0000)
}

/// The vector behind a packed number.
pub open spec fn unpacked(k: int) -> IVec3 {
    IVec3 {
        x: (k / span() / span() - 0x8000_0000) as i32,
        y: (k / span() % span() - 0x8000_0000) as i32,
        z: (k % span() - 0x8000_0000) as i32,
    }
}

/// Packing loses nothing.
pub proof fn lemma_unpack_packed(v: IVec3)
    ensures
        unpacked(packed(v)) == v,
        0 <= packed(v) < span() * span() * span(),
{
}

/// Every number below the cube of the span is a packed vector.
pub proof fn lemma_pack_unpacked(k: int)
    requires
        0 <= k < span() * span() * span(),
    ensures
        packed(unpacked(k)) == k,
{
}

impl IVec3 {
    /// The vector as one integer, for use as a hash key.
    pub fn pack(self) -> (k: u128)
        ensures
            k == packed(self),
    {
        let x: u128 = (self.x as i64 + 0x8000_0000i64) as u128;
        let y: u128 = (self.y as i64 + 0x8000_0000i64) as u128;
        let z: u128 = (self.z as i64 + 0x8000_0000i64) as u128;
        (x * 0x1_0000_0000 + y) * 0x1_0000_0000 + z
    }

    /// The vector behind a hash key.
    pub fn unpack(k: u128) -> (v: IVec3)
        requires
            k < span() * span() * span(),
        ensures
            v == unpacked(k as int),
    {
        let x: u128 = k / 0x1_0000_0000 / 0x1_0000_0000;
        let y: u128 = k / 0x1_0000_0000 % 0x1_0000_0000;
        let z: u128 = k % 0x1_0000_0000;
        IVec3 {
            x: (x as i64 - 0x8000_0000i64) as i32,
            y: (y as i64 - 0x8000_0000i64) as i32,
            z: (z as i64 - 0x8000_0000i64) as i32,
        }
    }
}

} // verus!
