use vstd::prelude::*;

verus! {

/// Number of position units in one grid cell: world positions are kept in
/// thousandths of a cell, so every comparison of distances is exact.
pub const MILLI: i32 = 1000;

/// A point on the ground plane, in thousandths of a cell along the world x
/// and z axes. Cell `(cx, cz)` covers the points that round to it.
#[derive(Clone, Copy, Debug, PartialEq, Eq, Structural)]
pub struct Pos {
    pub x: i32,
    pub z: i32,
}

/// Rounds a coordinate given in thousandths to the nearest whole cell,
/// halves away from zero.
pub open spec fn spec_round_milli(v: int) -> int {
    if v >= 0 {
        (v + 500) / 1000
    } else {
        -((-v + 500) / 1000)
    }
}

/// Squared distance, in millionths of a squared cell, between two points.
pub open spec fn spec_dist_sq(a: Pos, b: Pos) -> int {
    (a.x - b.x) * (a.x - b.x) + (a.z - b.z) * (a.z - b.z)
}

/// The point at the centre of a cell.
pub open spec fn spec_cell_center(cx: int, cz: int) -> Pos {
    Pos { x: (cx * 1000) as i32, z: (cz * 1000) as i32 }
}

/// Rounds a coordinate in thousandths to the nearest whole cell.
pub fn round_milli(v: i32) -> (r: i32)
    ensures
        r as int == spec_round_milli(v as int),
        -2147484 <= r <= 2147484,
{
    if v >= 0 {
        let w: i64 = v as i64 + 500;
        (w / 1000) as i32
    } else {
        let w: i64 = -(v as i64) + 500;
        -((w / 1000) as i32)
    }
}

impl Pos {
    /// The cell that this point falls in (each coordinate rounded to the nearest cell).
    pub fn cell(&self) -> (r: (i32, i32))
        ensures
            r.0 as int == spec_round_milli(self.x as int),
            r.1 as int == spec_round_milli(self.z as int),
    {
        (round_milli(self.x), round_milli(self.z))
    }

    /// The centre of a cell, as a point.
    pub fn from_cell(cx: i32, cz: i32) -> (r: Pos)
        requires
            -2147483 <= cx <= 2147483,
            -2147483 <= cz <= 2147483,
        ensures
            r == spec_cell_center(cx as int, cz as int),
            r.x == cx * 1000,
            r.z == cz * 1000,
    {
        Pos { x: cx * 1000, z: cz * 1000 }
    }

    /// Squared distance between two points, in millionths of a squared cell.
    pub fn dist_sq(&self, other: &Pos) -> (r: i128)
        ensures
            r as int == spec_dist_sq(*self, *other),
    {
        let dx: i128 = self.x as i128 - other.x as i128;
        let dz: i128 = self.z as i128 - other.z as i128;
        assert(0 <= dx * dx <= 0x1_0000_0000_0000_0000) by (nonlinear_arith)
            requires -0x1_0000_0000 <= dx <= 0x1_0000_0000;
        assert(0 <= dz * dz <= 0x1_0000_0000_0000_0000) by (nonlinear_arith)
            requires -0x1_0000_0000 <= dz <= 0x1_0000_0000;
        dx * dx + dz * dz
    }
}

} // verus!
