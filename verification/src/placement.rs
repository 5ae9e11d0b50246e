use vstd::prelude::*;
use crate::geometry::{Pos, spec_round_milli};
use crate::grid::Grid;

verus! {

/// Rounds a coordinate in thousandths to whole cells, halves away from zero.
pub fn round_milli_wide(v: i64) -> (r: i64)
    requires
        -0x4000_0000_0000_0000 <= v <= 0x4000_0000_0000_0000,
    ensures
        r as int == spec_round_milli(v as int),
{
    if v >= 0 {
        (v + 500) / 1000
    } else {
        -((-v + 500) / 1000)
    }
}

/// The corner cell (least x and z) of the footprint of a building of `size`
/// cells centred at `center`.
pub open spec fn spec_footprint_min(center: Pos, size: (i32, i32)) -> (int, int) {
    (
        spec_round_milli(center.x - size.0 * 500 + 500),
        spec_round_milli(center.z - size.1 * 500 + 500),
    )
}

/// The corner cell of the footprint of a building centred at `center`.
pub fn footprint_min(center: Pos, size: (i32, i32)) -> (r: (i32, i32))
    ensures
        r.0 as int == spec_footprint_min(center, size).0,
        r.1 as int == spec_footprint_min(center, size).1,
{
    let vx: i64 = center.x as i64 - size.0 as i64 * 500 + 500;
    let vz: i64 = center.z as i64 - size.1 as i64 * 500 + 500;
    let rx = round_milli_wide(vx);
    let rz = round_milli_wide(vz);
    (rx as i32, rz as i32)
}

/// Where a building whose footprint starts at `min` stands: the centre of
/// its footprint, in thousandths of a cell.
pub fn footprint_center(min: (i32, i32), size: (i32, i32)) -> (r: (i64, i64))
    ensures
        r.0 == min.0 * 1000 + size.0 * 500 - 500,
        r.1 == min.1 * 1000 + size.1 * 500 - 500,
{
    (min.0 as i64 * 1000 + size.0 as i64 * 500 - 500, min.1 as i64 * 1000 + size.1 as i64 * 500 - 500)
}

/// Cell `c` lies in the footprint of `size` cells starting at `min`.
pub open spec fn spec_in_footprint(min: (i32, i32), size: (i32, i32), c: (i32, i32)) -> bool {
    min.0 <= c.0 < min.0 + size.0 && min.1 <= c.1 < min.1 + size.1
}

/// Whether a cell lies in a footprint.
pub fn in_footprint(min: (i32, i32), size: (i32, i32), c: (i32, i32)) -> (r: bool)
    ensures
        r == spec_in_footprint(min, size, c),
{
    let max_x: i64 = min.0 as i64 + size.0 as i64;
    let max_z: i64 = min.1 as i64 + size.1 as i64;
    min.0 <= c.0 && (c.0 as i64) < max_x && min.1 <= c.1 && (c.1 as i64) < max_z
}

/// An existing building, as placement sees it: the corner and size of its
/// footprint, and how far from it (in cells) new buildings may be placed.
#[derive(Clone, Copy, Debug)]
pub struct BuildingExtent {
    pub min: (i32, i32),
    pub size: (i32, i32),
    pub influence_radius: u32,
}

/// The gap, in whole cells along the larger axis, between a footprint and
/// an existing building.
pub open spec fn spec_gap(min: (i32, i32), size: (i32, i32), b: BuildingExtent) -> int {
    let max_x = min.0 + size.0;
    let max_z = min.1 + size.1;
    let b_max_x = b.min.0 + b.size.0;
    let b_max_z = b.min.1 + b.size.1;
    let dx = if max_x <= b.min.0 { b.min.0 - max_x } else if min.0 >= b_max_x { min.0 - b_max_x } else { 0 };
    let dz = if max_z <= b.min.1 { b.min.1 - max_z } else if min.1 >= b_max_z { min.1 - b_max_z } else { 0 };
    if dx >= dz { dx } else { dz }
}

/// A footprint lies within the influence of an existing building.
pub open spec fn spec_in_influence(min: (i32, i32), size: (i32, i32), b: BuildingExtent) -> bool {
    spec_gap(min, size, b) <= b.influence_radius
}

/// The gap between a footprint and an existing building.
pub fn gap(min: (i32, i32), size: (i32, i32), b: &BuildingExtent) -> (r: i64)
    ensures
        r as int == spec_gap(min, size, *b),
{
    let max_x: i64 = min.0 as i64 + size.0 as i64;
    let max_z: i64 = min.1 as i64 + size.1 as i64;
    let b_max_x: i64 = b.min.0 as i64 + b.size.0 as i64;
    let b_max_z: i64 = b.min.1 as i64 + b.size.1 as i64;
    let dx: i64 = if max_x <= b.min.0 as i64 {
        b.min.0 as i64 - max_x
    } else if min.0 as i64 >= b_max_x {
        min.0 as i64 - b_max_x
    } else {
        0
    };
    let dz: i64 = if max_z <= b.min.1 as i64 {
        b.min.1 as i64 - max_z
    } else if min.1 as i64 >= b_max_z {
        min.1 as i64 - b_max_z
    } else {
        0
    };
    if dx >= dz { dx } else { dz }
}

/// No cell of the footprint is blocked in the grid.
pub open spec fn spec_footprint_unblocked(grid: Grid, min: (i32, i32), size: (i32, i32)) -> bool {
    forall|x: int, z: int| min.0 <= x < min.0 + size.0 && min.1 <= z < min.1 + size.1 ==> !#[trigger] grid.spec_is_blocked(x, z)
}

/// None of the cells lies in the footprint.
pub open spec fn spec_none_in_footprint(cells: Seq<(i32, i32)>, min: (i32, i32), size: (i32, i32)) -> bool {
    forall|i: int| 0 <= i < cells.len() ==> !spec_in_footprint(min, size, #[trigger] cells[i])
}

/// A footprint is clear: no blocked grid cell, no unit and no ore field on it.
pub open spec fn spec_footprint_clear(grid: Grid, min: (i32, i32), size: (i32, i32), units: Seq<(i32, i32)>, ores: Seq<(i32, i32)>) -> bool {
    &&& spec_footprint_unblocked(grid, min, size)
    &&& spec_none_in_footprint(units, min, size)
    &&& spec_none_in_footprint(ores, min, size)
}

/// A building may go at a footprint: it is clear, and it is the player's
/// first building or lies within the influence of one of their buildings.
pub open spec fn spec_valid_placement(grid: Grid, min: (i32, i32), size: (i32, i32), units: Seq<(i32, i32)>, ores: Seq<(i32, i32)>, extents: Seq<BuildingExtent>) -> bool {
    &&& spec_footprint_clear(grid, min, size, units, ores)
    &&& (extents.len() == 0 || exists|i: int| 0 <= i < extents.len() && spec_in_influence(min, size, #[trigger] extents[i]))
}

/// The footprint at `min` of `size` and the building `b`'s footprint grown
/// by `b`'s influence radius on every side meet (touch or overlap) both
/// along x and along z.
pub open spec fn spec_reaches_influence(min: (i32, i32), size: (i32, i32), b: BuildingExtent) -> bool {
    let r = b.influence_radius as int;
    &&& min.0 <= b.min.0 + b.size.0 + r && b.min.0 - r <= min.0 + size.0
    &&& min.1 <= b.min.1 + b.size.1 + r && b.min.1 - r <= min.1 + size.1
}

/// A footprint may be placed exactly when it is clear of blocked cells,
/// units and ore, and either the player has no building yet or, for one of
/// their buildings, the footprint lies within that building's influence
/// radius along both axes (the footprint meets the building grown by its
/// radius); being close along one axis only is not enough.
pub proof fn law_placement_needs_influence_on_both_axes(
    grid: Grid, min: (i32, i32), size: (i32, i32), units: Seq<(i32, i32)>, ores: Seq<(i32, i32)>, extents: Seq<BuildingExtent>,
)
    requires
        size.0 >= 0 && size.1 >= 0,
        forall|i: int| 0 <= i < extents.len() ==> (#[trigger] extents[i]).size.0 >= 0 && extents[i].size.1 >= 0,
    ensures
        spec_valid_placement(grid, min, size, units, ores, extents) == (
            spec_footprint_clear(grid, min, size, units, ores)
            && (extents.len() == 0 || exists|i: int| 0 <= i < extents.len() && spec_reaches_influence(min, size, #[trigger] extents[i]))
        ),
{
    assert forall|i: int| 0 <= i < extents.len() implies
        spec_in_influence(min, size, #[trigger] extents[i]) == spec_reaches_influence(min, size, extents[i]) by {
        let e = extents[i];
        assert(e.size.0 >= 0 && e.size.1 >= 0);
    }
    if extents.len() > 0 {
        if exists|i: int| 0 <= i < extents.len() && spec_in_influence(min, size, #[trigger] extents[i]) {
            let i = choose|i: int| 0 <= i < extents.len() && spec_in_influence(min, size, #[trigger] extents[i]);
            assert(spec_reaches_influence(min, size, extents[i]));
        }
        if exists|i: int| 0 <= i < extents.len() && spec_reaches_influence(min, size, #[trigger] extents[i]) {
            let i = choose|i: int| 0 <= i < extents.len() && spec_reaches_influence(min, size, #[trigger] extents[i]);
            assert(spec_in_influence(min, size, extents[i]));
        }
    }
}

/// Whether a cell, given in wide coordinates, can not be entered.
fn blocked_wide(grid: &Grid, x: i64, z: i64) -> (r: bool)
    requires
        grid.wf(),
    ensures
        r == grid.spec_is_blocked(x as int, z as int),
{
    proof { grid.lemma_dims(); }
    if x < i32::MIN as i64 || x > i32::MAX as i64 || z < i32::MIN as i64 || z > i32::MAX as i64 {
        return true;
    }
    grid.is_blocked(x as i32, z as i32)
}

/// Whether no cell of a footprint is blocked.
pub fn footprint_unblocked(grid: &Grid, min: (i32, i32), size: (i32, i32)) -> (r: bool)
    requires
        grid.wf(),
    ensures
        r == spec_footprint_unblocked(*grid, min, size),
{
    let mut dz: i64 = 0;
    while dz < size.1 as i64
        invariant
            grid.wf(),
            0 <= dz,
            size.1 >= 0 ==> dz <= size.1,
            size.1 < 0 ==> dz == 0,
            forall|x: int, z: int| min.0 <= x < min.0 + size.0 && min.1 <= z < min.1 + dz ==> !#[trigger] grid.spec_is_blocked(x, z),
        decreases size.1 - dz,
    {
        let mut dx: i64 = 0;
        while dx < size.0 as i64
            invariant
                grid.wf(),
                0 <= dz < size.1,
                0 <= dx,
                size.0 >= 0 ==> dx <= size.0,
                size.0 < 0 ==> dx == 0,
                forall|x: int, z: int| min.0 <= x < min.0 + size.0 && min.1 <= z < min.1 + dz ==> !#[trigger] grid.spec_is_blocked(x, z),
                forall|x: int| min.0 <= x < min.0 + dx ==> !#[trigger] grid.spec_is_blocked(x, min.1 + dz),
            decreases size.0 - dx,
        {
            if blocked_wide(grid, min.0 as i64 + dx, min.1 as i64 + dz) {
                return false;
            }
            dx = dx + 1;
        }
        dz = dz + 1;
    }
    true
}

/// Whether none of the cells lies in the footprint.
pub fn none_in_footprint(cells: &Vec<(i32, i32)>, min: (i32, i32), size: (i32, i32)) -> (r: bool)
    ensures
        r == spec_none_in_footprint(cells@, min, size),
{
    let mut i: usize = 0;
    while i < cells.len()
        invariant
            i <= cells.len(),
            forall|j: int| 0 <= j < i ==> !spec_in_footprint(min, size, #[trigger] cells@[j]),
        decreases cells.len() - i,
    {
        if in_footprint(min, size, cells[i]) {
            return false;
        }
        i = i + 1;
    }
    true
}

/// Whether a footprint is clear of blocked cells, units and ore fields.
pub fn footprint_clear(grid: &Grid, min: (i32, i32), size: (i32, i32), units: &Vec<(i32, i32)>, ores: &Vec<(i32, i32)>) -> (r: bool)
    requires
        grid.wf(),
    ensures
        r == spec_footprint_clear(*grid, min, size, units@, ores@),
{
    footprint_unblocked(grid, min, size) && none_in_footprint(units, min, size) && none_in_footprint(ores, min, size)
}

/// Whether a building may go at a footprint: clear, and the first building
/// or within the influence of an existing one.
pub fn is_valid_placement(
    grid: &Grid,
    min: (i32, i32),
    size: (i32, i32),
    units: &Vec<(i32, i32)>,
    ores: &Vec<(i32, i32)>,
    extents: &Vec<BuildingExtent>,
) -> (r: bool)
    requires
        grid.wf(),
    ensures
        r == spec_valid_placement(*grid, min, size, units@, ores@, extents@),
{
    if !footprint_clear(grid, min, size, units, ores) {
        return false;
    }
    if extents.len() == 0 {
        assert(spec_footprint_clear(*grid, min, size, units@, ores@));
        assert(extents@.len() == 0);
        return true;
    }
    let mut i: usize = 0;
    while i < extents.len()
        invariant
            i <= extents.len(),
            spec_footprint_clear(*grid, min, size, units@, ores@),
            forall|j: int| 0 <= j < i ==> !spec_in_influence(min, size, #[trigger] extents@[j]),
        decreases extents.len() - i,
    {
        if gap(min, size, &extents[i]) <= extents[i].influence_radius as i64 {
            assert(spec_in_influence(min, size, extents@[i as int]));
            return true;
        }
        i = i + 1;
    }
    false
}

/// Marks every cell of a footprint as blocked (or frees it) in the grid.
pub fn set_footprint_blocked(grid: &mut Grid, min: (i32, i32), size: (i32, i32), blocked: bool)
    requires
        old(grid).wf(),
    ensures
        final(grid).wf(),
        final(grid).spec_width() == old(grid).spec_width(),
        final(grid).spec_height() == old(grid).spec_height(),
        final(grid).spec_screen_width() == old(grid).spec_screen_width(),
        final(grid).spec_screen_height() == old(grid).spec_screen_height(),
        forall|x: int, z: int| old(grid).spec_in_bounds(x, z) ==> #[trigger] final(grid).cell_blocked(x, z) ==
            if min.0 <= x < min.0 + size.0 && min.1 <= z < min.1 + size.1 { blocked } else { old(grid).cell_blocked(x, z) },
        forall|x: int, z: int| old(grid).spec_in_bounds(x, z) ==> #[trigger] final(grid).cell_static_blocked(x, z) ==
            if min.0 <= x < min.0 + size.0 && min.1 <= z < min.1 + size.1 { blocked } else { old(grid).cell_static_blocked(x, z) },
        forall|x: int, z: int| old(grid).spec_in_bounds(x, z) ==> #[trigger] final(grid).cell_cost(x, z) == old(grid).cell_cost(x, z),
{
    proof { old(grid).lemma_dims(); }
    let mut dz: i64 = 0;
    while dz < size.1 as i64
        invariant
            grid.wf(),
            0 <= dz,
            size.1 >= 0 ==> dz <= size.1,
            size.1 < 0 ==> dz == 0,
            grid.spec_width() == old(grid).spec_width(),
            grid.spec_height() == old(grid).spec_height(),
            grid.spec_screen_width() == old(grid).spec_screen_width(),
            grid.spec_screen_height() == old(grid).spec_screen_height(),
            0 <= grid.spec_width() <= i32::MAX,
            0 <= grid.spec_height() <= i32::MAX,
            forall|x: int, z: int| old(grid).spec_in_bounds(x, z) ==> #[trigger] grid.cell_blocked(x, z) ==
                if min.0 <= x < min.0 + size.0 && min.1 <= z < min.1 + dz { blocked } else { old(grid).cell_blocked(x, z) },
            forall|x: int, z: int| old(grid).spec_in_bounds(x, z) ==> #[trigger] grid.cell_static_blocked(x, z) ==
                if min.0 <= x < min.0 + size.0 && min.1 <= z < min.1 + dz { blocked } else { old(grid).cell_static_blocked(x, z) },
            forall|x: int, z: int| old(grid).spec_in_bounds(x, z) ==> #[trigger] grid.cell_cost(x, z) == old(grid).cell_cost(x, z),
        decreases size.1 - dz,
    {
        let mut dx: i64 = 0;
        while dx < size.0 as i64
            invariant
                grid.wf(),
                0 <= dz < size.1,
                0 <= dx,
                size.0 >= 0 ==> dx <= size.0,
                size.0 < 0 ==> dx == 0,
                grid.spec_width() == old(grid).spec_width(),
                grid.spec_height() == old(grid).spec_height(),
                grid.spec_screen_width() == old(grid).spec_screen_width(),
                grid.spec_screen_height() == old(grid).spec_screen_height(),
                0 <= grid.spec_width() <= i32::MAX,
                0 <= grid.spec_height() <= i32::MAX,
                forall|x: int, z: int| old(grid).spec_in_bounds(x, z) ==> #[trigger] grid.cell_blocked(x, z) ==
                    if (min.0 <= x < min.0 + size.0 && min.1 <= z < min.1 + dz) || (min.0 <= x < min.0 + dx && z == min.1 + dz) { blocked } else { old(grid).cell_blocked(x, z) },
                forall|x: int, z: int| old(grid).spec_in_bounds(x, z) ==> #[trigger] grid.cell_static_blocked(x, z) ==
                    if (min.0 <= x < min.0 + size.0 && min.1 <= z < min.1 + dz) || (min.0 <= x < min.0 + dx && z == min.1 + dz) { blocked } else { old(grid).cell_static_blocked(x, z) },
                forall|x: int, z: int| old(grid).spec_in_bounds(x, z) ==> #[trigger] grid.cell_cost(x, z) == old(grid).cell_cost(x, z),
            decreases size.0 - dx,
        {
            let cx: i64 = min.0 as i64 + dx;
            let cz: i64 = min.1 as i64 + dz;
            let ghost prev = *grid;
            if cx >= 0 && cx <= i32::MAX as i64 && cz >= 0 && cz <= i32::MAX as i64 {
                grid.set_blocked(cx as i32, cz as i32, blocked);
            }
            proof {
                assert forall|x: int, z: int| old(grid).spec_in_bounds(x, z) implies
                    (#[trigger] grid.cell_blocked(x, z) == if (x == cx && z == cz) { blocked } else { prev.cell_blocked(x, z) })
                    && grid.cell_static_blocked(x, z) == (if (x == cx && z == cz) { blocked } else { prev.cell_static_blocked(x, z) })
                    && grid.cell_cost(x, z) == prev.cell_cost(x, z) by {
                }
                assert forall|x: int, z: int| old(grid).spec_in_bounds(x, z) implies
                    #[trigger] grid.cell_static_blocked(x, z) == (if (x == cx && z == cz) { blocked } else { prev.cell_static_blocked(x, z) }) by {
                }
                assert forall|x: int, z: int| old(grid).spec_in_bounds(x, z) implies
                    #[trigger] grid.cell_cost(x, z) == prev.cell_cost(x, z) by {
                }
            }
            dx = dx + 1;
        }
        proof {
            assert(size.0 < 0 || dx == size.0);
            assert forall|x: int, z: int| old(grid).spec_in_bounds(x, z) implies #[trigger] grid.cell_blocked(x, z) ==
                    if (min.0 <= x < min.0 + size.0 && min.1 <= z < min.1 + dz) || (min.0 <= x < min.0 + dx && z == min.1 + dz) { blocked } else { old(grid).cell_blocked(x, z) } by {
            }
            assert forall|x: int, z: int| old(grid).spec_in_bounds(x, z) implies #[trigger] grid.cell_blocked(x, z) ==
                if min.0 <= x < min.0 + size.0 && min.1 <= z < min.1 + dz + 1 { blocked } else { old(grid).cell_blocked(x, z) } by {
                let in_old_rows = min.0 <= x < min.0 + size.0 && min.1 <= z < min.1 + dz;
                let in_row = min.0 <= x < min.0 + dx && z == min.1 + dz;
                let target = min.0 <= x < min.0 + size.0 && min.1 <= z < min.1 + dz + 1;
                assert(target == (in_old_rows || in_row));
            }
            assert forall|x: int, z: int| old(grid).spec_in_bounds(x, z) implies #[trigger] grid.cell_static_blocked(x, z) ==
                if min.0 <= x < min.0 + size.0 && min.1 <= z < min.1 + dz + 1 { blocked } else { old(grid).cell_static_blocked(x, z) } by {
            }
        }
        dz = dz + 1;
    }
}

} // verus!
