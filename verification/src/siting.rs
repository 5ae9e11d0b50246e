use vstd::prelude::*;
use crate::geometry::{Pos, spec_round_milli, spec_cell_center};
use crate::grid::Grid;
use crate::placement::{BuildingExtent, spec_footprint_min, spec_valid_placement, footprint_min, is_valid_placement};
use crate::army::spec_pos_in_world;

verus! {

/// What a computer player knows when it sites a building: the grid, the
/// cells its units stand on, the cells of ore fields, and its buildings.
pub struct SiteWorld {
    pub grid: Grid,
    pub units: Seq<(i32, i32)>,
    pub ores: Seq<(i32, i32)>,
    pub extents: Seq<BuildingExtent>,
}

/// The world as a site search sees it.
pub open spec fn spec_world(grid: Grid, units: Seq<(i32, i32)>, ores: Seq<(i32, i32)>, extents: Seq<BuildingExtent>) -> SiteWorld {
    SiteWorld { grid, units, ores, extents }
}

/// A building of `size` cells may be centred at `pos`.
pub open spec fn spec_valid_at(w: SiteWorld, pos: Pos, size: (i32, i32)) -> bool {
    let m = spec_footprint_min(pos, size);
    spec_valid_placement(w.grid, (m.0 as i32, m.1 as i32), size, w.units, w.ores, w.extents)
}

/// Whether a building of `size` cells may be centred at `pos`.
pub fn valid_at(
    grid: &Grid,
    pos: Pos,
    size: (i32, i32),
    units: &Vec<(i32, i32)>,
    ores: &Vec<(i32, i32)>,
    extents: &Vec<BuildingExtent>,
) -> (r: bool)
    requires
        grid.wf(),
    ensures
        r == spec_valid_at(spec_world(*grid, units@, ores@, extents@), pos, size),
{
    let m = footprint_min(pos, size);
    is_valid_placement(grid, m, size, units, ores, extents)
}

/// Some ore field lies on cell `c`.
pub open spec fn spec_ore_at(ores: Seq<(i32, i32)>, c: (int, int)) -> bool {
    exists|i: int| 0 <= i < ores.len() && (#[trigger] ores[i]).0 == c.0 && ores[i].1 == c.1
}

/// Whether some ore field lies on a cell.
pub fn ore_at(ores: &Vec<(i32, i32)>, cx: i64, cz: i64) -> (r: bool)
    ensures
        r == spec_ore_at(ores@, (cx as int, cz as int)),
{
    let mut i: usize = 0;
    while i < ores.len()
        invariant
            i <= ores.len(),
            forall|j: int| 0 <= j < i ==> !((#[trigger] ores@[j]).0 == cx && ores@[j].1 == cz),
        decreases ores.len() - i,
    {
        if ores[i].0 as i64 == cx && ores[i].1 as i64 == cz {
            return true;
        }
        i = i + 1;
    }
    false
}

pub open spec fn spec_abs(v: int) -> int {
    if v >= 0 { v } else { -v }
}

/// Offset `(dx, dz)` lies on the square ring of radius `r`.
pub open spec fn spec_on_ring(r: int, dx: int, dz: int) -> bool {
    -r <= dx <= r && -r <= dz <= r && (spec_abs(dx) == r || spec_abs(dz) == r)
}

/// Triples in the order of a scan whose outer loop runs over the first
/// coordinate, then the second, then the third.
pub open spec fn spec_lex_lt(a: (int, int, int), b: (int, int, int)) -> bool {
    a.0 < b.0 || (a.0 == b.0 && (a.1 < b.1 || (a.1 == b.1 && a.2 < b.2)))
}

/// The cell of refinery candidate `k` (0 to 8) next to the ring cell at
/// offset `(dx, dz)` from `b`: the neighbours, the cell itself among them,
/// in the order `(-1, -1), (-1, 0), (-1, 1), (0, -1), ..., (1, 1)`.
pub open spec fn spec_refinery_cell(b: (int, int), dx: int, dz: int, k: int) -> (int, int) {
    (b.0 + dx + k / 3 - 1, b.1 + dz + k % 3 - 1)
}

/// Manhattan distance, in thousandths of a cell, from `base` to the centre
/// of cell `c`.
pub open spec fn spec_manhattan(base: Pos, c: (int, int)) -> int {
    spec_abs(c.0 * 1000 - base.x) + spec_abs(c.1 * 1000 - base.z)
}

/// Candidate `(dx, dz, k)` of ring `r` is a valid refinery site: the ring
/// cell holds ore and a refinery may stand on the candidate cell.
pub open spec fn spec_refinery_valid(w: SiteWorld, size: (i32, i32), b: (int, int), r: int, c: (int, int, int)) -> bool {
    &&& 0 <= c.2 < 9
    &&& spec_on_ring(r, c.0, c.1)
    &&& spec_ore_at(w.ores, (b.0 + c.0, b.1 + c.1))
    &&& spec_valid_at(w, spec_cell_center(spec_refinery_cell(b, c.0, c.1, c.2).0, spec_refinery_cell(b, c.0, c.1, c.2).1), size)
}

/// The distance from `base` of a refinery candidate.
pub open spec fn spec_refinery_dist(base: Pos, b: (int, int), c: (int, int, int)) -> int {
    spec_manhattan(base, spec_refinery_cell(b, c.0, c.1, c.2))
}

/// Ring `r` holds a valid refinery site.
pub open spec fn spec_refinery_ring_has(w: SiteWorld, size: (i32, i32), b: (int, int), r: int) -> bool {
    exists|c: (int, int, int)| #[trigger] spec_refinery_valid(w, size, b, r, c)
}

/// Candidate `c` is the valid site of ring `r` closest to `base`, and the
/// first in scan order among equally close ones.
pub open spec fn spec_refinery_best(w: SiteWorld, base: Pos, size: (i32, i32), b: (int, int), r: int, c: (int, int, int)) -> bool {
    &&& spec_refinery_valid(w, size, b, r, c)
    &&& forall|c2: (int, int, int)| #[trigger] spec_refinery_valid(w, size, b, r, c2) ==> {
        &&& spec_refinery_dist(base, b, c2) >= spec_refinery_dist(base, b, c)
        &&& (spec_lex_lt(c2, c) ==> spec_refinery_dist(base, b, c2) > spec_refinery_dist(base, b, c))
    }
}

/// What a ring scan has found before reaching candidate `bound`.
pub open spec fn spec_refinery_so_far(w: SiteWorld, base: Pos, size: (i32, i32), b: (int, int), r: int, best: Option<(int, int, int)>, best_dist: int, bound: (int, int, int)) -> bool {
    match best {
        None => forall|c2: (int, int, int)| spec_lex_lt(c2, bound) ==> !#[trigger] spec_refinery_valid(w, size, b, r, c2),
        Some(c) => {
            &&& spec_lex_lt(c, bound)
            &&& spec_refinery_valid(w, size, b, r, c)
            &&& best_dist == spec_refinery_dist(base, b, c)
            &&& forall|c2: (int, int, int)| spec_lex_lt(c2, bound) && #[trigger] spec_refinery_valid(w, size, b, r, c2) ==> {
                &&& spec_refinery_dist(base, b, c2) >= best_dist
                &&& (spec_lex_lt(c2, c) ==> spec_refinery_dist(base, b, c2) > best_dist)
            }
        },
    }
}

/// The best refinery site of one ring, as an offset triple.
fn scan_refinery_ring(
    grid: &Grid,
    base: Pos,
    size: (i32, i32),
    units: &Vec<(i32, i32)>,
    ores: &Vec<(i32, i32)>,
    extents: &Vec<BuildingExtent>,
    bx: i32,
    bz: i32,
    r: i32,
) -> (res: Option<(i32, i32, i32)>)
    requires
        grid.wf(),
        spec_pos_in_world(base),
        -1_000_001 <= bx <= 1_000_001,
        -1_000_001 <= bz <= 1_000_001,
        1 <= r <= 30,
    ensures
        ({
            let w = spec_world(*grid, units@, ores@, extents@);
            let b = (bx as int, bz as int);
            &&& res is None <==> !spec_refinery_ring_has(w, size, b, r as int)
            &&& res matches Some(c) ==> spec_refinery_best(w, base, size, b, r as int, (c.0 as int, c.1 as int, c.2 as int))
        }),
{
    let ghost w = spec_world(*grid, units@, ores@, extents@);
    let ghost b = (bx as int, bz as int);
    let mut best: Option<(i32, i32, i32)> = None;
    let mut best_dist: i64 = 0;
    let mut dx: i32 = -r;
    while dx <= r
        invariant
            grid.wf(),
            w == spec_world(*grid, units@, ores@, extents@),
            b == (bx as int, bz as int),
            spec_pos_in_world(base),
            -1_000_001 <= bx <= 1_000_001,
            -1_000_001 <= bz <= 1_000_001,
            1 <= r <= 30,
            -r <= dx <= r + 1,
            spec_refinery_so_far(w, base, size, b, r as int,
                match best { Some(c) => Some((c.0 as int, c.1 as int, c.2 as int)), None => None },
                best_dist as int, (dx as int, -r as int, 0)),
        decreases r + 1 - dx,
    {
        let mut dz: i32 = -r;
        while dz <= r
            invariant
                grid.wf(),
                w == spec_world(*grid, units@, ores@, extents@),
                b == (bx as int, bz as int),
                spec_pos_in_world(base),
                -1_000_001 <= bx <= 1_000_001,
                -1_000_001 <= bz <= 1_000_001,
                1 <= r <= 30,
                -r <= dx <= r,
                -r <= dz <= r + 1,
                spec_refinery_so_far(w, base, size, b, r as int,
                    match best { Some(c) => Some((c.0 as int, c.1 as int, c.2 as int)), None => None },
                    best_dist as int, (dx as int, dz as int, 0)),
            decreases r + 1 - dz,
        {
            let adx = if dx >= 0 { dx } else { -dx };
            let adz = if dz >= 0 { dz } else { -dz };
            let on_ring = adx == r || adz == r;
            let tx: i64 = bx as i64 + dx as i64;
            let tz: i64 = bz as i64 + dz as i64;
            if on_ring && ore_at(ores, tx, tz) {
                let mut k: i32 = 0;
                while k < 9
                    invariant
                        grid.wf(),
                        w == spec_world(*grid, units@, ores@, extents@),
                        b == (bx as int, bz as int),
                        spec_pos_in_world(base),
                        -1_000_001 <= bx <= 1_000_001,
                        -1_000_001 <= bz <= 1_000_001,
                        1 <= r <= 30,
                        -r <= dx <= r,
                        -r <= dz <= r,
                        0 <= k <= 9,
                        spec_on_ring(r as int, dx as int, dz as int),
                        spec_ore_at(w.ores, (b.0 + dx, b.1 + dz)),
                        spec_refinery_so_far(w, base, size, b, r as int,
                            match best { Some(c) => Some((c.0 as int, c.1 as int, c.2 as int)), None => None },
                            best_dist as int, (dx as int, dz as int, k as int)),
                    decreases 9 - k,
                {
                    let cx: i32 = bx + dx + k / 3 - 1;
                    let cz: i32 = bz + dz + k % 3 - 1;
                    let test = Pos::from_cell(cx, cz);
                    if valid_at(grid, test, size, units, ores, extents) {
                        let ex: i64 = cx as i64 * 1000 - base.x as i64;
                        let ez: i64 = cz as i64 * 1000 - base.z as i64;
                        let d: i64 = (if ex >= 0 { ex } else { -ex }) + (if ez >= 0 { ez } else { -ez });
                        assert(spec_refinery_cell(b, dx as int, dz as int, k as int) == (cx as int, cz as int));
                        assert(spec_on_ring(r as int, dx as int, dz as int));
                        assert(spec_ore_at(w.ores, (b.0 + dx, b.1 + dz)));
                        assert(spec_valid_at(w, spec_cell_center(cx as int, cz as int), size));
                        assert(spec_refinery_valid(w, size, b, r as int, (dx as int, dz as int, k as int)));
                        assert(d == spec_refinery_dist(base, b, (dx as int, dz as int, k as int)));
                        let better = match best {
                            None => true,
                            Some(_) => d < best_dist,
                        };
                        if better {
                            best = Some((dx, dz, k));
                            best_dist = d;
                        }
                    }
                    k = k + 1;
                }
                assert forall|c2: (int, int, int)| spec_lex_lt(c2, (dx as int, dz as int + 1, 0)) && #[trigger] spec_refinery_valid(w, size, b, r as int, c2)
                    implies spec_lex_lt(c2, (dx as int, dz as int, 9)) by {
                }
            } else {
                assert forall|c2: (int, int, int)| spec_lex_lt(c2, (dx as int, dz as int + 1, 0)) && #[trigger] spec_refinery_valid(w, size, b, r as int, c2)
                    implies spec_lex_lt(c2, (dx as int, dz as int, 0)) by {
                    if c2.0 == dx && c2.1 == dz {
                        assert(spec_on_ring(r as int, c2.0, c2.1));
                        assert(spec_ore_at(w.ores, (b.0 + c2.0, b.1 + c2.1)));
                    }
                }
            }
            dz = dz + 1;
        }
        assert forall|c2: (int, int, int)| spec_lex_lt(c2, (dx as int + 1, -r as int, 0)) && #[trigger] spec_refinery_valid(w, size, b, r as int, c2)
            implies spec_lex_lt(c2, (dx as int, r as int + 1, 0)) by {
        }
        dx = dx + 1;
    }
    assert forall|c2: (int, int, int)| #[trigger] spec_refinery_valid(w, size, b, r as int, c2)
        implies spec_lex_lt(c2, (r as int + 1, -r as int, 0)) by {
    }
    best
}


/// The first ring a refinery search looks at.
pub const REFINERY_FIRST_RING: i32 = 6;
/// The first ring a general site search looks at.
pub const SITE_FIRST_RING: i32 = 4;
/// The ring at which both searches stop (exclusive).
pub const SITE_LAST_RING: i32 = 30;

/// The cell the base stands in.
pub open spec fn spec_base_cell(base: Pos) -> (int, int) {
    (spec_round_milli(base.x as int), spec_round_milli(base.z as int))
}

/// The centre of the cell of a refinery candidate.
pub open spec fn spec_refinery_site(b: (int, int), c: (int, int, int)) -> Pos {
    spec_cell_center(spec_refinery_cell(b, c.0, c.1, c.2).0, spec_refinery_cell(b, c.0, c.1, c.2).1)
}

/// Where a refinery should go: searching rings of radius 6 to 29 around the
/// base's cell, in the nearest ring with any valid site, the site next to
/// (or on) an ore cell of the ring that is closest to the base (Manhattan
/// distance), the first found among equally close ones. `None` when no
/// ring holds a valid site.
pub fn find_best_refinery_spot(
    base_pos: Pos,
    size: (i32, i32),
    grid: &Grid,
    unit_positions: &Vec<(i32, i32)>,
    resource_positions: &Vec<(i32, i32)>,
    building_extents: &Vec<BuildingExtent>,
) -> (res: Option<Pos>)
    requires
        grid.wf(),
        spec_pos_in_world(base_pos),
    ensures
        ({
            let w = spec_world(*grid, unit_positions@, resource_positions@, building_extents@);
            let b = spec_base_cell(base_pos);
            &&& res is None <==> forall|ring: int| REFINERY_FIRST_RING <= ring < SITE_LAST_RING
                ==> !#[trigger] spec_refinery_ring_has(w, size, b, ring)
            &&& res matches Some(p) ==> exists|ring: int, c: (int, int, int)|
                REFINERY_FIRST_RING <= ring < SITE_LAST_RING
                && (forall|j: int| REFINERY_FIRST_RING <= j < ring ==> !#[trigger] spec_refinery_ring_has(w, size, b, j))
                && #[trigger] spec_refinery_best(w, base_pos, size, b, ring, c)
                && p == spec_refinery_site(b, c)
        }),
{
    let ghost w = spec_world(*grid, unit_positions@, resource_positions@, building_extents@);
    let cell = base_pos.cell();
    let ghost b = (cell.0 as int, cell.1 as int);
    let mut ring: i32 = REFINERY_FIRST_RING;
    while ring < SITE_LAST_RING
        invariant
            grid.wf(),
            w == spec_world(*grid, unit_positions@, resource_positions@, building_extents@),
            b == spec_base_cell(base_pos),
            b == (cell.0 as int, cell.1 as int),
            -1_000_001 <= cell.0 <= 1_000_001,
            -1_000_001 <= cell.1 <= 1_000_001,
            spec_pos_in_world(base_pos),
            REFINERY_FIRST_RING <= ring <= SITE_LAST_RING,
            forall|j: int| REFINERY_FIRST_RING <= j < ring ==> !#[trigger] spec_refinery_ring_has(w, size, b, j),
        decreases SITE_LAST_RING - ring,
    {
        match scan_refinery_ring(grid, base_pos, size, unit_positions, resource_positions, building_extents, cell.0, cell.1, ring) {
            Some(c) => {
                let cx: i32 = cell.0 + c.0 + c.2 / 3 - 1;
                let cz: i32 = cell.1 + c.1 + c.2 % 3 - 1;
                let site = Pos::from_cell(cx, cz);
                let ghost cc = (c.0 as int, c.1 as int, c.2 as int);
                assert(spec_refinery_best(w, base_pos, size, b, ring as int, cc));
                assert(site == spec_refinery_site(b, cc));
                return Some(site);
            },
            None => {},
        }
        ring = ring + 1;
    }
    None
}

/// Cell `(b.0 + t.1, b.1 + t.2)` lies on ring `t.0` and a building may be
/// centred on it.
pub open spec fn spec_near_valid(w: SiteWorld, size: (i32, i32), b: (int, int), t: (int, int, int)) -> bool {
    &&& spec_on_ring(t.0, t.1, t.2)
    &&& spec_valid_at(w, spec_cell_center(b.0 + t.1, b.1 + t.2), size)
}

/// Where a building goes when its preferred spot is taken: the first cell,
/// scanning rings of radius 4 to 29 around the base's cell (each ring by
/// increasing x offset, then increasing z offset), on which it may be
/// centred. `None` when there is none.
pub fn find_placement_near(
    base_pos: Pos,
    size: (i32, i32),
    grid: &Grid,
    unit_positions: &Vec<(i32, i32)>,
    resource_positions: &Vec<(i32, i32)>,
    building_extents: &Vec<BuildingExtent>,
) -> (res: Option<Pos>)
    requires
        grid.wf(),
        spec_pos_in_world(base_pos),
    ensures
        ({
            let w = spec_world(*grid, unit_positions@, resource_positions@, building_extents@);
            let b = spec_base_cell(base_pos);
            &&& res is None <==> forall|t: (int, int, int)| SITE_FIRST_RING <= t.0 < SITE_LAST_RING
                ==> !#[trigger] spec_near_valid(w, size, b, t)
            &&& res matches Some(p) ==> exists|t: (int, int, int)|
                SITE_FIRST_RING <= t.0 < SITE_LAST_RING
                && #[trigger] spec_near_valid(w, size, b, t)
                && (forall|t2: (int, int, int)| SITE_FIRST_RING <= t2.0 && spec_lex_lt(t2, t) ==> !#[trigger] spec_near_valid(w, size, b, t2))
                && p == spec_cell_center(b.0 + t.1, b.1 + t.2)
        }),
{
    let ghost w = spec_world(*grid, unit_positions@, resource_positions@, building_extents@);
    let cell = base_pos.cell();
    let ghost b = (cell.0 as int, cell.1 as int);
    let mut ring: i32 = SITE_FIRST_RING;
    while ring < SITE_LAST_RING
        invariant
            grid.wf(),
            w == spec_world(*grid, unit_positions@, resource_positions@, building_extents@),
            b == spec_base_cell(base_pos),
            b == (cell.0 as int, cell.1 as int),
            -1_000_001 <= cell.0 <= 1_000_001,
            -1_000_001 <= cell.1 <= 1_000_001,
            spec_pos_in_world(base_pos),
            SITE_FIRST_RING <= ring <= SITE_LAST_RING,
            forall|t2: (int, int, int)| SITE_FIRST_RING <= t2.0 && spec_lex_lt(t2, (ring as int, -ring as int, -ring as int))
                ==> !#[trigger] spec_near_valid(w, size, b, t2),
        decreases SITE_LAST_RING - ring,
    {
        let mut dx: i32 = -ring;
        while dx <= ring
            invariant
                grid.wf(),
                w == spec_world(*grid, unit_positions@, resource_positions@, building_extents@),
                b == (cell.0 as int, cell.1 as int),
                b == spec_base_cell(base_pos),
                -1_000_001 <= cell.0 <= 1_000_001,
                -1_000_001 <= cell.1 <= 1_000_001,
                spec_pos_in_world(base_pos),
                SITE_FIRST_RING <= ring < SITE_LAST_RING,
                -ring <= dx <= ring + 1,
                forall|t2: (int, int, int)| SITE_FIRST_RING <= t2.0 && spec_lex_lt(t2, (ring as int, dx as int, -ring as int))
                    ==> !#[trigger] spec_near_valid(w, size, b, t2),
            decreases ring + 1 - dx,
        {
            let mut dz: i32 = -ring;
            while dz <= ring
                invariant
                    grid.wf(),
                    w == spec_world(*grid, unit_positions@, resource_positions@, building_extents@),
                    b == (cell.0 as int, cell.1 as int),
                    b == spec_base_cell(base_pos),
                    -1_000_001 <= cell.0 <= 1_000_001,
                    -1_000_001 <= cell.1 <= 1_000_001,
                    spec_pos_in_world(base_pos),
                    SITE_FIRST_RING <= ring < SITE_LAST_RING,
                    -ring <= dx <= ring,
                    -ring <= dz <= ring + 1,
                    forall|t2: (int, int, int)| SITE_FIRST_RING <= t2.0 && spec_lex_lt(t2, (ring as int, dx as int, dz as int))
                        ==> !#[trigger] spec_near_valid(w, size, b, t2),
                decreases ring + 1 - dz,
            {
                let adx = if dx >= 0 { dx } else { -dx };
                let adz = if dz >= 0 { dz } else { -dz };
                if adx == ring || adz == ring {
                    let test = Pos::from_cell(cell.0 + dx, cell.1 + dz);
                    if valid_at(grid, test, size, unit_positions, resource_positions, building_extents) {
                        let ghost t = (ring as int, dx as int, dz as int);
                        assert(spec_near_valid(w, size, b, t));
                        return Some(test);
                    }
                }
                dz = dz + 1;
            }
            assert forall|t2: (int, int, int)| SITE_FIRST_RING <= t2.0 && spec_lex_lt(t2, (ring as int, dx as int + 1, -ring as int))
                && #[trigger] spec_near_valid(w, size, b, t2) implies spec_lex_lt(t2, (ring as int, dx as int, ring as int + 1)) by {
            }
            dx = dx + 1;
        }
        assert forall|t2: (int, int, int)| SITE_FIRST_RING <= t2.0 && spec_lex_lt(t2, (ring as int + 1, -ring as int - 1, -ring as int - 1))
            && #[trigger] spec_near_valid(w, size, b, t2) implies spec_lex_lt(t2, (ring as int, ring as int + 1, -ring as int)) by {
        }
        ring = ring + 1;
    }
    assert forall|t: (int, int, int)| SITE_FIRST_RING <= t.0 < SITE_LAST_RING && #[trigger] spec_near_valid(w, size, b, t)
        implies spec_lex_lt(t, (SITE_LAST_RING as int, -SITE_LAST_RING as int, -SITE_LAST_RING as int)) by {
    }
    None
}


/// A point shifted along x by `dx` thousandths of a cell.
pub open spec fn spec_shifted(p: Pos, dx: int) -> Pos {
    Pos { x: (p.x + dx) as i32, z: p.z }
}

/// Where a refinery is first tried: the best refinery site when some ring
/// has one, else five cells to the base's west.
pub open spec fn spec_refinery_preference(w: SiteWorld, base: Pos, size: (i32, i32), q: Pos) -> bool {
    let b = spec_base_cell(base);
    if exists|ring: int| REFINERY_FIRST_RING <= ring < SITE_LAST_RING && #[trigger] spec_refinery_ring_has(w, size, b, ring) {
        exists|ring: int, c: (int, int, int)|
            REFINERY_FIRST_RING <= ring < SITE_LAST_RING
            && (forall|j: int| REFINERY_FIRST_RING <= j < ring ==> !#[trigger] spec_refinery_ring_has(w, size, b, j))
            && #[trigger] spec_refinery_best(w, base, size, b, ring, c)
            && q == spec_refinery_site(b, c)
    } else {
        q == spec_shifted(base, -5000)
    }
}

/// Where a building of a role is first tried: refineries by ore, power
/// plants five cells east of the base, everything else five cells west.
pub open spec fn spec_preferred_site(w: SiteWorld, base: Pos, size: (i32, i32), role: crate::defs::BuildingRole, q: Pos) -> bool {
    match role {
        crate::defs::BuildingRole::Refinery => spec_refinery_preference(w, base, size, q),
        crate::defs::BuildingRole::Power => q == spec_shifted(base, 5000),
        _ => q == spec_shifted(base, -5000),
    }
}

/// `p` is the first site of the fallback ring search around the base.
pub open spec fn spec_near_site(w: SiteWorld, base: Pos, size: (i32, i32), p: Pos) -> bool {
    let b = spec_base_cell(base);
    exists|t: (int, int, int)|
        SITE_FIRST_RING <= t.0 < SITE_LAST_RING
        && #[trigger] spec_near_valid(w, size, b, t)
        && (forall|t2: (int, int, int)| SITE_FIRST_RING <= t2.0 && spec_lex_lt(t2, t) ==> !#[trigger] spec_near_valid(w, size, b, t2))
        && p == spec_cell_center(b.0 + t.1, b.1 + t.2)
}

/// `res` is where a building of a role goes: its preferred site when that
/// is valid, else the first site of the fallback search, else nowhere.
pub open spec fn spec_site_choice(w: SiteWorld, base: Pos, size: (i32, i32), role: crate::defs::BuildingRole, res: Option<Pos>) -> bool {
    exists|q: Pos| #[trigger] spec_preferred_site(w, base, size, role, q) && if spec_valid_at(w, q, size) {
        res == Some(q)
    } else {
        &&& res is None <==> forall|t: (int, int, int)| SITE_FIRST_RING <= t.0 < SITE_LAST_RING
            ==> !#[trigger] spec_near_valid(w, size, spec_base_cell(base), t)
        &&& res matches Some(p) ==> spec_near_site(w, base, size, p)
    }
}

/// Where a computer player puts a finished building of a role: the
/// preferred site if valid, else the first valid site around the base.
pub fn choose_site(
    role: crate::defs::BuildingRole,
    base_pos: Pos,
    size: (i32, i32),
    grid: &Grid,
    unit_positions: &Vec<(i32, i32)>,
    resource_positions: &Vec<(i32, i32)>,
    building_extents: &Vec<BuildingExtent>,
) -> (res: Option<Pos>)
    requires
        grid.wf(),
        spec_pos_in_world(base_pos),
    ensures
        spec_site_choice(spec_world(*grid, unit_positions@, resource_positions@, building_extents@), base_pos, size, role, res),
{
    let ghost w = spec_world(*grid, unit_positions@, resource_positions@, building_extents@);
    let west = Pos { x: base_pos.x - 5000, z: base_pos.z };
    let preferred = match role {
        crate::defs::BuildingRole::Refinery => {
            match find_best_refinery_spot(base_pos, size, grid, unit_positions, resource_positions, building_extents) {
                Some(p) => p,
                None => west,
            }
        },
        crate::defs::BuildingRole::Power => Pos { x: base_pos.x + 5000, z: base_pos.z },
        _ => west,
    };
    assert(spec_preferred_site(w, base_pos, size, role, preferred));
    if valid_at(grid, preferred, size, unit_positions, resource_positions, building_extents) {
        Some(preferred)
    } else {
        let res = find_placement_near(base_pos, size, grid, unit_positions, resource_positions, building_extents);
        assert(res matches Some(p) ==> spec_near_site(w, base_pos, size, p));
        res
    }
}

} // verus!
