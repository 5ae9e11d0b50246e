use vstd::prelude::*;
use crate::grid::{Grid, MIN_MOVEMENT_COST};
use crate::map::{map_to_world, DEFAULT_TERRAIN_ID};
use crate::defs::str_equals;

verus! {

broadcast use vstd::string::group_string_axioms;

/// What the rules read of a kind of terrain: whether units can cross it,
/// what entering it costs (in hundredths of a step) and whether buildings
/// may stand on it. Its colour is a matter of display only.
#[derive(Debug, Clone)]
pub struct TerrainDefinition {
    pub id: String,
    pub name: String,
    pub passable: bool,
    pub movement_cost: u32,
    pub buildable: bool,
}

/// The index of the first definition with the given id, or -1.
pub open spec fn spec_terrain_index(defs: Seq<TerrainDefinition>, id: Seq<char>) -> int
    decreases defs.len(),
{
    if defs.len() == 0 {
        -1
    } else {
        let rest = spec_terrain_index(defs.drop_last(), id);
        if rest >= 0 {
            rest
        } else if defs.last().id@ == id {
            defs.len() - 1
        } else {
            -1
        }
    }
}

proof fn lemma_terrain_index(defs: Seq<TerrainDefinition>, id: Seq<char>)
    ensures
        -1 <= spec_terrain_index(defs, id) < defs.len(),
        spec_terrain_index(defs, id) >= 0 ==> defs[spec_terrain_index(defs, id)].id@ == id,
        spec_terrain_index(defs, id) >= 0 ==> forall|j: int| 0 <= j < spec_terrain_index(defs, id) ==> (#[trigger] defs[j]).id@ != id,
        spec_terrain_index(defs, id) < 0 ==> forall|j: int| 0 <= j < defs.len() ==> (#[trigger] defs[j]).id@ != id,
    decreases defs.len(),
{
    if defs.len() > 0 {
        lemma_terrain_index(defs.drop_last(), id);
        assert forall|j: int| 0 <= j < defs.len() - 1 implies #[trigger] defs[j] == defs.drop_last()[j] by {}
    }
}

fn find_terrain(defs: &Vec<TerrainDefinition>, id: &str) -> (r: Option<usize>)
    ensures
        match r {
            Some(i) => i as int == spec_terrain_index(defs@, id@),
            None => spec_terrain_index(defs@, id@) < 0,
        },
{
    proof { lemma_terrain_index(defs@, id@); }
    let mut i: usize = 0;
    while i < defs.len()
        invariant
            i <= defs@.len(),
            forall|j: int| 0 <= j < i ==> (#[trigger] defs@[j]).id@ != id@,
            -1 <= spec_terrain_index(defs@, id@) < defs@.len(),
            spec_terrain_index(defs@, id@) >= 0 ==> defs@[spec_terrain_index(defs@, id@)].id@ == id@,
            spec_terrain_index(defs@, id@) >= 0 ==> forall|j: int| 0 <= j < spec_terrain_index(defs@, id@) ==> (#[trigger] defs@[j]).id@ != id@,
            spec_terrain_index(defs@, id@) < 0 ==> forall|j: int| 0 <= j < defs@.len() ==> (#[trigger] defs@[j]).id@ != id@,
        decreases defs@.len() - i,
    {
        if str_equals(defs[i].id.as_str(), id) {
            return Some(i);
        }
        i = i + 1;
    }
    None
}

/// The definition of a terrain, falling back to the default terrain when
/// the id is unknown; the default terrain must be defined.
pub fn terrain_def<'a>(defs: &'a Vec<TerrainDefinition>, terrain_id: &str) -> (r: &'a TerrainDefinition)
    requires
        spec_terrain_index(defs@, DEFAULT_TERRAIN_ID@) >= 0,
    ensures
        spec_terrain_index(defs@, terrain_id@) >= 0 ==> *r == defs@[spec_terrain_index(defs@, terrain_id@)],
        spec_terrain_index(defs@, terrain_id@) < 0 ==> *r == defs@[spec_terrain_index(defs@, DEFAULT_TERRAIN_ID@)],
{
    proof {
        lemma_terrain_index(defs@, DEFAULT_TERRAIN_ID@);
        lemma_terrain_index(defs@, terrain_id@);
    }
    match find_terrain(defs, terrain_id) {
        Some(i) => &defs[i],
        None => {
            match find_terrain(defs, DEFAULT_TERRAIN_ID) {
                Some(j) => &defs[j],
                None => {
                    proof { assert(false); }
                    &defs[0]
                },
            }
        },
    }
}

/// The map row of world grid cell `(cx, cy)` of a map `width` cells wide.
pub open spec fn spec_map_row(width: int, cx: int, cy: int) -> int {
    (cx + cy - width) / 2
}

/// The map column of world grid cell `(cx, cy)`.
pub open spec fn spec_map_col(width: int, cx: int, cy: int) -> int {
    (cx - cy + width) / 2
}

/// Whether world grid cell `(cx, cy)` is where some cell of a `width` x
/// `height` map lies.
pub open spec fn spec_on_map(width: int, height: int, cx: int, cy: int) -> bool {
    &&& (cx + cy - width) % 2 == 0
    &&& 0 <= spec_map_col(width, cx, cy) < width
    &&& 0 <= spec_map_row(width, cx, cy) < height
}

proof fn lemma_map_cell_place(width: int, x: int, y: int, cx: int, cy: int)
    requires
        0 <= x < width,
        0 <= y,
    ensures
        (cx == x + y && cy == width + y - x) <==> ((cx + cy - width) % 2 == 0 && spec_map_row(width, cx, cy) == y
            && spec_map_col(width, cx, cy) == x),
{
}

/// A blocked cell stays blocked; an impassable terrain blocks its cell.
pub open spec fn spec_terrain_blocked(was: bool, covered: bool, passable: bool) -> bool {
    if covered && !passable { true } else { was }
}

/// What entering a cell costs once the terrain is laid on it.
pub open spec fn spec_terrain_cost(was: u32, covered: bool, cost: u32) -> u32 {
    if covered {
        if cost >= MIN_MOVEMENT_COST { cost } else { MIN_MOVEMENT_COST }
    } else {
        was
    }
}

/// Lays one terrain over the whole map: every grid cell that a map cell
/// lands on becomes blocked if the terrain is impassable and takes the
/// terrain's movement cost; other cells keep what they had.
pub fn apply_terrain_to_map_area(grid: &mut Grid, width: u32, height: u32, terrain: &TerrainDefinition)
    requires
        old(grid).wf(),
        width + height <= 0x3fff_ffff,
    ensures
        final(grid).wf(),
        final(grid).spec_width() == old(grid).spec_width(),
        final(grid).spec_height() == old(grid).spec_height(),
        final(grid).spec_screen_width() == old(grid).spec_screen_width(),
        final(grid).spec_screen_height() == old(grid).spec_screen_height(),
        forall|cx: int, cy: int| old(grid).spec_in_bounds(cx, cy) ==> #[trigger] final(grid).cell_blocked(cx, cy)
            == spec_terrain_blocked(old(grid).cell_blocked(cx, cy), spec_on_map(width as int, height as int, cx, cy), terrain.passable),
        forall|cx: int, cy: int| old(grid).spec_in_bounds(cx, cy) ==> #[trigger] final(grid).cell_static_blocked(cx, cy)
            == spec_terrain_blocked(old(grid).cell_static_blocked(cx, cy), spec_on_map(width as int, height as int, cx, cy), terrain.passable),
        forall|cx: int, cy: int| old(grid).spec_in_bounds(cx, cy) ==> #[trigger] final(grid).cell_cost(cx, cy)
            == spec_terrain_cost(old(grid).cell_cost(cx, cy), spec_on_map(width as int, height as int, cx, cy), terrain.movement_cost),
{
    let ghost g0 = *grid;
    let ghost w = width as int;
    let mut y: u32 = 0;
    while y < height
        invariant
            y <= height,
            w == width as int,
            width + height <= 0x3fff_ffff,
            grid.wf(),
            grid.spec_width() == g0.spec_width(),
            grid.spec_height() == g0.spec_height(),
            grid.spec_screen_width() == g0.spec_screen_width(),
            grid.spec_screen_height() == g0.spec_screen_height(),
            forall|cx: int, cy: int| g0.spec_in_bounds(cx, cy) ==> #[trigger] grid.cell_blocked(cx, cy)
                == spec_terrain_blocked(g0.cell_blocked(cx, cy), spec_on_map(w, height as int, cx, cy) && spec_map_row(w, cx, cy) < y, terrain.passable),
            forall|cx: int, cy: int| g0.spec_in_bounds(cx, cy) ==> #[trigger] grid.cell_static_blocked(cx, cy)
                == spec_terrain_blocked(g0.cell_static_blocked(cx, cy), spec_on_map(w, height as int, cx, cy) && spec_map_row(w, cx, cy) < y, terrain.passable),
            forall|cx: int, cy: int| g0.spec_in_bounds(cx, cy) ==> #[trigger] grid.cell_cost(cx, cy)
                == spec_terrain_cost(g0.cell_cost(cx, cy), spec_on_map(w, height as int, cx, cy) && spec_map_row(w, cx, cy) < y, terrain.movement_cost),
        decreases height - y,
    {
        let mut x: u32 = 0;
        while x < width
            invariant
                x <= width,
                y < height,
                w == width as int,
                width + height <= 0x3fff_ffff,
                grid.wf(),
                grid.spec_width() == g0.spec_width(),
                grid.spec_height() == g0.spec_height(),
                grid.spec_screen_width() == g0.spec_screen_width(),
                grid.spec_screen_height() == g0.spec_screen_height(),
                forall|cx: int, cy: int| g0.spec_in_bounds(cx, cy) ==> #[trigger] grid.cell_blocked(cx, cy)
                    == spec_terrain_blocked(g0.cell_blocked(cx, cy), spec_on_map(w, height as int, cx, cy)
                        && (spec_map_row(w, cx, cy) < y || (spec_map_row(w, cx, cy) == y && spec_map_col(w, cx, cy) < x)), terrain.passable),
                forall|cx: int, cy: int| g0.spec_in_bounds(cx, cy) ==> #[trigger] grid.cell_static_blocked(cx, cy)
                    == spec_terrain_blocked(g0.cell_static_blocked(cx, cy), spec_on_map(w, height as int, cx, cy)
                        && (spec_map_row(w, cx, cy) < y || (spec_map_row(w, cx, cy) == y && spec_map_col(w, cx, cy) < x)), terrain.passable),
                forall|cx: int, cy: int| g0.spec_in_bounds(cx, cy) ==> #[trigger] grid.cell_cost(cx, cy)
                    == spec_terrain_cost(g0.cell_cost(cx, cy), spec_on_map(w, height as int, cx, cy)
                        && (spec_map_row(w, cx, cy) < y || (spec_map_row(w, cx, cy) == y && spec_map_col(w, cx, cy) < x)), terrain.movement_cost),
            decreases width - x,
        {
            let (gx, gz) = map_to_world(width, height, x, y);
            let gxi = gx as i32;
            let gzi = gz as i32;
            let ghost before = *grid;
            if !terrain.passable {
                grid.set_blocked(gxi, gzi, true);
            }
            grid.set_movement_cost(gxi, gzi, terrain.movement_cost);
            proof {
                assert forall|cx: int, cy: int| g0.spec_in_bounds(cx, cy) implies
                    ((cx == gxi && cy == gzi) <==> (spec_on_map(w, height as int, cx, cy) && spec_map_row(w, cx, cy) == y && spec_map_col(w, cx, cy) == x)) by {
                    lemma_map_cell_place(w, x as int, y as int, cx, cy);
                }
            }
            x = x + 1;
        }
        y = y + 1;
    }
}

/// Lays the terrain of one map cell: the grid cell it lands on becomes
/// blocked if the terrain is impassable and takes the terrain's movement
/// cost. A map cell outside the map changes nothing.
pub fn apply_cell_terrain(grid: &mut Grid, width: u32, height: u32, map_x: i64, map_y: i64, terrain: &TerrainDefinition)
    requires
        old(grid).wf(),
        width + height <= 0x3fff_ffff,
    ensures
        final(grid).wf(),
        final(grid).spec_width() == old(grid).spec_width(),
        final(grid).spec_height() == old(grid).spec_height(),
        final(grid).spec_screen_width() == old(grid).spec_screen_width(),
        final(grid).spec_screen_height() == old(grid).spec_screen_height(),
        forall|cx: int, cy: int| old(grid).spec_in_bounds(cx, cy) ==> #[trigger] final(grid).cell_blocked(cx, cy)
            == spec_terrain_blocked(old(grid).cell_blocked(cx, cy), spec_on_map(width as int, height as int, cx, cy)
                && spec_map_col(width as int, cx, cy) == map_x && spec_map_row(width as int, cx, cy) == map_y, terrain.passable),
        forall|cx: int, cy: int| old(grid).spec_in_bounds(cx, cy) ==> #[trigger] final(grid).cell_static_blocked(cx, cy)
            == spec_terrain_blocked(old(grid).cell_static_blocked(cx, cy), spec_on_map(width as int, height as int, cx, cy)
                && spec_map_col(width as int, cx, cy) == map_x && spec_map_row(width as int, cx, cy) == map_y, terrain.passable),
        forall|cx: int, cy: int| old(grid).spec_in_bounds(cx, cy) ==> #[trigger] final(grid).cell_cost(cx, cy)
            == spec_terrain_cost(old(grid).cell_cost(cx, cy), spec_on_map(width as int, height as int, cx, cy)
                && spec_map_col(width as int, cx, cy) == map_x && spec_map_row(width as int, cx, cy) == map_y, terrain.movement_cost),
{
    if map_x < 0 || map_y < 0 || map_x >= width as i64 || map_y >= height as i64 {
        return;
    }
    let (gx, gz) = map_to_world(width, height, map_x as u32, map_y as u32);
    let gxi = gx as i32;
    let gzi = gz as i32;
    if !terrain.passable {
        grid.set_blocked(gxi, gzi, true);
    }
    grid.set_movement_cost(gxi, gzi, terrain.movement_cost);
    proof {
        assert forall|cx: int, cy: int| old(grid).spec_in_bounds(cx, cy) implies
            ((cx == gxi && cy == gzi) <==> (spec_on_map(width as int, height as int, cx, cy)
                && spec_map_col(width as int, cx, cy) == map_x && spec_map_row(width as int, cx, cy) == map_y)) by {
            lemma_map_cell_place(width as int, map_x as int, map_y as int, cx, cy);
        }
    }
}

} // verus!
