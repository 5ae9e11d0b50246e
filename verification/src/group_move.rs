use vstd::prelude::*;
use crate::geometry::{Pos, spec_round_milli};
use crate::grid::Grid;
use crate::army::spec_pos_in_world;
use crate::formation::{spec_assignment, assign_group_move_slots};
use crate::pathfinding::{find_path, spec_no_route_possible, spec_already_there, spec_is_route, spec_route_search_fails};

verus! {

/// The cell a unit of a group stands in.
pub open spec fn spec_unit_cell(u: (u64, Pos)) -> (int, int) {
    (spec_round_milli(u.1.x as int), spec_round_milli(u.1.z as int))
}

/// Some unit among the first `n` of the group stands in cell `(x, z)`.
pub open spec fn spec_group_on(group: Seq<(u64, Pos)>, n: int, x: int, z: int) -> bool {
    exists|i: int| 0 <= i < n && #[trigger] spec_unit_cell(group[i]) == (x, z)
}

/// `after` is `before` with every cell where a unit of the group stands
/// (unless the terrain itself blocks it) marked `blocked` for this frame.
pub open spec fn spec_group_marked(before: Grid, after: Grid, group: Seq<(u64, Pos)>, n: int, blocked: bool) -> bool {
    &&& after.wf()
    &&& after.spec_width() == before.spec_width()
    &&& after.spec_height() == before.spec_height()
    &&& after.spec_screen_width() == before.spec_screen_width()
    &&& after.spec_screen_height() == before.spec_screen_height()
    &&& forall|x: int, z: int| before.spec_in_bounds(x, z) ==> #[trigger] after.cell_blocked(x, z) ==
        if spec_group_on(group, n, x, z) && !before.cell_static_blocked(x, z) { blocked } else { before.cell_blocked(x, z) }
    &&& forall|x: int, z: int| before.spec_in_bounds(x, z) ==> #[trigger] after.cell_static_blocked(x, z) == before.cell_static_blocked(x, z)
    &&& forall|x: int, z: int| before.spec_in_bounds(x, z) ==> #[trigger] after.cell_cost(x, z) == before.cell_cost(x, z)
}

/// What a path search from `start` to `end` may answer.
pub open spec fn spec_path_answer(grid: Grid, start: Pos, end: Pos, res: Option<Vec<(i32, i32)>>) -> bool {
    &&& spec_no_route_possible(grid, start, end) ==> res is None
    &&& spec_already_there(grid, start, end) ==> (res matches Some(p) && p@.len() == 0)
    &&& res matches Some(p) ==> spec_is_route(grid, start, end, p@)
    &&& res is None ==> spec_no_route_possible(grid, start, end) || spec_route_search_fails(grid, start, end)
}

/// Where the first unit of the group with the given entity stands, or
/// `default` when no unit has it.
pub open spec fn spec_start_of(group: Seq<(u64, Pos)>, entity: u64, default: Pos) -> Pos {
    if exists|i: int| 0 <= i < group.len() && group[i].0 == entity {
        group[choose|i: int| 0 <= i < group.len() && group[i].0 == entity
            && forall|j: int| 0 <= j < i ==> (#[trigger] group[j]).0 != entity].1
    } else {
        default
    }
}

/// Marks (or frees) the cells where the units of a group stand.
fn mark_group_cells(grid: &mut Grid, group: &Vec<(u64, Pos)>, blocked: bool)
    requires
        old(grid).wf(),
    ensures
        spec_group_marked(*old(grid), *final(grid), group@, group@.len() as int, blocked),
{
    let ghost base = *grid;
    let mut i: usize = 0;
    while i < group.len()
        invariant
            i <= group@.len(),
            grid.wf(),
            base.wf(),
            grid.spec_width() == base.spec_width(),
            grid.spec_height() == base.spec_height(),
            grid.spec_screen_width() == base.spec_screen_width(),
            grid.spec_screen_height() == base.spec_screen_height(),
            forall|x: int, z: int| base.spec_in_bounds(x, z) ==> #[trigger] grid.cell_static_blocked(x, z) == base.cell_static_blocked(x, z),
            forall|x: int, z: int| base.spec_in_bounds(x, z) ==> #[trigger] grid.cell_cost(x, z) == base.cell_cost(x, z),
            forall|x: int, z: int| base.spec_in_bounds(x, z) ==> #[trigger] grid.cell_blocked(x, z) ==
                if spec_group_on(group@, i as int, x, z) && !base.cell_static_blocked(x, z) { blocked } else { base.cell_blocked(x, z) },
        decreases group@.len() - i,
    {
        let cell = group[i].1.cell();
        if !grid.is_statically_blocked(cell.0, cell.1) {
            grid.set_dynamic_blocked(cell.0, cell.1, blocked);
        }
        proof {
            assert(spec_unit_cell(group@[i as int]) == (cell.0 as int, cell.1 as int));
            assert forall|x: int, z: int| base.spec_in_bounds(x, z) implies #[trigger] grid.cell_blocked(x, z) ==
                if spec_group_on(group@, i + 1, x, z) && !base.cell_static_blocked(x, z) { blocked } else { base.cell_blocked(x, z) } by {
                if x == cell.0 && z == cell.1 {
                    assert(spec_group_on(group@, i + 1, x, z));
                } else {
                    if spec_group_on(group@, i + 1, x, z) {
                        let j = choose|j: int| 0 <= j < i + 1 && #[trigger] spec_unit_cell(group@[j]) == (x, z);
                        assert(j < i);
                        assert(spec_group_on(group@, i as int, x, z));
                    }
                    if spec_group_on(group@, i as int, x, z) {
                        let j = choose|j: int| 0 <= j < i && #[trigger] spec_unit_cell(group@[j]) == (x, z);
                        assert(spec_group_on(group@, i + 1, x, z));
                    }
                }
            }
        }
        i = i + 1;
    }
}

/// The first unit of a group with the given entity.
fn start_of(group: &Vec<(u64, Pos)>, entity: u64) -> (r: Option<Pos>)
    ensures
        (exists|i: int| 0 <= i < group@.len() && group@[i].0 == entity) ==> (r matches Some(p) && p == spec_start_of(group@, entity, p)),
        !(exists|i: int| 0 <= i < group@.len() && group@[i].0 == entity) ==> r is None,
{
    let mut i: usize = 0;
    while i < group.len()
        invariant
            i <= group@.len(),
            forall|j: int| 0 <= j < i ==> (#[trigger] group@[j]).0 != entity,
        decreases group@.len() - i,
    {
        if group[i].0 == entity {
            let ghost c = choose|k: int| 0 <= k < group@.len() && group@[k].0 == entity
                && forall|j: int| 0 <= j < k ==> (#[trigger] group@[j]).0 != entity;
            assert(0 <= i < group@.len() && group@[i as int].0 == entity
                && forall|j: int| 0 <= j < i ==> (#[trigger] group@[j]).0 != entity);
            proof {
                if c < i {
                    assert(group@[c].0 != entity);
                }
                if c > i {
                    assert(group@[i as int].0 != entity);
                }
            }
            return Some(group[i].1);
        }
        i = i + 1;
    }
    None
}

/// The route planned for each unit of a group sent to `target`: with the
/// cells the group stands on freed so its members do not block each
/// other, each unit gets its slot (see `assign_group_move_slots`) and a
/// path search to it; afterwards those cells are marked occupied again.
/// The grid is left with the group's cells (where the terrain does not
/// block them) marked occupied. An empty group changes nothing.
pub fn plan_group_move(grid: &mut Grid, target: Pos, group: &Vec<(u64, Pos)>) -> (r: Vec<(u64, Option<Vec<(i32, i32)>>)>)
    requires
        old(grid).wf(),
        spec_pos_in_world(target),
    ensures
        group@.len() == 0 ==> r@.len() == 0 && *final(grid) == *old(grid),
        group@.len() > 0 ==> spec_group_marked(*old(grid), *final(grid), group@, group@.len() as int, true),
        group@.len() > 0 ==> exists|freed: Grid, slots: Seq<(u64, Pos)>|
            #[trigger] spec_group_marked(*old(grid), freed, group@, group@.len() as int, false)
            && #[trigger] spec_assignment(freed, target, group@, slots)
            && r@.len() == slots.len()
            && forall|k: int| 0 <= k < slots.len() ==> (#[trigger] r@[k]).0 == slots[k].0
                && spec_path_answer(freed, spec_start_of(group@, slots[k].0, slots[k].1), slots[k].1, r@[k].1),
{
    if group.len() == 0 {
        return Vec::new();
    }
    let ghost base = *grid;
    mark_group_cells(grid, group, false);
    let ghost freed = *grid;
    let slots = assign_group_move_slots(target, group, grid);
    let mut out: Vec<(u64, Option<Vec<(i32, i32)>>)> = Vec::new();
    let mut k: usize = 0;
    while k < slots.len()
        invariant
            k <= slots@.len(),
            *grid == freed,
            freed.wf(),
            out@.len() == k,
            forall|m: int| 0 <= m < k ==> (#[trigger] out@[m]).0 == slots@[m].0
                && spec_path_answer(freed, spec_start_of(group@, slots@[m].0, slots@[m].1), slots@[m].1, out@[m].1),
        decreases slots@.len() - k,
    {
        let (entity, end) = slots[k];
        let start = match start_of(group, entity) {
            Some(p) => p,
            None => end,
        };
        let path = find_path(start, end, grid);
        out.push((entity, path));
        k = k + 1;
    }
    mark_group_cells(grid, group, true);
    proof {
        assert forall|x: int, z: int| base.spec_in_bounds(x, z) implies #[trigger] grid.cell_blocked(x, z) ==
            if spec_group_on(group@, group@.len() as int, x, z) && !base.cell_static_blocked(x, z) { true } else { base.cell_blocked(x, z) } by {
            assert(freed.spec_in_bounds(x, z));
        }
    }
    out
}

} // verus!
