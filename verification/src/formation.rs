use vstd::prelude::*;
use crate::geometry::{Pos, spec_cell_center, spec_round_milli};
use crate::grid::Grid;
use crate::pathfinding::{spec_cell_dist_sq, spec_cheb, cell_dist_sq};
use crate::army::{spec_pos_in_world, CombatUnit, sort_by_distance, spec_sorted_by_distance};
use crate::geometry::spec_dist_sq;

verus! {

/// How many rings around the target's cell a formation may spread over.
pub const MAX_FORMATION_RADIUS: i32 = 18;

/// Two cells closer than 1.5 cells apart (centre to centre).
pub open spec fn spec_too_close(a: (int, int), b: (int, int)) -> bool {
    4 * ((a.0 - b.0) * (a.0 - b.0) + (a.1 - b.1) * (a.1 - b.1)) < 9
}

/// The cell a target point falls in.
pub open spec fn spec_target_cell(target: Pos) -> (int, int) {
    (spec_round_milli(target.x as int), spec_round_milli(target.z as int))
}

/// The order in which formation slots are considered: by ring around the
/// target's cell, then by distance to the target, then by z, then by x.
pub open spec fn spec_slot_before(target: Pos, a: (int, int), b: (int, int)) -> bool {
    let c = spec_target_cell(target);
    let ra = spec_cheb(a.0 - c.0, a.1 - c.1);
    let rb = spec_cheb(b.0 - c.0, b.1 - c.1);
    let da = spec_cell_dist_sq(a.0, a.1, target);
    let db = spec_cell_dist_sq(b.0, b.1, target);
    ra < rb || (ra == rb && (da < db || (da == db && (a.1 < b.1 || (a.1 == b.1 && a.0 < b.0)))))
}

/// A cell a formation may use: free, and within `MAX_FORMATION_RADIUS`
/// rings of the target's cell.
pub open spec fn spec_slot_candidate(grid: Grid, target: Pos, a: (int, int)) -> bool {
    let c = spec_target_cell(target);
    &&& spec_cheb(a.0 - c.0, a.1 - c.1) <= MAX_FORMATION_RADIUS
    &&& !grid.spec_is_blocked(a.0, a.1)
}

/// Some entry of `cells` is the cell `a`.
pub open spec fn spec_holds_cell(cells: Seq<(i32, i32)>, a: (int, int)) -> bool {
    exists|j: int| 0 <= j < cells.len() && (#[trigger] cells[j]).0 == a.0 && cells[j].1 == a.1
}

/// `slots` are the formation cells for `needed` units around `target`:
/// candidates taken greedily in slot order, each skipped when closer than
/// 1.5 cells to one already taken, until `needed` are taken (when `needed`
/// is zero, until the candidates run out).
pub open spec fn spec_formation(grid: Grid, target: Pos, needed: nat, slots: Seq<(i32, i32)>) -> bool {
    let complete = needed == 0 || slots.len() < needed;
    &&& needed > 0 ==> slots.len() <= needed
    &&& forall|i: int| 0 <= i < slots.len() ==> spec_slot_candidate(grid, target, spec_wide(#[trigger] slots[i]))
    &&& forall|i: int, j: int| 0 <= i < j < slots.len() ==> spec_slot_before(target, spec_wide(#[trigger] slots[i]), spec_wide(#[trigger] slots[j]))
    &&& forall|i: int, j: int| 0 <= i < j < slots.len() ==> !spec_too_close(spec_wide(#[trigger] slots[i]), spec_wide(#[trigger] slots[j]))
    &&& forall|a: (int, int)| #[trigger] spec_slot_candidate(grid, target, a)
        && (complete || spec_slot_before(target, a, spec_wide(slots.last())))
        && !spec_holds_cell(slots, a)
        ==> exists|j: int| 0 <= j < slots.len() && spec_slot_before(target, spec_wide(slots[j]), a) && #[trigger] spec_too_close(spec_wide(slots[j]), a)
}

/// Cell `a` lies on ring `r` around `c` and is free.
pub open spec fn spec_free_on_ring(grid: Grid, c: (int, int), r: int, a: (int, int)) -> bool {
    spec_cheb(a.0 - c.0, a.1 - c.1) == r && !grid.spec_is_blocked(a.0, a.1)
}

/// `a` comes no later than `b` within one ring's order.
pub open spec fn spec_slot_le(target: Pos, a: (int, int), b: (int, int)) -> bool {
    let da = spec_cell_dist_sq(a.0, a.1, target);
    let db = spec_cell_dist_sq(b.0, b.1, target);
    da < db || (da == db && (a.1 < b.1 || (a.1 == b.1 && a.0 <= b.0)))
}

/// The free cells of one ring around `c`.
fn ring_cells(grid: &Grid, c: (i32, i32), r: i32) -> (out: Vec<(i32, i32)>)
    requires
        grid.wf(),
        0 <= r <= MAX_FORMATION_RADIUS,
        -1_000_001 <= c.0 <= 1_000_001,
        -1_000_001 <= c.1 <= 1_000_001,
    ensures
        forall|k: int| 0 <= k < out@.len() ==> spec_free_on_ring(*grid, (c.0 as int, c.1 as int), r as int, ((#[trigger] out@[k]).0 as int, out@[k].1 as int)),
        forall|a: (int, int)| spec_free_on_ring(*grid, (c.0 as int, c.1 as int), r as int, a)
            ==> exists|k: int| 0 <= k < out@.len() && (#[trigger] out@[k]).0 == a.0 && out@[k].1 == a.1,
{
    let ghost cc = (c.0 as int, c.1 as int);
    let mut out: Vec<(i32, i32)> = Vec::new();
    let mut dz: i32 = -r;
    while dz <= r
        invariant
            grid.wf(),
            0 <= r <= MAX_FORMATION_RADIUS,
            -1_000_001 <= c.0 <= 1_000_001,
            -1_000_001 <= c.1 <= 1_000_001,
            cc == (c.0 as int, c.1 as int),
            -r <= dz <= r + 1,
            forall|k: int| 0 <= k < out@.len() ==> spec_free_on_ring(*grid, cc, r as int, ((#[trigger] out@[k]).0 as int, out@[k].1 as int)),
            forall|a: (int, int)| spec_free_on_ring(*grid, cc, r as int, a) && a.1 - cc.1 < dz
                ==> exists|k: int| 0 <= k < out@.len() && (#[trigger] out@[k]).0 == a.0 && out@[k].1 == a.1,
        decreases r + 1 - dz,
    {
        let mut dx: i32 = -r;
        while dx <= r
            invariant
                grid.wf(),
                0 <= r <= MAX_FORMATION_RADIUS,
                -1_000_001 <= c.0 <= 1_000_001,
                -1_000_001 <= c.1 <= 1_000_001,
                cc == (c.0 as int, c.1 as int),
                -r <= dz <= r,
                -r <= dx <= r + 1,
                forall|k: int| 0 <= k < out@.len() ==> spec_free_on_ring(*grid, cc, r as int, ((#[trigger] out@[k]).0 as int, out@[k].1 as int)),
                forall|a: (int, int)| spec_free_on_ring(*grid, cc, r as int, a) && (a.1 - cc.1 < dz || (a.1 - cc.1 == dz && a.0 - cc.0 < dx))
                    ==> exists|k: int| 0 <= k < out@.len() && (#[trigger] out@[k]).0 == a.0 && out@[k].1 == a.1,
            decreases r + 1 - dx,
        {
            let adx = if dx >= 0 { dx } else { -dx };
            let adz = if dz >= 0 { dz } else { -dz };
            let cheb = if adx >= adz { adx } else { adz };
            let x = c.0 + dx;
            let z = c.1 + dz;
            if cheb == r && !grid.is_blocked(x, z) {
                let ghost before = out@;
                out.push((x, z));
                proof {
                    assert forall|a: (int, int)| spec_free_on_ring(*grid, cc, r as int, a) && (a.1 - cc.1 < dz || (a.1 - cc.1 == dz && a.0 - cc.0 < dx + 1))
                        implies exists|k: int| 0 <= k < out@.len() && (#[trigger] out@[k]).0 == a.0 && out@[k].1 == a.1 by {
                        if a.1 - cc.1 == dz && a.0 - cc.0 == dx {
                            assert(out@[before.len() as int] == (x, z));
                        } else {
                            let k = choose|k: int| 0 <= k < before.len() && (#[trigger] before[k]).0 == a.0 && before[k].1 == a.1;
                            assert(out@[k] == before[k]);
                        }
                    }
                }
            } else {
                proof {
                    assert forall|a: (int, int)| spec_free_on_ring(*grid, cc, r as int, a) && (a.1 - cc.1 < dz || (a.1 - cc.1 == dz && a.0 - cc.0 < dx + 1))
                        implies exists|k: int| 0 <= k < out@.len() && (#[trigger] out@[k]).0 == a.0 && out@[k].1 == a.1 by {
                        if a.1 - cc.1 == dz && a.0 - cc.0 == dx {
                            assert(spec_cheb(a.0 - cc.0, a.1 - cc.1) == cheb);
                        }
                    }
                }
            }
            dx = dx + 1;
        }
        dz = dz + 1;
    }
    out
}


/// The pair of a cell, widened.
pub open spec fn spec_wide(a: (i32, i32)) -> (int, int) {
    (a.0 as int, a.1 as int)
}

/// Whether `a` comes no later than `b` in a ring's order.
fn slot_le(target: &Pos, a: (i32, i32), b: (i32, i32)) -> (r: bool)
    ensures
        r == spec_slot_le(*target, spec_wide(a), spec_wide(b)),
{
    let da = cell_dist_sq(a.0, a.1, target);
    let db = cell_dist_sq(b.0, b.1, target);
    da < db || (da == db && (a.1 < b.1 || (a.1 == b.1 && a.0 <= b.0)))
}

/// Some entry of `cells` is the cell `a`.
pub open spec fn spec_has_cell(cells: Seq<(i32, i32)>, a: (i32, i32)) -> bool {
    exists|j: int| 0 <= j < cells.len() && (#[trigger] cells[j]).0 == a.0 && cells[j].1 == a.1
}

/// Every entry of `a` is an entry of `b`.
pub open spec fn spec_cells_within(a: Seq<(i32, i32)>, b: Seq<(i32, i32)>) -> bool {
    forall|k: int| 0 <= k < a.len() ==> #[trigger] spec_has_cell(b, a[k])
}

proof fn lemma_sorted_insert(
    cells: Seq<(i32, i32)>,
    i: int,
    old_out: Seq<(i32, i32)>,
    src: Seq<int>,
    pos: Seq<int>,
    p: int,
    target: Pos,
)
    requires
        0 <= i < cells.len(),
        old_out.len() == i,
        src.len() == i,
        pos.len() == i,
        0 <= p <= i,
        forall|k: int| 0 <= k < i ==> 0 <= #[trigger] src[k] < i && old_out[k] == cells[src[k]],
        forall|j: int| 0 <= j < i ==> 0 <= #[trigger] pos[j] < i && old_out[pos[j]] == cells[j],
        forall|k: int, l: int| 0 <= k < l < old_out.len() ==> spec_slot_le(target, spec_wide(#[trigger] old_out[k]), spec_wide(#[trigger] old_out[l])),
        forall|k: int| 0 <= k < p ==> spec_slot_le(target, spec_wide(#[trigger] old_out[k]), spec_wide(cells[i])),
        forall|k: int| p <= k < old_out.len() ==> !spec_slot_le(target, spec_wide(#[trigger] old_out[k]), spec_wide(cells[i])),
    ensures
        ({
            let out = old_out.insert(p, cells[i]);
            let src2 = src.insert(p, i);
            let pos2 = Seq::new((i + 1) as nat, |j: int| if j == i { p } else if pos[j] >= p { pos[j] + 1 } else { pos[j] });
            &&& out.len() == i + 1
            &&& src2.len() == i + 1
            &&& pos2.len() == i + 1
            &&& forall|k: int| 0 <= k < i + 1 ==> 0 <= #[trigger] src2[k] < i + 1 && out[k] == cells[src2[k]]
            &&& forall|j: int| 0 <= j < i + 1 ==> 0 <= #[trigger] pos2[j] < i + 1 && out[pos2[j]] == cells[j]
            &&& forall|k: int, l: int| 0 <= k < l < out.len() ==> spec_slot_le(target, spec_wide(#[trigger] out[k]), spec_wide(#[trigger] out[l]))
        }),
{
    let c = cells[i];
    let out = old_out.insert(p, c);
    let src2 = src.insert(p, i);
    let pos2 = Seq::new((i + 1) as nat, |j: int| if j == i { p } else if pos[j] >= p { pos[j] + 1 } else { pos[j] });
    assert forall|k: int| 0 <= k < i + 1 implies 0 <= #[trigger] src2[k] < i + 1 && out[k] == cells[src2[k]] by {
        if k < p {
            assert(src2[k] == src[k] && out[k] == old_out[k]);
        } else if k > p {
            assert(src2[k] == src[k - 1] && out[k] == old_out[k - 1]);
        }
    }
    assert forall|j: int| 0 <= j < i + 1 implies 0 <= #[trigger] pos2[j] < i + 1 && out[pos2[j]] == cells[j] by {
        if j < i {
            if pos[j] >= p {
                assert(out[pos[j] + 1] == old_out[pos[j]]);
            } else {
                assert(out[pos[j]] == old_out[pos[j]]);
            }
        }
    }
    assert forall|k: int, l: int| 0 <= k < l < out.len() implies spec_slot_le(target, spec_wide(#[trigger] out[k]), spec_wide(#[trigger] out[l])) by {
        if l < p {
            assert(out[k] == old_out[k] && out[l] == old_out[l]);
        } else if l == p {
            assert(out[k] == old_out[k]);
        } else if k < p {
            assert(out[k] == old_out[k] && out[l] == old_out[l - 1]);
            assert(spec_slot_le(target, spec_wide(old_out[k]), spec_wide(old_out[l - 1])));
        } else if k == p {
            assert(out[l] == old_out[l - 1]);
            assert(!spec_slot_le(target, spec_wide(old_out[l - 1]), spec_wide(c)));
        } else {
            assert(out[k] == old_out[k - 1] && out[l] == old_out[l - 1]);
            assert(spec_slot_le(target, spec_wide(old_out[k - 1]), spec_wide(old_out[l - 1])));
        }
    }
}

/// A ring's cells in slot order: nearest the target first, then by z,
/// then by x.
fn sort_ring(cells: &Vec<(i32, i32)>, target: Pos) -> (out: Vec<(i32, i32)>)
    ensures
        out@.len() == cells@.len(),
        spec_cells_within(out@, cells@),
        spec_cells_within(cells@, out@),
        forall|k: int, l: int| 0 <= k < l < out@.len() ==> spec_slot_le(target, spec_wide(#[trigger] out@[k]), spec_wide(#[trigger] out@[l])),
{
    let mut out: Vec<(i32, i32)> = Vec::new();
    let ghost mut src: Seq<int> = Seq::empty();
    let ghost mut pos: Seq<int> = Seq::empty();
    let mut i: usize = 0;
    while i < cells.len()
        invariant
            i <= cells@.len(),
            out@.len() == i,
            src.len() == i,
            pos.len() == i,
            forall|k: int| 0 <= k < i ==> 0 <= #[trigger] src[k] < i && out@[k] == cells@[src[k]],
            forall|j: int| 0 <= j < i ==> 0 <= #[trigger] pos[j] < i && out@[pos[j]] == cells@[j],
            forall|k: int, l: int| 0 <= k < l < out@.len() ==> spec_slot_le(target, spec_wide(#[trigger] out@[k]), spec_wide(#[trigger] out@[l])),
        decreases cells@.len() - i,
    {
        let c = cells[i];
        let mut p: usize = out.len();
        while p > 0 && !slot_le(&target, out[p - 1], c)
            invariant
                p <= out@.len(),
                out@.len() == i,
                forall|k: int| p <= k < out@.len() ==> !spec_slot_le(target, spec_wide(#[trigger] out@[k]), spec_wide(c)),
            decreases p,
        {
            p = p - 1;
        }
        proof {
            assert forall|k: int| 0 <= k < p implies spec_slot_le(target, spec_wide(#[trigger] out@[k]), spec_wide(c)) by {
                if k < p - 1 {
                    assert(spec_slot_le(target, spec_wide(out@[k]), spec_wide(out@[p - 1])));
                }
            }
        }
        let ghost old_out = out@;
        out.insert(p, c);
        proof {
            lemma_sorted_insert(cells@, i as int, old_out, src, pos, p as int, target);
            pos = Seq::new((i + 1) as nat, |j: int| if j == i { p as int } else if pos[j] >= p { pos[j] + 1 } else { pos[j] });
            src = src.insert(p as int, i as int);
        }
        i = i + 1;
    }
    proof {
        assert forall|k: int| 0 <= k < out@.len() implies #[trigger] spec_has_cell(cells@, out@[k]) by {
            assert(cells@[src[k]] == out@[k]);
        }
        assert forall|j: int| 0 <= j < cells@.len() implies #[trigger] spec_has_cell(out@, cells@[j]) by {
            assert(out@[pos[j]] == cells@[j]);
        }
    }
    out
}


/// `sorted` lists the free cells of ring `r` around the target's cell, in
/// slot order.
pub open spec fn spec_sorted_ring(grid: Grid, target: Pos, r: int, sorted: Seq<(i32, i32)>) -> bool {
    let c = spec_target_cell(target);
    &&& forall|k: int| 0 <= k < sorted.len() ==> spec_free_on_ring(grid, c, r, spec_wide(#[trigger] sorted[k]))
    &&& forall|a: (int, int)| spec_free_on_ring(grid, c, r, a) ==> #[trigger] spec_holds_cell(sorted, a)
    &&& forall|k: int, l: int| 0 <= k < l < sorted.len() ==> spec_slot_le(target, spec_wide(#[trigger] sorted[k]), spec_wide(#[trigger] sorted[l]))
}

/// The greedy choice so far, having gone through the rings inside `r` and
/// the first `i` cells of ring `r` (listed in `sorted`).
pub open spec fn spec_greedy_state(grid: Grid, target: Pos, slots: Seq<(i32, i32)>, r: int, sorted: Seq<(i32, i32)>, i: int) -> bool {
    let c = spec_target_cell(target);
    let done = sorted.subrange(0, i);
    &&& forall|k: int| 0 <= k < slots.len() ==> spec_slot_candidate(grid, target, spec_wide(#[trigger] slots[k]))
        && spec_cheb(slots[k].0 - c.0, slots[k].1 - c.1) <= r
    &&& forall|k: int| 0 <= k < slots.len() && spec_cheb(slots[k].0 - c.0, slots[k].1 - c.1) == r ==> spec_holds_cell(done, spec_wide(#[trigger] slots[k]))
    &&& forall|k: int, l: int| 0 <= k < l < slots.len() ==> spec_slot_before(target, spec_wide(#[trigger] slots[k]), spec_wide(#[trigger] slots[l]))
    &&& forall|k: int, l: int| 0 <= k < l < slots.len() ==> !spec_too_close(spec_wide(#[trigger] slots[k]), spec_wide(#[trigger] slots[l]))
    &&& forall|a: (int, int)| #[trigger] spec_slot_candidate(grid, target, a)
        && (spec_cheb(a.0 - c.0, a.1 - c.1) < r || (spec_cheb(a.0 - c.0, a.1 - c.1) == r && spec_holds_cell(done, a)))
        && !spec_holds_cell(slots, a)
        ==> exists|j: int| 0 <= j < slots.len() && spec_slot_before(target, spec_wide(slots[j]), a) && #[trigger] spec_too_close(spec_wide(slots[j]), a)
}

/// Whether some chosen cell is too close to `x`.
fn crowded(slots: &Vec<(i32, i32)>, x: (i32, i32)) -> (r: bool)
    ensures
        r == exists|j: int| 0 <= j < slots@.len() && #[trigger] spec_too_close(spec_wide(slots@[j]), spec_wide(x)),
{
    let mut j: usize = 0;
    while j < slots.len()
        invariant
            j <= slots@.len(),
            forall|m: int| 0 <= m < j ==> !#[trigger] spec_too_close(spec_wide(slots@[m]), spec_wide(x)),
        decreases slots@.len() - j,
    {
        let dx: i64 = slots[j].0 as i64 - x.0 as i64;
        let dz: i64 = slots[j].1 as i64 - x.1 as i64;
        assert(0 <= dx * dx <= 0x4_0000_0000_0000_0000) by (nonlinear_arith)
            requires -0x1_0000_0000 <= dx <= 0x1_0000_0000;
        assert(0 <= dz * dz <= 0x4_0000_0000_0000_0000) by (nonlinear_arith)
            requires -0x1_0000_0000 <= dz <= 0x1_0000_0000;
        let d: i128 = dx as i128 * dx as i128 + dz as i128 * dz as i128;
        if 4 * d < 9 {
            assert(spec_too_close(spec_wide(slots@[j as int]), spec_wide(x)));
            return true;
        }
        j = j + 1;
    }
    false
}

proof fn lemma_same_cell_too_close(a: (int, int), b: (int, int))
    requires
        a.0 == b.0,
        a.1 == b.1,
    ensures
        spec_too_close(a, b),
{
    assert(a.0 - b.0 == 0);
    assert(a.1 - b.1 == 0);
    assert((a.0 - b.0) * (a.0 - b.0) == 0) by (nonlinear_arith) requires a.0 - b.0 == 0;
    assert((a.1 - b.1) * (a.1 - b.1) == 0) by (nonlinear_arith) requires a.1 - b.1 == 0;
}

proof fn lemma_greedy_step(grid: Grid, target: Pos, slots: Seq<(i32, i32)>, r: int, sorted: Seq<(i32, i32)>, i: int, pushed: bool)
    requires
        0 <= r <= MAX_FORMATION_RADIUS,
        0 <= i < sorted.len(),
        spec_sorted_ring(grid, target, r, sorted),
        spec_greedy_state(grid, target, slots, r, sorted, i),
        pushed ==> forall|j: int| 0 <= j < slots.len() ==> !#[trigger] spec_too_close(spec_wide(slots[j]), spec_wide(sorted[i])),
        !pushed ==> exists|j: int| 0 <= j < slots.len() && #[trigger] spec_too_close(spec_wide(slots[j]), spec_wide(sorted[i])),
    ensures
        spec_greedy_state(grid, target, if pushed { slots.push(sorted[i]) } else { slots }, r, sorted, i + 1),
{
    let c = spec_target_cell(target);
    let x = sorted[i];
    let xw = spec_wide(x);
    let done = sorted.subrange(0, i);
    let done2 = sorted.subrange(0, i + 1);
    assert(spec_free_on_ring(grid, c, r, xw));
    assert forall|a: (int, int)| spec_holds_cell(done, a) implies #[trigger] spec_holds_cell(done2, a) by {
        let j = choose|j: int| 0 <= j < done.len() && (#[trigger] done[j]).0 == a.0 && done[j].1 == a.1;
        assert(done2[j] == done[j]);
    }
    assert(done2[i] == x);
    assert(spec_holds_cell(done2, xw));
    // Every earlier cell of this ring comes before x.
    assert forall|k: int| 0 <= k < slots.len() && spec_wide(slots[k]) != xw implies spec_slot_before(target, spec_wide(#[trigger] slots[k]), xw) by {
        let s = spec_wide(slots[k]);
        if spec_cheb(s.0 - c.0, s.1 - c.1) == r {
            assert(spec_holds_cell(done, s));
            let m = choose|m: int| 0 <= m < done.len() && (#[trigger] done[m]).0 == s.0 && done[m].1 == s.1;
            assert(done[m] == sorted[m]);
            assert(spec_slot_le(target, spec_wide(sorted[m]), spec_wide(sorted[i])));
        }
    }
    // Any candidate processed by now is x itself or was processed before.
    assert forall|a: (int, int)| #[trigger] spec_slot_candidate(grid, target, a)
        && spec_cheb(a.0 - c.0, a.1 - c.1) == r && spec_holds_cell(done2, a) && a != xw
        implies spec_holds_cell(done, a) by {
        let j = choose|j: int| 0 <= j < done2.len() && (#[trigger] done2[j]).0 == a.0 && done2[j].1 == a.1;
        assert(j < i);
        assert(done[j] == done2[j]);
    }
    if pushed {
        let slots2 = slots.push(x);
        assert(slots2[slots.len() as int] == x);
        assert forall|k: int| 0 <= k < slots.len() implies slots2[k] == slots[k] by {}
        assert forall|k: int| 0 <= k < slots.len() implies spec_wide(#[trigger] slots[k]) != xw by {
            assert(!spec_too_close(spec_wide(slots[k]), spec_wide(sorted[i])));
            if slots[k].0 == x.0 && slots[k].1 == x.1 {
                lemma_same_cell_too_close(spec_wide(slots[k]), spec_wide(sorted[i]));
            }
        }
        assert(spec_holds_cell(slots2, xw));
        assert forall|a: (int, int)| spec_holds_cell(slots, a) implies #[trigger] spec_holds_cell(slots2, a) by {
            let j = choose|j: int| 0 <= j < slots.len() && (#[trigger] slots[j]).0 == a.0 && slots[j].1 == a.1;
            assert(slots2[j] == slots[j]);
        }
        assert forall|k: int| 0 <= k < slots2.len() && spec_cheb(slots2[k].0 - c.0, slots2[k].1 - c.1) == r
            implies spec_holds_cell(done2, spec_wide(#[trigger] slots2[k])) by {
            if k < slots.len() {
                assert(slots2[k] == slots[k]);
                assert(spec_holds_cell(done, spec_wide(slots[k])));
            }
        }
        assert forall|a: (int, int)| #[trigger] spec_slot_candidate(grid, target, a)
            && (spec_cheb(a.0 - c.0, a.1 - c.1) < r || (spec_cheb(a.0 - c.0, a.1 - c.1) == r && spec_holds_cell(done2, a)))
            && !spec_holds_cell(slots2, a)
            implies exists|j: int| 0 <= j < slots2.len() && spec_slot_before(target, spec_wide(slots2[j]), a) && #[trigger] spec_too_close(spec_wide(slots2[j]), a) by {
            assert(a != xw);
            assert(!spec_holds_cell(slots, a));
            let j = choose|j: int| 0 <= j < slots.len() && spec_slot_before(target, spec_wide(slots[j]), a) && #[trigger] spec_too_close(spec_wide(slots[j]), a);
            assert(slots2[j] == slots[j]);
        }
    } else {
        let j0 = choose|j: int| 0 <= j < slots.len() && #[trigger] spec_too_close(spec_wide(slots[j]), spec_wide(sorted[i]));
        assert forall|k: int| 0 <= k < slots.len() && spec_cheb(slots[k].0 - c.0, slots[k].1 - c.1) == r
            implies spec_holds_cell(done2, spec_wide(#[trigger] slots[k])) by {
            assert(spec_holds_cell(done, spec_wide(slots[k])));
        }
        assert forall|a: (int, int)| #[trigger] spec_slot_candidate(grid, target, a)
            && (spec_cheb(a.0 - c.0, a.1 - c.1) < r || (spec_cheb(a.0 - c.0, a.1 - c.1) == r && spec_holds_cell(done2, a)))
            && !spec_holds_cell(slots, a)
            implies exists|j: int| 0 <= j < slots.len() && spec_slot_before(target, spec_wide(slots[j]), a) && #[trigger] spec_too_close(spec_wide(slots[j]), a) by {
            if a == xw {
                assert(spec_wide(slots[j0]) != xw) by {
                    if spec_wide(slots[j0]) == xw {
                        assert(spec_holds_cell(slots, xw));
                    }
                }
                assert(spec_slot_before(target, spec_wide(slots[j0]), xw));
            }
        }
    }
}


proof fn lemma_next_ring(grid: Grid, target: Pos, slots: Seq<(i32, i32)>, r: int, sorted: Seq<(i32, i32)>)
    requires
        0 <= r,
        spec_sorted_ring(grid, target, r, sorted),
        spec_greedy_state(grid, target, slots, r, sorted, sorted.len() as int),
    ensures
        spec_greedy_state(grid, target, slots, r + 1, Seq::empty(), 0),
{
    let c = spec_target_cell(target);
    assert(sorted.subrange(0, sorted.len() as int) =~= sorted);
    let e = Seq::<(i32, i32)>::empty();
    assert(e.subrange(0, 0) =~= e);
    assert forall|a: (int, int)| #[trigger] spec_slot_candidate(grid, target, a)
        && (spec_cheb(a.0 - c.0, a.1 - c.1) < r + 1 || (spec_cheb(a.0 - c.0, a.1 - c.1) == r + 1 && spec_holds_cell(e.subrange(0, 0), a)))
        && !spec_holds_cell(slots, a)
        implies exists|j: int| 0 <= j < slots.len() && spec_slot_before(target, spec_wide(slots[j]), a) && #[trigger] spec_too_close(spec_wide(slots[j]), a) by {
        if spec_cheb(a.0 - c.0, a.1 - c.1) == r {
            assert(spec_free_on_ring(grid, c, r, a));
            assert(spec_holds_cell(sorted, a));
        }
    }
}

proof fn lemma_first_ring(grid: Grid, target: Pos)
    ensures
        spec_greedy_state(grid, target, Seq::empty(), 0, Seq::empty(), 0),
{
    let c = spec_target_cell(target);
    let e = Seq::<(i32, i32)>::empty();
    assert(e.subrange(0, 0) =~= e);
    assert forall|a: (int, int)| #[trigger] spec_slot_candidate(grid, target, a)
        implies spec_cheb(a.0 - c.0, a.1 - c.1) >= 0 by {
    }
}

proof fn lemma_finish_complete(grid: Grid, target: Pos, needed: nat, slots: Seq<(i32, i32)>)
    requires
        spec_greedy_state(grid, target, slots, MAX_FORMATION_RADIUS + 1, Seq::empty(), 0),
        needed > 0 ==> slots.len() < needed,
    ensures
        spec_formation(grid, target, needed, slots),
{
}

proof fn lemma_finish_early(grid: Grid, target: Pos, needed: nat, slots: Seq<(i32, i32)>, r: int, sorted: Seq<(i32, i32)>, i: int)
    requires
        0 <= r,
        0 <= i < sorted.len(),
        needed > 0,
        slots.len() == needed,
        slots.last() == sorted[i],
        spec_sorted_ring(grid, target, r, sorted),
        spec_greedy_state(grid, target, slots, r, sorted, i + 1),
    ensures
        spec_formation(grid, target, needed, slots),
{
    let c = spec_target_cell(target);
    let done = sorted.subrange(0, i + 1);
    let last = slots.last();
    assert forall|a: (int, int)| #[trigger] spec_slot_candidate(grid, target, a)
        && spec_slot_before(target, a, spec_wide(slots.last()))
        && !spec_holds_cell(slots, a)
        implies exists|j: int| 0 <= j < slots.len() && spec_slot_before(target, spec_wide(slots[j]), a) && #[trigger] spec_too_close(spec_wide(slots[j]), a) by {
        assert(spec_free_on_ring(grid, c, r, spec_wide(sorted[i])));
        if spec_cheb(a.0 - c.0, a.1 - c.1) == r {
            assert(spec_free_on_ring(grid, c, r, a));
            assert(spec_holds_cell(sorted, a));
            let k = choose|k: int| 0 <= k < sorted.len() && (#[trigger] sorted[k]).0 == a.0 && sorted[k].1 == a.1;
            if k > i {
                assert(spec_slot_le(target, spec_wide(sorted[i]), spec_wide(sorted[k])));
            } else if k == i {
                assert(slots[slots.len() - 1] == sorted[i]);
                assert(spec_holds_cell(slots, a));
            } else {
                assert(done[k] == sorted[k]);
                assert(spec_holds_cell(done, a));
            }
        }
    }
}

/// The centres of a list of cells.
fn cell_centers(cells: &Vec<(i32, i32)>) -> (out: Vec<Pos>)
    requires
        forall|k: int| 0 <= k < cells@.len() ==> -2_000_000 <= (#[trigger] cells@[k]).0 <= 2_000_000 && -2_000_000 <= cells@[k].1 <= 2_000_000,
    ensures
        out@.len() == cells@.len(),
        forall|k: int| 0 <= k < cells@.len() ==> #[trigger] out@[k] == spec_cell_center(cells@[k].0 as int, cells@[k].1 as int),
{
    let mut out: Vec<Pos> = Vec::new();
    let mut k: usize = 0;
    while k < cells.len()
        invariant
            k <= cells@.len(),
            out@.len() == k,
            forall|m: int| 0 <= m < cells@.len() ==> -2_000_000 <= (#[trigger] cells@[m]).0 <= 2_000_000 && -2_000_000 <= cells@[m].1 <= 2_000_000,
            forall|m: int| 0 <= m < k ==> #[trigger] out@[m] == spec_cell_center(cells@[m].0 as int, cells@[m].1 as int),
        decreases cells@.len() - k,
    {
        out.push(Pos::from_cell(cells[k].0, cells[k].1));
        k = k + 1;
    }
    out
}

/// Destinations for a group of `needed` units sent to `target_pos`: cell
/// centres taken greedily ring by ring around the target's cell (at most
/// `MAX_FORMATION_RADIUS` rings out), within a ring nearest the target
/// first (then by z, then by x), skipping blocked cells and cells closer
/// than 1.5 cells to one already taken, until `needed` are found.
pub fn formation_slots_near_target(target_pos: Pos, needed: usize, grid: &Grid) -> (slots: Vec<Pos>)
    requires
        grid.wf(),
        spec_pos_in_world(target_pos),
    ensures
        exists|cells: Seq<(i32, i32)>| #[trigger] spec_formation(*grid, target_pos, needed as nat, cells)
            && cells.len() == slots@.len()
            && forall|k: int| 0 <= k < cells.len() ==> #[trigger] slots@[k] == spec_cell_center(cells[k].0 as int, cells[k].1 as int),
{
    let center = target_pos.cell();
    let ghost c = spec_target_cell(target_pos);
    let mut slots: Vec<(i32, i32)> = Vec::new();
    proof { lemma_first_ring(*grid, target_pos); }
    let mut r: i32 = 0;
    while r <= MAX_FORMATION_RADIUS
        invariant
            grid.wf(),
            spec_pos_in_world(target_pos),
            c == spec_target_cell(target_pos),
            c == (center.0 as int, center.1 as int),
            -1_000_001 <= center.0 <= 1_000_001,
            -1_000_001 <= center.1 <= 1_000_001,
            0 <= r <= MAX_FORMATION_RADIUS + 1,
            spec_greedy_state(*grid, target_pos, slots@, r as int, Seq::empty(), 0),
            needed > 0 ==> slots@.len() < needed,
        decreases MAX_FORMATION_RADIUS + 1 - r,
    {
        let ring = ring_cells(grid, center, r);
        let sorted = sort_ring(&ring, target_pos);
        proof {
            assert forall|k: int| 0 <= k < sorted@.len() implies spec_free_on_ring(*grid, c, r as int, spec_wide(#[trigger] sorted@[k])) by {
                assert(spec_has_cell(ring@, sorted@[k]));
                let j = choose|j: int| 0 <= j < ring@.len() && (#[trigger] ring@[j]).0 == sorted@[k].0 && ring@[j].1 == sorted@[k].1;
                assert(spec_free_on_ring(*grid, c, r as int, (ring@[j].0 as int, ring@[j].1 as int)));
            }
            assert forall|a: (int, int)| spec_free_on_ring(*grid, c, r as int, a) implies #[trigger] spec_holds_cell(sorted@, a) by {
                let j = choose|j: int| 0 <= j < ring@.len() && (#[trigger] ring@[j]).0 == a.0 && ring@[j].1 == a.1;
                assert(spec_has_cell(sorted@, ring@[j]));
                let k = choose|k: int| 0 <= k < sorted@.len() && (#[trigger] sorted@[k]).0 == ring@[j].0 && sorted@[k].1 == ring@[j].1;
                assert(sorted@[k].0 == a.0 && sorted@[k].1 == a.1);
            }
            assert(spec_sorted_ring(*grid, target_pos, r as int, sorted@));
            let e = Seq::<(i32, i32)>::empty();
            assert(e.subrange(0, 0) =~= e);
            assert(sorted@.subrange(0, 0) =~= e);
        }
        let mut i: usize = 0;
        while i < sorted.len()
            invariant
                grid.wf(),
                spec_pos_in_world(target_pos),
                c == spec_target_cell(target_pos),
                c == (center.0 as int, center.1 as int),
                -1_000_001 <= center.0 <= 1_000_001,
                -1_000_001 <= center.1 <= 1_000_001,
                0 <= r <= MAX_FORMATION_RADIUS,
                i <= sorted@.len(),
                spec_sorted_ring(*grid, target_pos, r as int, sorted@),
                spec_greedy_state(*grid, target_pos, slots@, r as int, sorted@, i as int),
                needed > 0 ==> slots@.len() < needed,
            decreases sorted@.len() - i,
        {
            let x = sorted[i];
            let pushed = !crowded(&slots, x);
            proof {
                lemma_greedy_step(*grid, target_pos, slots@, r as int, sorted@, i as int, pushed);
            }
            if pushed {
                slots.push(x);
                if slots.len() == needed {
                    proof {
                        lemma_finish_early(*grid, target_pos, needed as nat, slots@, r as int, sorted@, i as int);
                    }
                    return finish_slots(&slots, Ghost(*grid), target_pos, needed);
                }
            }
            i = i + 1;
        }
        proof {
            lemma_next_ring(*grid, target_pos, slots@, r as int, sorted@);
        }
        r = r + 1;
    }
    proof {
        lemma_finish_complete(*grid, target_pos, needed as nat, slots@);
    }
    finish_slots(&slots, Ghost(*grid), target_pos, needed)
}

/// The chosen cells as positions.
fn finish_slots(cells: &Vec<(i32, i32)>, Ghost(grid): Ghost<Grid>, target_pos: Pos, needed: usize) -> (slots: Vec<Pos>)
    requires
        spec_pos_in_world(target_pos),
        spec_formation(grid, target_pos, needed as nat, cells@),
    ensures
        exists|cs: Seq<(i32, i32)>| #[trigger] spec_formation(grid, target_pos, needed as nat, cs)
            && cs.len() == slots@.len()
            && forall|k: int| 0 <= k < cs.len() ==> #[trigger] slots@[k] == spec_cell_center(cs[k].0 as int, cs[k].1 as int),
{
    let ghost c = spec_target_cell(target_pos);
    proof {
        assert forall|k: int| 0 <= k < cells@.len() implies -2_000_000 <= (#[trigger] cells@[k]).0 <= 2_000_000 && -2_000_000 <= cells@[k].1 <= 2_000_000 by {
            assert(spec_slot_candidate(grid, target_pos, spec_wide(cells@[k])));
        }
    }
    let out = cell_centers(cells);
    assert(spec_formation(grid, target_pos, needed as nat, cells@));
    out
}


/// `slots` are the formation positions for `needed` units around `target`.
pub open spec fn spec_formation_positions(grid: Grid, target: Pos, needed: nat, slots: Seq<Pos>) -> bool {
    exists|cells: Seq<(i32, i32)>| #[trigger] spec_formation(grid, target, needed, cells)
        && cells.len() == slots.len()
        && forall|k: int| 0 <= k < cells.len() ==> #[trigger] slots[k] == spec_cell_center(cells[k].0 as int, cells[k].1 as int)
}

/// `sorted` lists the units of `group` by distance from `target`, nearest
/// first, ties in listed order; `src[k]` is where `sorted[k]` was listed.
pub open spec fn spec_group_sorted(group: Seq<(u64, Pos)>, sorted: Seq<(u64, Pos)>, src: Seq<int>, target: Pos) -> bool {
    &&& sorted.len() == group.len()
    &&& src.len() == group.len()
    &&& forall|k: int| 0 <= k < src.len() ==> 0 <= #[trigger] src[k] < group.len() && sorted[k] == group[src[k]]
    &&& forall|k: int, l: int| 0 <= k < l < src.len() ==> spec_group_before(sorted[k], #[trigger] src[k], sorted[l], #[trigger] src[l], target)
}

/// Unit `a`, listed at `ia`, goes before unit `b`, listed at `ib`: it is
/// nearer the target, or as near and listed first.
pub open spec fn spec_group_before(a: (u64, Pos), ia: int, b: (u64, Pos), ib: int, target: Pos) -> bool {
    spec_dist_sq(a.1, target) < spec_dist_sq(b.1, target)
        || (spec_dist_sq(a.1, target) == spec_dist_sq(b.1, target) && ia < ib)
}

/// Slot `i` is the one nearest `p`, the first listed among equally near ones.
pub open spec fn spec_first_nearest_slot(slots: Seq<Pos>, p: Pos, i: int) -> bool {
    &&& 0 <= i < slots.len()
    &&& forall|j: int| 0 <= j < slots.len() ==> {
        &&& spec_dist_sq(slots[i], p) <= spec_dist_sq(#[trigger] slots[j], p)
        &&& (j < i ==> spec_dist_sq(slots[i], p) < spec_dist_sq(slots[j], p))
    }
}

/// The slot nearest `p` (the first listed among equally near ones).
pub open spec fn spec_nearest_slot(slots: Seq<Pos>, p: Pos) -> int {
    choose|i: int| spec_first_nearest_slot(slots, p, i)
}

/// Units, in order, each take the remaining slot nearest to them; once the
/// slots run out, the rest head for `target` itself.
pub open spec fn spec_assign(units: Seq<(u64, Pos)>, slots: Seq<Pos>, target: Pos) -> Seq<(u64, Pos)>
    decreases units.len(),
{
    if units.len() == 0 {
        Seq::empty()
    } else if slots.len() == 0 {
        seq![(units[0].0, target)] + spec_assign(units.drop_first(), slots, target)
    } else {
        let b = spec_nearest_slot(slots, units[0].1);
        seq![(units[0].0, slots[b])] + spec_assign(units.drop_first(), slots.remove(b), target)
    }
}

/// `r` is where the units of `group` go when sent to `target`: a lone unit
/// (or a group for which no formation slot is free) heads for the target
/// itself; otherwise the units, nearest the target first, each take the
/// remaining formation slot nearest to them.
pub open spec fn spec_assignment(grid: Grid, target: Pos, group: Seq<(u64, Pos)>, r: Seq<(u64, Pos)>) -> bool {
    &&& group.len() <= 1 ==> r == spec_all_to_target(group, target)
    &&& group.len() > 1 ==> exists|slots: Seq<Pos>, sorted: Seq<(u64, Pos)>, src: Seq<int>|
        #[trigger] spec_formation_positions(grid, target, group.len(), slots)
        && #[trigger] spec_group_sorted(group, sorted, src, target)
        && r == if slots.len() == 0 { spec_all_to_target(group, target) } else { spec_assign(sorted, slots, target) }
}

/// Every unit of a group sent to `target` itself.
pub open spec fn spec_all_to_target(group: Seq<(u64, Pos)>, target: Pos) -> Seq<(u64, Pos)> {
    group.map_values(|u: (u64, Pos)| (u.0, target))
}

proof fn lemma_first_nearest_slot_unique(slots: Seq<Pos>, p: Pos, i: int, j: int)
    requires
        spec_first_nearest_slot(slots, p, i),
        spec_first_nearest_slot(slots, p, j),
    ensures
        i == j,
{
    let si = slots[i];
    let sj = slots[j];
}

/// The remaining slot nearest a unit.
fn nearest_slot(slots: &Vec<Pos>, p: Pos) -> (r: usize)
    requires
        slots@.len() > 0,
    ensures
        r == spec_nearest_slot(slots@, p),
        spec_first_nearest_slot(slots@, p, r as int),
{
    let mut best: usize = 0;
    let mut best_d: i128 = slots[0].dist_sq(&p);
    let mut j: usize = 1;
    while j < slots.len()
        invariant
            1 <= j <= slots@.len(),
            best < j,
            best_d == spec_dist_sq(slots@[best as int], p),
            forall|m: int| 0 <= m < j ==> {
                &&& best_d <= spec_dist_sq(#[trigger] slots@[m], p)
                &&& (m < best ==> best_d < spec_dist_sq(slots@[m], p))
            },
        decreases slots@.len() - j,
    {
        let d = slots[j].dist_sq(&p);
        if d < best_d {
            best = j;
            best_d = d;
        }
        j = j + 1;
    }
    proof {
        assert(spec_first_nearest_slot(slots@, p, best as int));
        lemma_first_nearest_slot_unique(slots@, p, best as int, spec_nearest_slot(slots@, p));
    }
    best
}

/// Lists a group by distance from `target`, nearest first, ties in listed order.
fn sort_group(group: &Vec<(u64, Pos)>, target: Pos) -> (sorted: Vec<(u64, Pos)>)
    ensures
        exists|src: Seq<int>| spec_group_sorted(group@, sorted@, src, target),
{
    let mut units: Vec<CombatUnit> = Vec::new();
    let mut i: usize = 0;
    while i < group.len()
        invariant
            i <= group@.len(),
            units@.len() == i,
            forall|k: int| 0 <= k < i ==> #[trigger] units@[k] == (CombatUnit { entity: group@[k].0, pos: group@[k].1, target: None, moving: false }),
        decreases group@.len() - i,
    {
        units.push(CombatUnit { entity: group[i].0, pos: group[i].1, target: None, moving: false });
        i = i + 1;
    }
    let by_distance = sort_by_distance(&units, target);
    let ghost src = choose|src: Seq<int>| spec_sorted_by_distance(units@, by_distance@, src, target);
    let mut out: Vec<(u64, Pos)> = Vec::new();
    let mut k: usize = 0;
    while k < by_distance.len()
        invariant
            k <= by_distance@.len(),
            by_distance@.len() == group@.len(),
            out@.len() == k,
            forall|m: int| 0 <= m < k ==> #[trigger] out@[m] == (by_distance@[m].entity, by_distance@[m].pos),
        decreases by_distance@.len() - k,
    {
        out.push((by_distance[k].entity, by_distance[k].pos));
        k = k + 1;
    }
    proof {
        assert forall|m: int| 0 <= m < src.len() implies 0 <= #[trigger] src[m] < group@.len() && out@[m] == group@[src[m]] by {
            assert(by_distance@[m] == units@[src[m]]);
        }
        assert forall|m: int, l: int| 0 <= m < l < src.len() implies spec_group_before(out@[m], #[trigger] src[m], out@[l], #[trigger] src[l], target) by {
            assert(out@[m] == (by_distance@[m].entity, by_distance@[m].pos));
            assert(out@[l] == (by_distance@[l].entity, by_distance@[l].pos));
            assert(crate::army::spec_closer_first(by_distance@[m], src[m], by_distance@[l], src[l], target));
        }
        assert(spec_group_sorted(group@, out@, src, target));
    }
    out
}

/// Where each unit of a group sent to `target_pos` should go: a lone unit
/// (or a group for which no formation slot is free) heads for the target
/// itself; otherwise the units, nearest the target first, each take the
/// remaining formation slot nearest to them.
pub fn assign_group_move_slots(target_pos: Pos, group_units: &Vec<(u64, Pos)>, grid: &Grid) -> (r: Vec<(u64, Pos)>)
    requires
        grid.wf(),
        spec_pos_in_world(target_pos),
    ensures
        spec_assignment(*grid, target_pos, group_units@, r@),
{
    if group_units.len() <= 1 {
        return all_to_target(group_units, target_pos);
    }
    let mut slots = formation_slots_near_target(target_pos, group_units.len(), grid);
    let ghost initial_slots = slots@;
    assert(spec_formation_positions(*grid, target_pos, group_units@.len(), initial_slots));
    if slots.len() == 0 {
        let r = all_to_target(group_units, target_pos);
        let sorted = sort_group(group_units, target_pos);
        let ghost src = choose|src: Seq<int>| spec_group_sorted(group_units@, sorted@, src, target_pos);
        assert(spec_group_sorted(group_units@, sorted@, src, target_pos));
        return r;
    }
    let sorted = sort_group(group_units, target_pos);
    let ghost src = choose|src: Seq<int>| spec_group_sorted(group_units@, sorted@, src, target_pos);
    let mut out: Vec<(u64, Pos)> = Vec::new();
    let mut i: usize = 0;
    assert(sorted@.subrange(0, sorted@.len() as int) =~= sorted@);
    assert(out@ + spec_assign(sorted@, slots@, target_pos) =~= spec_assign(sorted@, slots@, target_pos));
    while i < sorted.len()
        invariant
            i <= sorted@.len(),
            out@ + spec_assign(sorted@.subrange(i as int, sorted@.len() as int), slots@, target_pos)
                == spec_assign(sorted@, initial_slots, target_pos),
        decreases sorted@.len() - i,
    {
        let (entity, pos) = sorted[i];
        let ghost rest = sorted@.subrange(i as int, sorted@.len() as int);
        assert(rest.drop_first() =~= sorted@.subrange(i + 1, sorted@.len() as int));
        assert(rest[0] == sorted@[i as int]);
        if slots.len() == 0 {
            out.push((entity, target_pos));
        } else {
            let b = nearest_slot(&slots, pos);
            let slot = slots.remove(b);
            out.push((entity, slot));
        }
        proof {
            assert(out@ + spec_assign(sorted@.subrange(i + 1, sorted@.len() as int), slots@, target_pos)
                =~= spec_assign(sorted@, initial_slots, target_pos));
        }
        i = i + 1;
    }
    assert(sorted@.subrange(sorted@.len() as int, sorted@.len() as int) =~= Seq::<(u64, Pos)>::empty());
    assert(out@ + Seq::<(u64, Pos)>::empty() =~= out@);
    assert(sorted@.subrange(0, sorted@.len() as int) =~= sorted@);
    out
}

/// Every unit of a group sent to the target itself.
fn all_to_target(group_units: &Vec<(u64, Pos)>, target_pos: Pos) -> (r: Vec<(u64, Pos)>)
    ensures
        r@ == spec_all_to_target(group_units@, target_pos),
{
    let mut out: Vec<(u64, Pos)> = Vec::new();
    let mut i: usize = 0;
    while i < group_units.len()
        invariant
            i <= group_units@.len(),
            out@.len() == i,
            forall|k: int| 0 <= k < i ==> #[trigger] out@[k] == (group_units@[k].0, target_pos),
        decreases group_units@.len() - i,
    {
        out.push((group_units[i].0, target_pos));
        i = i + 1;
    }
    assert(out@ =~= spec_all_to_target(group_units@, target_pos));
    out
}


/// Among the first `n` slots, one is nearest `p`: the first listed among
/// equally near ones.
proof fn lemma_nearest_slot_among(slots: Seq<Pos>, p: Pos, n: int) -> (i: int)
    requires
        1 <= n <= slots.len(),
    ensures
        0 <= i < n,
        forall|j: int| 0 <= j < n ==> {
            &&& spec_dist_sq(slots[i], p) <= spec_dist_sq(#[trigger] slots[j], p)
            &&& (j < i ==> spec_dist_sq(slots[i], p) < spec_dist_sq(slots[j], p))
        },
    decreases n,
{
    if n == 1 {
        0
    } else {
        let k = lemma_nearest_slot_among(slots, p, n - 1);
        if spec_dist_sq(slots[n - 1], p) < spec_dist_sq(slots[k], p) { n - 1 } else { k }
    }
}

/// When units take formation slots in turn, the first unit takes one of
/// the free slots, and no free slot is nearer to it than the one it takes;
/// the others then share out the slots still free (that one removed). With
/// no slot free, a unit heads for the target itself.
pub proof fn law_each_unit_takes_its_nearest_free_slot(units: Seq<(u64, Pos)>, slots: Seq<Pos>, target: Pos)
    requires
        units.len() > 0,
    ensures
        ({
            let r = spec_assign(units, slots, target);
            &&& r.len() == units.len()
            &&& r[0].0 == units[0].0
            &&& slots.len() == 0 ==> r[0].1 == target && r.drop_first() == spec_assign(units.drop_first(), slots, target)
            &&& slots.len() > 0 ==> exists|b: int| 0 <= b < slots.len() && (#[trigger] slots[b]) == r[0].1
                && (forall|k: int| 0 <= k < slots.len() ==> spec_dist_sq(slots[b], units[0].1) <= spec_dist_sq(#[trigger] slots[k], units[0].1))
                && r.drop_first() == spec_assign(units.drop_first(), slots.remove(b), target)
        }),
{
    lemma_assign_len(units, slots, target);
    let r = spec_assign(units, slots, target);
    if slots.len() == 0 {
        assert(r.drop_first() =~= spec_assign(units.drop_first(), slots, target));
    } else {
        let i = lemma_nearest_slot_among(slots, units[0].1, slots.len() as int);
        assert(spec_first_nearest_slot(slots, units[0].1, i));
        let b = spec_nearest_slot(slots, units[0].1);
        assert(spec_first_nearest_slot(slots, units[0].1, b));
        assert(r.drop_first() =~= spec_assign(units.drop_first(), slots.remove(b), target));
        assert(slots[b] == r[0].1);
    }
}

/// Every unit gets a destination.
proof fn lemma_assign_len(units: Seq<(u64, Pos)>, slots: Seq<Pos>, target: Pos)
    ensures
        spec_assign(units, slots, target).len() == units.len(),
    decreases units.len(),
{
    if units.len() > 0 {
        if slots.len() == 0 {
            lemma_assign_len(units.drop_first(), slots, target);
        } else {
            let b = spec_nearest_slot(slots, units[0].1);
            lemma_assign_len(units.drop_first(), slots.remove(b), target);
        }
    }
}

} // verus!
