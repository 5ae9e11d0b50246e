use vstd::prelude::*;
use crate::geometry::{Pos, spec_round_milli};
use crate::grid::Grid;
use vstd::multiset::Multiset;

verus! {

/// How far (in rings of cells) a blocked destination may be moved.
pub const MAX_FALLBACK_RADIUS: i32 = 12;

/// Squared distance, in millionths, from the centre of cell `(cx, cz)` to `p`.
pub open spec fn spec_cell_dist_sq(cx: int, cz: int, p: Pos) -> int {
    (cx * 1000 - p.x) * (cx * 1000 - p.x) + (cz * 1000 - p.z) * (cz * 1000 - p.z)
}

pub open spec fn spec_abs(v: int) -> int {
    if v >= 0 { v } else { -v }
}

/// Chebyshev distance between two cells.
pub open spec fn spec_cheb(dx: int, dz: int) -> int {
    if spec_abs(dx) >= spec_abs(dz) { spec_abs(dx) } else { spec_abs(dz) }
}

/// Position of offset `(dx, dz)` in the scan of the square of radius `k`:
/// rows of increasing `dz`, each row scanned by increasing `dx`.
pub open spec fn spec_scan_index(k: int, dx: int, dz: int) -> int {
    (dz + k) * (2 * k + 1) + (dx + k)
}

/// Cell `(r.0 + dx, r.1 + dz)` lies on ring `k` around `r` and can be entered.
pub open spec fn spec_ring_free(g: Grid, r: (int, int), k: int, dx: int, dz: int) -> bool {
    &&& spec_cheb(dx, dz) == k
    &&& !g.spec_is_blocked(r.0 + dx, r.1 + dz)
}

/// Ring `k` around `r` holds a cell that can be entered.
pub open spec fn spec_ring_has_free(g: Grid, r: (int, int), k: int) -> bool {
    exists|dx: int, dz: int| #[trigger] spec_ring_free(g, r, k, dx, dz)
}

/// `(dx, dz)` is the free cell of ring `k` closest to `start`; among equally
/// close cells, the first in scan order.
pub open spec fn spec_ring_choice(g: Grid, start: Pos, r: (int, int), k: int, dx: int, dz: int) -> bool {
    &&& spec_ring_free(g, r, k, dx, dz)
    &&& forall|dx2: int, dz2: int| #[trigger] spec_ring_free(g, r, k, dx2, dz2) ==> {
        &&& spec_cell_dist_sq(r.0 + dx2, r.1 + dz2, start) >= spec_cell_dist_sq(r.0 + dx, r.1 + dz, start)
        &&& (spec_scan_index(k, dx2, dz2) < spec_scan_index(k, dx, dz) ==>
            spec_cell_dist_sq(r.0 + dx2, r.1 + dz2, start) > spec_cell_dist_sq(r.0 + dx, r.1 + dz, start))
    }
}

/// No ring of radius `1..k` around `r` holds a free cell.
pub open spec fn spec_inner_rings_full(g: Grid, r: (int, int), k: int) -> bool {
    forall|j: int| 1 <= j < k ==> !#[trigger] spec_ring_has_free(g, r, j)
}

proof fn lemma_scan_order(k: int, dx1: int, dz1: int, dx2: int, dz2: int)
    requires
        k >= 0,
        -k <= dx1 <= k,
        -k <= dx2 <= k,
        dz1 < dz2 || (dz1 == dz2 && dx1 < dx2),
    ensures
        spec_scan_index(k, dx1, dz1) < spec_scan_index(k, dx2, dz2),
{
    if dz1 < dz2 {
        assert((dz1 + k) * (2 * k + 1) + (2 * k + 1) <= (dz2 + k) * (2 * k + 1)) by (nonlinear_arith)
            requires dz1 < dz2, k >= 0;
    }
}

/// The cell that a requested point falls in.
pub open spec fn spec_requested_cell(p: Pos) -> (int, int) {
    (spec_round_milli(p.x as int), spec_round_milli(p.z as int))
}

/// `c` is where a unit at `start` heads when asked to go to `requested`:
/// the requested cell when it can be entered, else the closest free cell of
/// the innermost ring (within `MAX_FALLBACK_RADIUS`) that has one.
pub open spec fn spec_destination(g: Grid, start: Pos, requested: Pos, c: (int, int)) -> bool {
    let r = spec_requested_cell(requested);
    &&& g.spec_in_bounds(r.0, r.1)
    &&& if !g.spec_is_blocked(r.0, r.1) {
        c == r
    } else {
        exists|k: int| 1 <= k <= MAX_FALLBACK_RADIUS
            && spec_inner_rings_full(g, r, k)
            && #[trigger] spec_ring_choice(g, start, r, k, c.0 - r.0, c.1 - r.1)
    }
}

/// Squared distance from the centre of a cell to a point, in millionths.
pub fn cell_dist_sq(cx: i32, cz: i32, p: &Pos) -> (d: i128)
    ensures
        d as int == spec_cell_dist_sq(cx as int, cz as int, *p),
{
    let dx: i128 = cx as i128 * 1000 - p.x as i128;
    let dz: i128 = cz as i128 * 1000 - p.z as i128;
    assert(0 <= dx * dx <= 0x10_0000_0000_0000_0000_0000) by (nonlinear_arith)
        requires -0x400_0000_0000 <= dx <= 0x400_0000_0000;
    assert(0 <= dz * dz <= 0x10_0000_0000_0000_0000_0000) by (nonlinear_arith)
        requires -0x400_0000_0000 <= dz <= 0x400_0000_0000;
    dx * dx + dz * dz
}

/// Where a unit at `start` should head when asked to go to `requested`:
/// the requested cell itself if it can be entered; otherwise, on the nearest
/// ring (up to `MAX_FALLBACK_RADIUS`) that holds an enterable cell, the one
/// closest to `start`. `None` when the requested cell is off the map or no
/// ring within reach has room.
pub fn nearest_available_destination(start: Pos, requested: Pos, grid: &Grid) -> (res: Option<(i32, i32)>)
    requires
        grid.wf(),
    ensures
        ({
            let r = spec_requested_cell(requested);
            &&& res is None <==> (!grid.spec_in_bounds(r.0, r.1) || (grid.spec_is_blocked(r.0, r.1)
                && spec_inner_rings_full(*grid, r, MAX_FALLBACK_RADIUS + 1)))
            &&& res matches Some(c) ==> spec_destination(*grid, start, requested, (c.0 as int, c.1 as int))
        }),
{
    let requested_cell = requested.cell();
    if !grid.in_bounds(requested_cell.0, requested_cell.1) {
        return None;
    }
    if !grid.is_blocked(requested_cell.0, requested_cell.1) {
        return Some(requested_cell);
    }
    let ghost r = (requested_cell.0 as int, requested_cell.1 as int);
    let mut radius: i32 = 1;
    while radius <= MAX_FALLBACK_RADIUS
        invariant
            1 <= radius <= MAX_FALLBACK_RADIUS + 1,
            grid.wf(),
            r == (requested_cell.0 as int, requested_cell.1 as int),
            -2147484 <= r.0 <= 2147484,
            -2147484 <= r.1 <= 2147484,
            spec_inner_rings_full(*grid, r, radius as int),
            r.0 == spec_round_milli(requested.x as int),
            r.1 == spec_round_milli(requested.z as int),
            grid.spec_in_bounds(r.0, r.1),
            grid.spec_is_blocked(r.0, r.1),
        decreases MAX_FALLBACK_RADIUS + 1 - radius,
    {
        let mut best: Option<(i32, i32)> = None;
        let mut best_distance: i128 = 0;
        let mut dz: i32 = -radius;
        while dz <= radius
            invariant
                1 <= radius <= MAX_FALLBACK_RADIUS,
                -radius <= dz <= radius + 1,
                grid.wf(),
                r == (requested_cell.0 as int, requested_cell.1 as int),
                -2147484 <= r.0 <= 2147484,
                -2147484 <= r.1 <= 2147484,
                best is None ==> forall|dx2: int, dz2: int| -radius <= dz2 < dz ==> !#[trigger] spec_ring_free(*grid, r, radius as int, dx2, dz2),
                best matches Some(c) ==> {
                    &&& spec_ring_free(*grid, r, radius as int, c.0 - r.0, c.1 - r.1)
                    &&& -radius <= c.1 - r.1 < dz
                    &&& best_distance == spec_cell_dist_sq(c.0 as int, c.1 as int, start)
                    &&& forall|dx2: int, dz2: int| -radius <= dz2 < dz && #[trigger] spec_ring_free(*grid, r, radius as int, dx2, dz2) ==> {
                        &&& spec_cell_dist_sq(r.0 + dx2, r.1 + dz2, start) >= best_distance
                        &&& (spec_scan_index(radius as int, dx2, dz2) < spec_scan_index(radius as int, c.0 - r.0, c.1 - r.1) ==>
                            spec_cell_dist_sq(r.0 + dx2, r.1 + dz2, start) > best_distance)
                    }
                },
            decreases radius + 1 - dz,
        {
            let mut dx: i32 = -radius;
            while dx <= radius
                invariant
                    1 <= radius <= MAX_FALLBACK_RADIUS,
                    -radius <= dz <= radius,
                    -radius <= dx <= radius + 1,
                    grid.wf(),
                    r == (requested_cell.0 as int, requested_cell.1 as int),
                    -2147484 <= r.0 <= 2147484,
                    -2147484 <= r.1 <= 2147484,
                    best is None ==> forall|dx2: int, dz2: int| (-radius <= dz2 < dz || (dz2 == dz && -radius <= dx2 < dx))
                        ==> !#[trigger] spec_ring_free(*grid, r, radius as int, dx2, dz2),
                    best matches Some(c) ==> {
                        &&& spec_ring_free(*grid, r, radius as int, c.0 - r.0, c.1 - r.1)
                        &&& (-radius <= c.1 - r.1 < dz || (c.1 - r.1 == dz && -radius <= c.0 - r.0 < dx))
                        &&& best_distance == spec_cell_dist_sq(c.0 as int, c.1 as int, start)
                        &&& forall|dx2: int, dz2: int| (-radius <= dz2 < dz || (dz2 == dz && -radius <= dx2 < dx))
                            && #[trigger] spec_ring_free(*grid, r, radius as int, dx2, dz2) ==> {
                            &&& spec_cell_dist_sq(r.0 + dx2, r.1 + dz2, start) >= best_distance
                            &&& (spec_scan_index(radius as int, dx2, dz2) < spec_scan_index(radius as int, c.0 - r.0, c.1 - r.1) ==>
                                spec_cell_dist_sq(r.0 + dx2, r.1 + dz2, start) > best_distance)
                        }
                    },
                decreases radius + 1 - dx,
            {
                let adx = if dx >= 0 { dx } else { -dx };
                let adz = if dz >= 0 { dz } else { -dz };
                let cheb = if adx >= adz { adx } else { adz };
                if cheb == radius {
                    let cx = requested_cell.0 + dx;
                    let cz = requested_cell.1 + dz;
                    if grid.in_bounds(cx, cz) && !grid.is_blocked(cx, cz) {
                        let distance = cell_dist_sq(cx, cz, &start);
                        let better = match best {
                            None => true,
                            Some(_) => distance < best_distance,
                        };
                        if better {
                            best = Some((cx, cz));
                            best_distance = distance;
                        } else {
                            proof {
                                let c = best.unwrap();
                                lemma_scan_order(radius as int, c.0 - r.0, c.1 - r.1, dx as int, dz as int);
                            }
                        }
                    }
                }
                dx = dx + 1;
            }
            dz = dz + 1;
        }
        if best.is_some() {
            proof {
                let c = best.unwrap();
                assert(spec_ring_choice(*grid, start, r, radius as int, c.0 - r.0, c.1 - r.1));
                assert(spec_ring_has_free(*grid, r, radius as int));
                assert(!spec_inner_rings_full(*grid, r, MAX_FALLBACK_RADIUS + 1));
            }
            return best;
        }
        proof {
            assert(!spec_ring_has_free(*grid, r, radius as int));
            assert forall|j: int| 1 <= j < radius + 1 implies !#[trigger] spec_ring_has_free(*grid, r, j) by {
                if j < radius {
                } else {
                }
            }
        }
        radius = radius + 1;
    }
    None
}


/// Sign of a number: 1, 0 or -1.
pub open spec fn spec_sign(v: int) -> int {
    if v > 0 { 1 } else if v < 0 { -1 } else { 0 }
}

/// Direction of the move from `a` to `b`, each axis reduced to its sign.
pub open spec fn spec_dir(a: (i32, i32), b: (i32, i32)) -> (int, int) {
    (spec_sign(b.0 - a.0), spec_sign(b.1 - a.1))
}

/// The cell a path comes from before its `i`-th cell.
pub open spec fn spec_prev(start: (i32, i32), p: Seq<(i32, i32)>, i: int) -> (i32, i32) {
    if i == 0 { start } else { p[i - 1] }
}

/// The `i`-th cell of a path is kept by simplification: it is the last one,
/// or the path turns there.
pub open spec fn spec_keeps(start: (i32, i32), p: Seq<(i32, i32)>, i: int) -> bool {
    i + 1 == p.len() || spec_dir(spec_prev(start, p, i), p[i]) != spec_dir(p[i], p[i + 1])
}

/// The kept cells among the first `n` cells of a path, in order.
pub open spec fn spec_simplify_prefix(start: (i32, i32), p: Seq<(i32, i32)>, n: nat) -> Seq<(i32, i32)>
    decreases n,
{
    if n == 0 {
        seq![]
    } else {
        let rest = spec_simplify_prefix(start, p, (n - 1) as nat);
        if spec_keeps(start, p, n - 1) { rest.push(p[n - 1]) } else { rest }
    }
}

/// A path with the cells along straight runs dropped: only the cells where
/// the direction changes, and the last one, remain.
pub open spec fn spec_simplify(start: (i32, i32), p: Seq<(i32, i32)>) -> Seq<(i32, i32)> {
    if p.len() < 2 { p } else { spec_simplify_prefix(start, p, p.len()) }
}

fn sign_between(a: i32, b: i32) -> (r: i8)
    ensures
        r as int == spec_sign(b - a),
{
    if b > a { 1 } else if b < a { -1 } else { 0 }
}

/// Removes intermediate cells along straight path segments, keeping the cells
/// where the path turns and its final cell.
pub fn simplify_collinear_path(start: (i32, i32), path: Vec<(i32, i32)>) -> (r: Vec<(i32, i32)>)
    ensures
        r@ == spec_simplify(start, path@),
{
    if path.len() < 2 {
        return path;
    }
    let n = path.len();
    let mut simplified: Vec<(i32, i32)> = Vec::new();
    let mut previous = start;
    let mut index: usize = 0;
    while index < n
        invariant
            n == path.len(),
            n >= 2,
            index <= n,
            simplified@ == spec_simplify_prefix(start, path@, index as nat),
            previous == spec_prev(start, path@, index as int),
        decreases n - index,
    {
        let current = path[index];
        if index + 1 == n {
            simplified.push(current);
        } else {
            let next = path[index + 1];
            let cd0 = sign_between(previous.0, current.0);
            let cd1 = sign_between(previous.1, current.1);
            let nd0 = sign_between(current.0, next.0);
            let nd1 = sign_between(current.1, next.1);
            if cd0 != nd0 || cd1 != nd1 {
                simplified.push(current);
            }
        }
        previous = current;
        index = index + 1;
    }
    simplified
}

/// Simplifying keeps a path's final cell, and keeps the path empty only if
/// it was empty.
pub proof fn lemma_simplify_keeps_last(start: (i32, i32), p: Seq<(i32, i32)>)
    ensures
        spec_simplify(start, p).len() == 0 <==> p.len() == 0,
        p.len() > 0 ==> spec_simplify(start, p).last() == p.last(),
{
    if p.len() >= 2 {
        assert(spec_keeps(start, p, p.len() - 1));
    }
}

/// An entry of the search frontier: priority, then the cell.
pub type Frontier = Vec<(u64, i32, i32)>;

/// Every entry of `new` is an entry of `old` or is `extra`.
pub open spec fn spec_drawn_from(new: Seq<(u64, i32, i32)>, old: Seq<(u64, i32, i32)>, extra: Option<(u64, i32, i32)>) -> bool {
    forall|i: int| 0 <= i < new.len() ==> (extra == Some(#[trigger] new[i]) || exists|j: int| 0 <= j < old.len() && old[j] == new[i])
}

/// Exchanging two entries of a sequence keeps the same entries.
proof fn lemma_swap_keeps_entries(s: Seq<(u64, i32, i32)>, i: int, j: int)
    requires
        0 <= i < s.len(),
        0 <= j < s.len(),
    ensures
        s.update(i, s[j]).update(j, s[i]).to_multiset() =~= s.to_multiset(),
{
    broadcast use vstd::seq_lib::group_to_multiset_ensures;
    broadcast use vstd::multiset::group_multiset_axioms;
    if i == j {
        assert(s.update(i, s[j]).update(j, s[i]) =~= s);
    } else {
        let a = s[i];
        let b = s[j];
        let s1 = s.update(i, b);
        assert(s1[j] == b);
        assert(s.contains(a));
        assert(s.contains(b));
        let m = s.to_multiset();
        assert(s1.update(j, a).to_multiset() =~= m.insert(b).remove(a).insert(a).remove(b));
        assert(m.insert(b).remove(a).insert(a).remove(b) =~= m);
    }
}

/// Every entry of the heap has a priority no lower than its parent's.
pub open spec fn spec_heap_ok(s: Seq<(u64, i32, i32)>) -> bool {
    forall|j: int| 0 < j < s.len() ==> s[(j - 1) / 2].0 <= (#[trigger] s[j]).0
}

/// The heap's first entry has the least priority.
proof fn lemma_heap_root_least(s: Seq<(u64, i32, i32)>, k: int)
    requires
        spec_heap_ok(s),
        0 <= k < s.len(),
    ensures
        s[0].0 <= s[k].0,
    decreases k,
{
    if k > 0 {
        lemma_heap_root_least(s, (k - 1) / 2);
        assert(s[(k - 1) / 2].0 <= s[k].0);
    }
}

/// Adds an entry to a binary min-heap ordered by priority.
fn heap_push(heap: &mut Frontier, entry: (u64, i32, i32))
    requires
        old(heap).len() < usize::MAX,
        spec_heap_ok(old(heap)@),
    ensures
        spec_heap_ok(final(heap)@),
        final(heap).len() == old(heap).len() + 1,
        spec_drawn_from(final(heap)@, old(heap)@, Some(entry)),
        final(heap)@.to_multiset() =~= old(heap)@.to_multiset().insert(entry),
{
    heap.push(entry);
    let ghost orig = heap@;
    proof {
        broadcast use vstd::seq_lib::group_to_multiset_ensures;
        assert(orig =~= old(heap)@.push(entry));
    }
    assert(spec_drawn_from(heap@, old(heap)@, Some(entry))) by {
        assert forall|i: int| 0 <= i < heap@.len() implies (Some(entry) == Some(#[trigger] heap@[i])
            || exists|j: int| 0 <= j < old(heap)@.len() && old(heap)@[j] == heap@[i]) by {
            if i < old(heap)@.len() {
                assert(old(heap)@[i] == heap@[i]);
            }
        }
    }
    let mut i = heap.len() - 1;
    while i > 0 && heap[i].0 < heap[(i - 1) / 2].0
        invariant
            i < heap.len(),
            heap.len() == old(heap).len() + 1,
            spec_drawn_from(heap@, orig, None),
            spec_drawn_from(orig, old(heap)@, Some(entry)),
            heap@.to_multiset() =~= old(heap)@.to_multiset().insert(entry),
            forall|j: int| 0 < j < heap@.len() && j != i ==> heap@[(j - 1) / 2].0 <= (#[trigger] heap@[j]).0,
            i > 0 ==> forall|j: int| 0 < j < heap@.len() && (j - 1) / 2 == i ==> heap@[(i - 1) / 2].0 <= (#[trigger] heap@[j]).0,
        decreases i,
    {
        let parent = (i - 1) / 2;
        {
            let ghost before = heap@;
            let a = heap[i];
            let b = heap[parent];
            heap.set(i, b);
            heap.set(parent, a);
            proof {
                lemma_swap_keeps_entries(before, i as int, parent as int);
                assert(heap@ =~= before.update(i as int, before[parent as int]).update(parent as int, before[i as int]));
            }
            assert forall|k: int| 0 <= k < heap@.len() implies (None::<(u64, i32, i32)> == Some(#[trigger] heap@[k])
                || exists|j: int| 0 <= j < orig.len() && orig[j] == heap@[k]) by {
                if k == i {
                    assert(heap@[k] == before[parent as int]);
                } else if k == parent {
                    assert(heap@[k] == before[i as int]);
                } else {
                    assert(heap@[k] == before[k]);
                }
            }
            proof {
                let hi = i as int;
                let hp = parent as int;
                assert(heap@[hi] == before[hp] && heap@[hp] == before[hi]);
                assert forall|j: int| 0 < j < heap@.len() && j != hp implies heap@[(j - 1) / 2].0 <= (#[trigger] heap@[j]).0 by {
                    let pj = (j - 1) / 2;
                    if j == hi {
                    } else if pj == hi {
                        assert(before[(hi - 1) / 2].0 <= before[j].0);
                        assert(heap@[j] == before[j]);
                    } else if pj == hp {
                        assert(before[(j - 1) / 2].0 <= before[j].0);
                        assert(heap@[j] == before[j]);
                    } else {
                        assert(heap@[j] == before[j]);
                        assert(heap@[pj] == before[pj]);
                        assert(before[(j - 1) / 2].0 <= before[j].0);
                    }
                }
                if hp > 0 {
                    let gp = (hp - 1) / 2;
                    assert(heap@[gp] == before[gp]);
                    assert(before[(hp - 1) / 2].0 <= before[hp].0);
                    assert forall|j: int| 0 < j < heap@.len() && (j - 1) / 2 == hp implies heap@[(hp - 1) / 2].0 <= (#[trigger] heap@[j]).0 by {
                        if j != hi {
                            assert(heap@[j] == before[j]);
                            assert(before[(j - 1) / 2].0 <= before[j].0);
                        }
                    }
                }
            }
            i = parent;
        }
    }
    proof {
        assert forall|k: int| 0 <= k < heap@.len() implies (Some(entry) == Some(#[trigger] heap@[k])
            || exists|j: int| 0 <= j < old(heap)@.len() && old(heap)@[j] == heap@[k]) by {
            let j = choose|j: int| 0 <= j < orig.len() && orig[j] == heap@[k];
            assert(Some(entry) == Some(orig[j]) || exists|j2: int| 0 <= j2 < old(heap)@.len() && old(heap)@[j2] == orig[j]);
        }
    }
}

/// Removes an entry of least priority from a binary min-heap.
#[verifier::rlimit(40)]
fn heap_pop(heap: &mut Frontier) -> (r: Option<(u64, i32, i32)>)
    requires
        spec_heap_ok(old(heap)@),
    ensures
        spec_heap_ok(final(heap)@),
        r matches Some(e) ==> forall|x: (u64, i32, i32)| old(heap)@.to_multiset().count(x) > 0 ==> e.0 <= x.0,
        r is Some <==> old(heap).len() > 0,
        r matches Some(e) ==> final(heap).len() == old(heap).len() - 1
            && exists|j: int| 0 <= j < old(heap)@.len() && old(heap)@[j] == e,
        r is None ==> final(heap).len() == 0,
        spec_drawn_from(final(heap)@, old(heap)@, None),
        r matches Some(e) ==> old(heap)@.to_multiset() =~= final(heap)@.to_multiset().insert(e),
        r is None ==> final(heap)@.to_multiset() =~= old(heap)@.to_multiset(),
{
    if heap.len() == 0 {
        return None;
    }
    let last = heap.pop().unwrap();
    assert(old(heap)@[old(heap)@.len() - 1] == last);
    proof {
        broadcast use vstd::seq_lib::group_to_multiset_ensures;
        assert(old(heap)@ =~= heap@.push(last));
    }
    assert(spec_drawn_from(heap@, old(heap)@, None)) by {
        assert forall|i: int| 0 <= i < heap@.len() implies (None::<(u64, i32, i32)> == Some(#[trigger] heap@[i])
            || exists|j: int| 0 <= j < old(heap)@.len() && old(heap)@[j] == heap@[i]) by {
            assert(old(heap)@[i] == heap@[i]);
        }
    }
    if heap.len() == 0 {
        proof {
            broadcast use vstd::seq_lib::group_to_multiset_ensures;
            assert forall|x: (u64, i32, i32)| old(heap)@.to_multiset().count(x) > 0 implies last.0 <= x.0 by {
                assert(old(heap)@.contains(x));
            }
        }
        return Some(last);
    }
    let top = heap[0];
    assert(old(heap)@[0] == top);
    proof {
        broadcast use vstd::seq_lib::group_to_multiset_ensures;
        assert forall|x: (u64, i32, i32)| old(heap)@.to_multiset().count(x) > 0 implies top.0 <= x.0 by {
            assert(old(heap)@.contains(x));
            let k = choose|k: int| 0 <= k < old(heap)@.len() && old(heap)@[k] == x;
            lemma_heap_root_least(old(heap)@, k);
        }
    }
    let ghost shorter = heap@;
    heap.set(0, last);
    let ghost orig = heap@;
    proof {
        broadcast use vstd::seq_lib::group_to_multiset_ensures;
        broadcast use vstd::multiset::group_multiset_axioms;
        assert(orig =~= shorter.update(0, last));
        assert(shorter.contains(top));
        assert(old(heap)@.to_multiset() =~= orig.to_multiset().insert(top));
    }
    assert(spec_drawn_from(heap@, old(heap)@, None)) by {
        assert forall|i: int| 0 <= i < heap@.len() implies (None::<(u64, i32, i32)> == Some(#[trigger] heap@[i])
            || exists|j: int| 0 <= j < old(heap)@.len() && old(heap)@[j] == heap@[i]) by {
            if i == 0 {
                assert(old(heap)@[old(heap)@.len() - 1] == heap@[i]);
            } else {
                assert(old(heap)@[i] == heap@[i]);
            }
        }
    }
    let n = heap.len();
    proof {
        assert forall|j: int| 0 < j < heap@.len() && (j - 1) / 2 != 0 implies heap@[(j - 1) / 2].0 <= (#[trigger] heap@[j]).0 by {
            assert(heap@[j] == old(heap)@[j]);
            assert(heap@[(j - 1) / 2] == old(heap)@[(j - 1) / 2]);
            assert(old(heap)@[(j - 1) / 2].0 <= old(heap)@[j].0);
        }
    }
    let mut i: usize = 0;
    while i < n
        invariant
            n == heap.len(),
            n == old(heap).len() - 1,
            spec_drawn_from(heap@, orig, None),
            spec_drawn_from(orig, old(heap)@, None),
            old(heap)@.to_multiset() =~= heap@.to_multiset().insert(top),
            forall|j: int| 0 < j < heap@.len() && (j - 1) / 2 != i ==> heap@[(j - 1) / 2].0 <= (#[trigger] heap@[j]).0,
            i > 0 ==> forall|j: int| 0 < j < heap@.len() && (j - 1) / 2 == i ==> heap@[(i - 1) / 2].0 <= (#[trigger] heap@[j]).0,
            i < n || n == 0,
        ensures
            spec_heap_ok(heap@),
        decreases n - i,
    {
        let left = if i <= (n - 1) / 2 { 2 * i + 1 } else { n };
        if left >= n {
            proof {
                assert forall|j: int| 0 < j < heap@.len() implies heap@[(j - 1) / 2].0 <= (#[trigger] heap@[j]).0 by {
                    if (j - 1) / 2 == i {
                        assert(j >= 2 * i + 1);
                    }
                }
            }
            break;
        }
        let right = left + 1;
        let mut smallest = i;
        if heap[left].0 < heap[smallest].0 {
            smallest = left;
        }
        if right < n && heap[right].0 < heap[smallest].0 {
            smallest = right;
        }
        if smallest == i {
            proof {
                assert forall|j: int| 0 < j < heap@.len() implies heap@[(j - 1) / 2].0 <= (#[trigger] heap@[j]).0 by {
                    if (j - 1) / 2 == i {
                        assert(j == left || j == right);
                    }
                }
            }
            break;
        }
        let ghost before = heap@;
        let a = heap[i];
        let b = heap[smallest];
        heap.set(i, b);
        heap.set(smallest, a);
        proof {
            lemma_swap_keeps_entries(before, i as int, smallest as int);
            assert(heap@ =~= before.update(i as int, before[smallest as int]).update(smallest as int, before[i as int]));
        }
        assert forall|k: int| 0 <= k < heap@.len() implies (None::<(u64, i32, i32)> == Some(#[trigger] heap@[k])
            || exists|j: int| 0 <= j < orig.len() && orig[j] == heap@[k]) by {
            if k == i {
                assert(heap@[k] == before[smallest as int]);
            } else if k == smallest {
                assert(heap@[k] == before[i as int]);
            } else {
                assert(heap@[k] == before[k]);
            }
        }
        proof {
            let hi = i as int;
            let hm = smallest as int;
            assert(heap@[hi] == before[hm] && heap@[hm] == before[hi]);
            assert(before[hm].0 < before[hi].0);
            assert(hm == left || hm == right);
            assert(before[hm].0 <= before[left as int].0);
            assert(right < n ==> before[hm].0 <= before[right as int].0);
            assert forall|j: int| 0 < j < heap@.len() && (j - 1) / 2 != hm implies heap@[(j - 1) / 2].0 <= (#[trigger] heap@[j]).0 by {
                let pj = (j - 1) / 2;
                if j == hm {
                } else if pj == hi {
                    assert(j == left || j == right);
                    assert(heap@[j] == before[j]);
                } else if j == hi {
                    assert(heap@[pj] == before[pj]);
                    assert(before[(hi - 1) / 2].0 <= before[hm].0);
                } else {
                    assert(heap@[j] == before[j]);
                    assert(pj != hm);
                    assert(heap@[pj] == before[pj]);
                    assert(before[(j - 1) / 2].0 <= before[j].0);
                }
            }
            assert forall|j: int| 0 < j < heap@.len() && (j - 1) / 2 == hm implies heap@[(hm - 1) / 2].0 <= (#[trigger] heap@[j]).0 by {
                assert((hm - 1) / 2 == hi);
                assert(heap@[j] == before[j]);
                assert(before[(j - 1) / 2].0 <= before[j].0);
            }
        }
        i = smallest;
    }
    proof {
        assert forall|k: int| 0 <= k < heap@.len() implies (None::<(u64, i32, i32)> == Some(#[trigger] heap@[k])
            || exists|j: int| 0 <= j < old(heap)@.len() && old(heap)@[j] == heap@[k]) by {
            let j = choose|j: int| 0 <= j < orig.len() && orig[j] == heap@[k];
            assert(exists|j2: int| 0 <= j2 < old(heap)@.len() && old(heap)@[j2] == orig[j]);
        }
    }
    Some(top)
}

/// How many frontier cells the search examines before giving up.
pub const MAX_SEARCH_ITERATIONS: u64 = 3000;

/// No single step costs more than this.
pub const STEP_BOUND: u64 = 700_000_000;

/// Moving from cell `a` to cell `b` is one legal step: `b` is one of the
/// eight neighbours of `a`, can be entered, and a diagonal step does not cut
/// the corner of a blocked cell.
pub open spec fn spec_legal_step(g: Grid, a: (i32, i32), b: (i32, i32)) -> bool {
    let dx = b.0 - a.0;
    let dy = b.1 - a.1;
    &&& -1 <= dx <= 1
    &&& -1 <= dy <= 1
    &&& !(dx == 0 && dy == 0)
    &&& !g.spec_is_blocked(b.0 as int, b.1 as int)
    &&& (dx != 0 && dy != 0) ==> !g.spec_is_blocked(a.0 + dx, a.1 as int) && !g.spec_is_blocked(a.0 as int, a.1 + dy)
}

/// `w` is a walk of legal steps that starts next to `from`.
pub open spec fn spec_is_walk(g: Grid, from: (i32, i32), w: Seq<(i32, i32)>) -> bool {
    forall|i: int| 0 <= i < w.len() ==> #[trigger] spec_legal_step(g, spec_prev(from, w, i), w[i])
}

/// What a step costs: `base` (10 straight, 14 diagonal) times the entered
/// cell's cost in hundredths, rounded to the nearest whole number.
pub open spec fn spec_step_cost(diagonal: bool, cost: int) -> int {
    let base = if diagonal { 14int } else { 10int };
    (base * cost + 50) / 100
}

/// The cost of one step into a cell whose cost is `cost` hundredths.
pub fn step_cost(diagonal: bool, cost: u32) -> (r: u64)
    requires
        cost >= 10,
    ensures
        r as int == spec_step_cost(diagonal, cost as int),
        1 <= r <= STEP_BOUND,
{
    let base: u64 = if diagonal { 14 } else { 10 };
    (base * (cost as u64) + 50) / 100
}

/// Manhattan distance between two cells.
pub fn heuristic(a: (i32, i32), b: (i32, i32)) -> (r: u64)
    ensures
        r as int == spec_abs(a.0 - b.0) + spec_abs(a.1 - b.1),
{
    let dx: i64 = a.0 as i64 - b.0 as i64;
    let dy: i64 = a.1 as i64 - b.1 as i64;
    let adx: u64 = if dx >= 0 { dx as u64 } else { (-dx) as u64 };
    let ady: u64 = if dy >= 0 { dy as u64 } else { (-dy) as u64 };
    adx + ady
}

/// The `i`-th neighbour offset in the order the search tries them: the four
/// straight steps, then the four diagonal ones.
pub open spec fn spec_neighbour(i: int) -> (i32, i32) {
    if i == 0 { (0i32, 1i32) } else if i == 1 { (1i32, 0i32) } else if i == 2 { (0i32, -1i32) } else if i == 3 { (-1i32, 0i32) }
    else if i == 4 { (1i32, 1i32) } else if i == 5 { (-1i32, -1i32) } else if i == 6 { (1i32, -1i32) } else { (-1i32, 1i32) }
}

/// The neighbour offsets, in the order the search tries them.
fn neighbour(i: usize) -> (r: (i32, i32))
    requires
        i < 8,
    ensures
        -1 <= r.0 <= 1,
        -1 <= r.1 <= 1,
        !(r.0 == 0 && r.1 == 0),
        r == spec_neighbour(i as int),
{
    match i {
        0 => (0, 1),
        1 => (1, 0),
        2 => (0, -1),
        3 => (-1, 0),
        4 => (1, 1),
        5 => (-1, -1),
        6 => (1, -1),
        _ => (-1, 1),
    }
}

pub open spec fn spec_cost_at(g: Grid, cost: Seq<Option<u64>>, c: (i32, i32)) -> Option<u64> {
    cost[g.index_of(c.0 as int, c.1 as int)]
}

pub open spec fn spec_parent_at(g: Grid, came_from: Seq<Option<(i32, i32)>>, c: (i32, i32)) -> Option<(i32, i32)> {
    came_from[g.index_of(c.0 as int, c.1 as int)]
}

/// Every reached cell but the start was reached from a cheaper reached cell
/// by a legal step.
pub open spec fn spec_tree_ok(g: Grid, start: (i32, i32), cost: Seq<Option<u64>>, came_from: Seq<Option<(i32, i32)>>) -> bool {
    forall|c: (i32, i32)| g.spec_in_bounds(c.0 as int, c.1 as int) && (#[trigger] spec_cost_at(g, cost, c)) is Some && c != start ==> {
        &&& spec_parent_at(g, came_from, c) is Some
        &&& g.spec_in_bounds(spec_parent_at(g, came_from, c).unwrap().0 as int, spec_parent_at(g, came_from, c).unwrap().1 as int)
        &&& spec_cost_at(g, cost, spec_parent_at(g, came_from, c).unwrap()) is Some
        &&& spec_cost_at(g, cost, spec_parent_at(g, came_from, c).unwrap()).unwrap() < spec_cost_at(g, cost, c).unwrap()
        &&& spec_legal_step(g, spec_parent_at(g, came_from, c).unwrap(), c)
    }
}

/// `p` is what the search answers for a route from `start` to `end`: `w` is
/// a walk of legal steps from the cell of `start` to the destination `e`
/// chosen for `end` (empty when they coincide), and `p` is `w` simplified.
pub open spec fn spec_route(g: Grid, start: Pos, end: Pos, e: (i32, i32), w: Seq<(i32, i32)>, p: Seq<(i32, i32)>) -> bool {
    let s = spec_requested_cell(start);
    let sc = (s.0 as i32, s.1 as i32);
    &&& g.spec_in_bounds(s.0, s.1)
    &&& spec_destination(g, start, end, (e.0 as int, e.1 as int))
    &&& spec_is_walk(g, sc, w)
    &&& (w.len() == 0 <==> (e.0 == s.0 && e.1 == s.1))
    &&& w.len() > 0 ==> w.last() == e
    &&& w.len() > 0 ==> spec_search_finds(g, sc, e, w)
    &&& p == spec_simplify(sc, w)
}

/// The search from the cell of `start` to the destination chosen for `end`
/// can fail: some run of it stops without reaching the destination.
pub open spec fn spec_route_search_fails(g: Grid, start: Pos, end: Pos) -> bool {
    let s = spec_requested_cell(start);
    exists|e: (i32, i32)| #[trigger] spec_destination(g, start, end, (e.0 as int, e.1 as int))
        && spec_search_may_fail(g, (s.0 as i32, s.1 as i32), e)
}

/// `p` is the simplification of some walk of legal steps from the cell of
/// `start` to the destination chosen for `end`.
pub open spec fn spec_is_route(g: Grid, start: Pos, end: Pos, p: Seq<(i32, i32)>) -> bool {
    exists|e: (i32, i32), w: Seq<(i32, i32)>| #[trigger] spec_route(g, start, end, e, w, p)
}

/// The search has nothing to look for: a cell is off the map, or no
/// destination near the requested cell can be entered.
pub open spec fn spec_no_route_possible(g: Grid, start: Pos, end: Pos) -> bool {
    let s = spec_requested_cell(start);
    let r = spec_requested_cell(end);
    ||| !g.spec_in_bounds(s.0, s.1)
    ||| !g.spec_in_bounds(r.0, r.1)
    ||| (g.spec_is_blocked(r.0, r.1) && spec_inner_rings_full(g, r, MAX_FALLBACK_RADIUS + 1))
}

/// The unit already stands on the requested cell, and it can be entered.
pub open spec fn spec_already_there(g: Grid, start: Pos, end: Pos) -> bool {
    let s = spec_requested_cell(start);
    let r = spec_requested_cell(end);
    &&& g.spec_in_bounds(s.0, s.1)
    &&& s == r
    &&& !g.spec_is_blocked(r.0, r.1)
}

/// Searches for a route from the cell of `start` to the destination that
/// `nearest_available_destination` picks for `end`, by A* over the grid with
/// straight steps costing 10 and diagonal steps 14 (times the entered
/// cell's cost), giving up after `MAX_SEARCH_ITERATIONS` expansions. The
/// route comes back with its straight runs simplified away. It is the
/// route that the search's predecessor table traces back from the
/// destination (`spec_search_finds`), and `None` comes back only when no
/// route is possible or the search can fail (`spec_route_search_fails`).
pub fn find_path(start: Pos, end: Pos, grid: &Grid) -> (res: Option<Vec<(i32, i32)>>)
    requires
        grid.wf(),
    ensures
        spec_no_route_possible(*grid, start, end) ==> res is None,
        spec_already_there(*grid, start, end) ==> (res matches Some(p) && p@.len() == 0),
        res matches Some(p) ==> spec_is_route(*grid, start, end, p@),
        res is None ==> spec_no_route_possible(*grid, start, end) || spec_route_search_fails(*grid, start, end),
{
    let start_pos = start.cell();
    let requested_end = end.cell();
    if !grid.in_bounds(start_pos.0, start_pos.1) || !grid.in_bounds(requested_end.0, requested_end.1) {
        return None;
    }
    let end_pos = match nearest_available_destination(start, end, grid) {
        Some(c) => c,
        None => return None,
    };
    if start_pos.0 == end_pos.0 && start_pos.1 == end_pos.1 {
        let empty: Vec<(i32, i32)> = Vec::new();
        proof {
            assert(spec_is_walk(*grid, start_pos, empty@));
            let sr = spec_requested_cell(start);
            assert(sr.0 == start_pos.0 && sr.1 == start_pos.1);
            assert((sr.0 as i32, sr.1 as i32) == start_pos);
            assert(spec_destination(*grid, start, end, (end_pos.0 as int, end_pos.1 as int)));
            assert(spec_route(*grid, start, end, end_pos, empty@, empty@));
            assert(spec_is_route(*grid, start, end, empty@));
            let rr = spec_requested_cell(end);
            assert(!(grid.spec_is_blocked(rr.0, rr.1) && spec_inner_rings_full(*grid, rr, MAX_FALLBACK_RADIUS + 1)));
        }
        return Some(empty);
    }
    proof {
        let sr = spec_requested_cell(start);
        let rr = spec_requested_cell(end);
        if grid.spec_in_bounds(sr.0, sr.1) && sr == rr && !grid.spec_is_blocked(rr.0, rr.1) {
            assert(spec_destination(*grid, start, end, (end_pos.0 as int, end_pos.1 as int)));
            assert(end_pos.0 == rr.0 && end_pos.1 == rr.1);
            assert(false);
        }
    }
    let searched = search(grid, start_pos, end_pos);
    if searched.is_none() {
        proof {
            let sr = spec_requested_cell(start);
            assert((sr.0 as i32, sr.1 as i32) == start_pos);
            assert(spec_destination(*grid, start, end, (end_pos.0 as int, end_pos.1 as int)));
            assert(spec_route_search_fails(*grid, start, end));
        }
        return None;
    }
    let path = searched.unwrap();
    proof {
        lemma_simplify_keeps_last(start_pos, path@);
    }
    let ghost walk = path@;
    let simplified = simplify_collinear_path(start_pos, path);
    proof {
        let sr = spec_requested_cell(start);
        assert((sr.0 as i32, sr.1 as i32) == start_pos);
        assert(spec_route(*grid, start, end, end_pos, walk, simplified@));
        assert(spec_is_route(*grid, start, end, simplified@));
    }
    Some(simplified)
}

/// A snapshot of the search: the best known cost and predecessor of each
/// cell (by the grid's cell index), the frontier of (priority, cell)
/// entries, how many entries have been taken from the frontier, and
/// whether the destination has been reached and the search has stopped.
pub struct SearchState {
    pub cost: Seq<Option<u64>>,
    pub came_from: Seq<Option<(i32, i32)>>,
    pub frontier: Multiset<(u64, i32, i32)>,
    pub taken: int,
    pub found: bool,
    pub done: bool,
}

/// The search before its first step: only the start is reached, at cost 0,
/// and it is the only entry of the frontier.
pub open spec fn spec_search_start(g: Grid, start: (i32, i32)) -> SearchState {
    SearchState {
        cost: Seq::new(g.spec_cell_count() as nat, |i: int| if i == g.index_of(start.0 as int, start.1 as int) { Some(0u64) } else { None }),
        came_from: Seq::new(g.spec_cell_count() as nat, |i: int| None),
        frontier: Multiset::empty().insert((0u64, start.0, start.1)),
        taken: 0,
        found: false,
        done: false,
    }
}

/// Tries the `d`-th neighbour of `pos`, reached at cost `cur`: when the step
/// there is legal and beats the neighbour's best known cost, the neighbour
/// gets the new cost, `pos` as predecessor, and a frontier entry whose
/// priority adds ten times its Manhattan distance to `end`.
pub open spec fn spec_relax(g: Grid, end: (i32, i32), s: SearchState, pos: (i32, i32), cur: u64, d: int) -> SearchState {
    let off = spec_neighbour(d);
    let nx = pos.0 + off.0;
    let ny = pos.1 + off.1;
    let diagonal = off.0 != 0 && off.1 != 0;
    let legal = !g.spec_is_blocked(nx, ny)
        && (diagonal ==> !g.spec_is_blocked(nx, pos.1 as int) && !g.spec_is_blocked(pos.0 as int, ny));
    let new_cost = cur + spec_step_cost(diagonal, g.cell_cost(nx, ny) as int);
    let ni = g.index_of(nx, ny);
    let improves = match s.cost[ni] {
        None => true,
        Some(c) => new_cost < c,
    };
    if legal && improves {
        SearchState {
            cost: s.cost.update(ni, Some(new_cost as u64)),
            came_from: s.came_from.update(ni, Some(pos)),
            frontier: s.frontier.insert(((new_cost + 10 * (spec_abs(nx - end.0) + spec_abs(ny - end.1))) as u64, nx as i32, ny as i32)),
            ..s
        }
    } else {
        s
    }
}

/// Tries the neighbours of `pos` from the `d`-th one on.
pub open spec fn spec_expand(g: Grid, end: (i32, i32), s: SearchState, pos: (i32, i32), cur: u64, d: int) -> SearchState
    decreases 8 - d,
{
    if d < 8 {
        spec_expand(g, end, spec_relax(g, end, s, pos, cur, d), pos, cur, d + 1)
    } else {
        s
    }
}

/// The search after taking the entry `e` from its frontier: past the
/// budget it stops; at the destination it stops with success; otherwise
/// it expands the entry's cell at that cell's best known cost.
pub open spec fn spec_take(g: Grid, end: (i32, i32), s: SearchState, e: (u64, i32, i32)) -> SearchState {
    let s1 = SearchState { frontier: s.frontier.remove(e), taken: s.taken + 1, ..s };
    if s1.taken > MAX_SEARCH_ITERATIONS {
        SearchState { done: true, ..s1 }
    } else if e.1 == end.0 && e.2 == end.1 {
        SearchState { found: true, done: true, ..s1 }
    } else {
        let cur = match s.cost[g.index_of(e.1 as int, e.2 as int)] {
            Some(c) => c,
            None => 0u64,
        };
        spec_expand(g, end, s1, (e.1, e.2), cur, 0)
    }
}

/// One step of the search: a running search with an empty frontier stops;
/// otherwise it takes an entry of least priority from its frontier (which
/// one, among entries of equal priority, is left open).
pub open spec fn spec_search_step(g: Grid, end: (i32, i32), s: SearchState, t: SearchState) -> bool {
    &&& !s.done
    &&& {
        ||| (s.frontier.len() == 0 && t == SearchState { done: true, ..s })
        ||| exists|e: (u64, i32, i32)| s.frontier.count(e) > 0
            && (forall|x: (u64, i32, i32)| #[trigger] s.frontier.count(x) > 0 ==> e.0 <= x.0)
            && t == #[trigger] spec_take(g, end, s, e)
    }
}

/// `run` is a run of the search from `start` towards `end`: it begins
/// where the search begins and each state follows from the one before by a
/// step, taking frontier entries in some order.
pub open spec fn spec_search_run(g: Grid, start: (i32, i32), end: (i32, i32), run: Seq<SearchState>) -> bool {
    &&& run.len() >= 1
    &&& run[0] == spec_search_start(g, start)
    &&& forall|i: int| 0 <= i < run.len() - 1 ==> spec_search_step(g, end, #[trigger] run[i], run[i + 1])
}

/// `w` is the route the search's predecessor table traces back from its
/// last cell: each cell's recorded predecessor is the cell before it (the
/// start for the first), and the start itself does not occur in it.
pub open spec fn spec_traced_back(g: Grid, came_from: Seq<Option<(i32, i32)>>, start: (i32, i32), w: Seq<(i32, i32)>) -> bool {
    &&& spec_linked(g, came_from, start, w)
    &&& forall|i: int| 0 <= i < w.len() ==> #[trigger] w[i] != start
}

/// Each cell of `w` has the cell before it (`from` for the first) as its
/// recorded predecessor.
pub open spec fn spec_linked(g: Grid, came_from: Seq<Option<(i32, i32)>>, from: (i32, i32), w: Seq<(i32, i32)>) -> bool {
    forall|i: int| 0 <= i < w.len() ==> #[trigger] spec_parent_at(g, came_from, w[i]) == Some(spec_prev(from, w, i))
}

/// Some run of the search from `start` reaches `end`, and `w` is the route
/// its predecessor table traces back from `end`.
pub open spec fn spec_search_finds(g: Grid, start: (i32, i32), end: (i32, i32), w: Seq<(i32, i32)>) -> bool {
    exists|run: Seq<SearchState>| #[trigger] spec_search_run(g, start, end, run) && run.last().found
        && spec_traced_back(g, run.last().came_from, start, w)
}

/// Some run of the search from `start` towards `end` stops without
/// reaching `end`: its frontier runs dry or its budget runs out.
pub open spec fn spec_search_may_fail(g: Grid, start: (i32, i32), end: (i32, i32)) -> bool {
    exists|run: Seq<SearchState>| #[trigger] spec_search_run(g, start, end, run) && run.last().done && !run.last().found
}

/// The search's snapshot made of its tables, its frontier and its flags.
pub open spec fn spec_state_of(cost: Seq<Option<u64>>, came_from: Seq<Option<(i32, i32)>>, heap: Seq<(u64, i32, i32)>, taken: int, found: bool, done: bool) -> SearchState {
    SearchState { cost, came_from, frontier: heap.to_multiset(), taken, found, done }
}

/// A* from `start_pos` to `end_pos`: a walk of legal steps ending at
/// `end_pos`, or `None` when the frontier runs dry or the iteration cap is
/// hit. The search is a run of the steps of `spec_search_step` (its heap
/// takes one of the frontier's entries each time), so it fails only where
/// such a run can fail.
#[verifier::rlimit(60)]
fn search(grid: &Grid, start_pos: (i32, i32), end_pos: (i32, i32)) -> (res: Option<Vec<(i32, i32)>>)
    requires
        grid.wf(),
        grid.spec_in_bounds(start_pos.0 as int, start_pos.1 as int),
        grid.spec_in_bounds(end_pos.0 as int, end_pos.1 as int),
        start_pos != end_pos,
    ensures
        res matches Some(w) ==> spec_is_walk(*grid, start_pos, w@) && w@.len() > 0 && w@.last() == end_pos,
        res is None ==> spec_search_may_fail(*grid, start_pos, end_pos),
        res matches Some(w) ==> spec_search_finds(*grid, start_pos, end_pos, w@),
{
    let ghost g = *grid;
    proof { grid.lemma_dims(); }
    let n = grid.cell_count();
    let mut cost: Vec<Option<u64>> = Vec::new();
    let mut came_from: Vec<Option<(i32, i32)>> = Vec::new();
    let mut k: usize = 0;
    while k < n
        invariant
            k <= n,
            n == g.spec_cell_count(),
            cost.len() == k,
            came_from.len() == k,
            forall|j: int| 0 <= j < k ==> cost@[j] is None,
            forall|j: int| 0 <= j < k ==> came_from@[j] is None,
        decreases n - k,
    {
        cost.push(None);
        came_from.push(None);
        k = k + 1;
    }
    let si = grid.cell_index(start_pos.0, start_pos.1);
    cost.set(si, Some(0));
    let mut heap: Frontier = Vec::new();
    assert(spec_heap_ok(heap@));
    heap_push(&mut heap, (0, start_pos.0, start_pos.1));
    let ghost mut run: Seq<SearchState> = Seq::empty();
    proof {
        broadcast use vstd::seq_lib::group_to_multiset_ensures;
        broadcast use vstd::multiset::group_multiset_properties;
        let st = spec_search_start(g, start_pos);
        assert(cost@ =~= st.cost) by {
            assert forall|j: int| 0 <= j < cost@.len() implies cost@[j] == st.cost[j] by {
                if j != si as int {
                    assert(cost@[j] is None);
                }
            }
        }
        assert(came_from@ =~= st.came_from);
        assert(Seq::<(u64, i32, i32)>::empty().to_multiset() =~= Multiset::empty()) by {
            assert(Seq::<(u64, i32, i32)>::empty().to_multiset().len() == 0);
        }
        assert(heap@.to_multiset() =~= st.frontier);
        assert(spec_state_of(cost@, came_from@, heap@, 0, false, false) == st);
        run = seq![st];
    }
    proof {
        assert forall|c: (i32, i32)| g.spec_in_bounds(c.0 as int, c.1 as int) && (#[trigger] spec_cost_at(g, cost@, c)) is Some
            implies c == start_pos by {
            g.lemma_index_distinct(c.0 as int, c.1 as int, start_pos.0 as int, start_pos.1 as int);
        }
        assert(heap@[0] == (0u64, start_pos.0, start_pos.1));
    }
    let mut found = false;
    let mut done = false;
    let mut iterations: u64 = 0;
    while !done
        invariant
            g == *grid,
            grid.wf(),
            grid.spec_in_bounds(start_pos.0 as int, start_pos.1 as int),
            grid.spec_in_bounds(end_pos.0 as int, end_pos.1 as int),
            cost.len() == g.spec_cell_count(),
            came_from.len() == g.spec_cell_count(),
            iterations <= MAX_SEARCH_ITERATIONS + 1,
            spec_cost_at(g, cost@, start_pos) == Some(0u64),
            spec_tree_ok(g, start_pos, cost@, came_from@),
            forall|c: (i32, i32)| g.spec_in_bounds(c.0 as int, c.1 as int) && (#[trigger] spec_cost_at(g, cost@, c)) is Some
                ==> spec_cost_at(g, cost@, c).unwrap() <= iterations * STEP_BOUND,
            forall|i: int| 0 <= i < heap.len() ==> g.spec_in_bounds((#[trigger] heap@[i]).1 as int, heap@[i].2 as int)
                && spec_cost_at(g, cost@, (heap@[i].1, heap@[i].2)) is Some,
            found ==> spec_cost_at(g, cost@, end_pos) is Some,
            found ==> done,
            !done ==> iterations <= MAX_SEARCH_ITERATIONS,
            0 <= g.spec_width() <= i32::MAX,
            0 <= g.spec_height() <= i32::MAX,
            heap.len() <= 8 * iterations + 1,
            spec_heap_ok(heap@),
            spec_search_run(g, start_pos, end_pos, run),
            run.last() == spec_state_of(cost@, came_from@, heap@, iterations as int, found, done),
        decreases (if done { 0int } else { 1int }) + MAX_SEARCH_ITERATIONS + 1 - iterations,
    {
        let ghost heap_before = heap@;
        let ghost prev = spec_state_of(cost@, came_from@, heap@, iterations as int, found, done);
        let popped = heap_pop(&mut heap);
        proof {
            assert forall|i: int| 0 <= i < heap.len() implies g.spec_in_bounds((#[trigger] heap@[i]).1 as int, heap@[i].2 as int)
                && spec_cost_at(g, cost@, (heap@[i].1, heap@[i].2)) is Some by {
                let j = choose|j: int| 0 <= j < heap_before.len() && heap_before[j] == heap@[i];
                assert(g.spec_in_bounds(heap_before[j].1 as int, heap_before[j].2 as int));
            }
        }
        match popped {
            None => {
                done = true;
                proof {
                    broadcast use vstd::seq_lib::group_to_multiset_ensures;
                    assert(prev.frontier.len() == 0);
                    assert(spec_state_of(cost@, came_from@, heap@, iterations as int, found, done) == SearchState { done: true, ..prev });
                }
            },
            Some(entry) => {
                proof {
                    let j = choose|j: int| 0 <= j < heap_before.len() && heap_before[j] == entry;
                    assert(g.spec_in_bounds(heap_before[j].1 as int, heap_before[j].2 as int));
                    assert(spec_cost_at(g, cost@, (entry.1, entry.2)) is Some);
                }
                iterations = iterations + 1;
                let position = (entry.1, entry.2);
                let ghost target = spec_take(g, end_pos, prev, entry);
                proof {
                    broadcast use vstd::multiset::group_multiset_properties;
                    assert(prev.frontier.count(entry) > 0);
                    assert(forall|x: (u64, i32, i32)| #[trigger] prev.frontier.count(x) > 0 ==> entry.0 <= x.0);
                    assert(heap@.to_multiset() =~= prev.frontier.remove(entry));
                    assert(!prev.done && !prev.found);
                }
                if iterations > MAX_SEARCH_ITERATIONS {
                    done = true;
                    assert(spec_state_of(cost@, came_from@, heap@, iterations as int, found, done) == target);
                } else if position.0 == end_pos.0 && position.1 == end_pos.1 {
                    found = true;
                    done = true;
                    assert(spec_state_of(cost@, came_from@, heap@, iterations as int, found, done) == target);
                } else {
                    let pi = grid.cell_index(position.0, position.1);
                    let current_cost = match cost[pi] {
                        Some(c) => c,
                        None => 0,
                    };
                    assert(cost@[pi as int] == Some(current_cost));
                    assert(spec_expand(g, end_pos, spec_state_of(cost@, came_from@, heap@, iterations as int, false, false), position, current_cost, 0) == target);
                    let mut d: usize = 0;
                    while d < 8
                        invariant
                            d <= 8,
                            g == *grid,
                            grid.wf(),
                            grid.spec_in_bounds(start_pos.0 as int, start_pos.1 as int),
                            grid.spec_in_bounds(end_pos.0 as int, end_pos.1 as int),
                            grid.spec_in_bounds(position.0 as int, position.1 as int),
                            pi as int == g.index_of(position.0 as int, position.1 as int),
                            cost.len() == g.spec_cell_count(),
                            came_from.len() == g.spec_cell_count(),
                            1 <= iterations <= MAX_SEARCH_ITERATIONS,
                            0 <= g.spec_width() <= i32::MAX,
                            0 <= g.spec_height() <= i32::MAX,
                            spec_cost_at(g, cost@, position) == Some(current_cost),
                            current_cost <= (iterations - 1) * STEP_BOUND,
                            spec_cost_at(g, cost@, start_pos) == Some(0u64),
                            spec_tree_ok(g, start_pos, cost@, came_from@),
                            forall|c: (i32, i32)| g.spec_in_bounds(c.0 as int, c.1 as int) && (#[trigger] spec_cost_at(g, cost@, c)) is Some
                                ==> spec_cost_at(g, cost@, c).unwrap() <= iterations * STEP_BOUND,
                            forall|i: int| 0 <= i < heap.len() ==> g.spec_in_bounds((#[trigger] heap@[i]).1 as int, heap@[i].2 as int)
                                && spec_cost_at(g, cost@, (heap@[i].1, heap@[i].2)) is Some,
                            heap.len() <= 8 * (iterations - 1) + d,
                            spec_heap_ok(heap@),
                            !found,
                            !done,
                            spec_expand(g, end_pos, spec_state_of(cost@, came_from@, heap@, iterations as int, false, false), position, current_cost, d as int) == target,
                        decreases 8 - d,
                    {
                        let ghost st0 = spec_state_of(cost@, came_from@, heap@, iterations as int, false, false);
                        let off = neighbour(d);
                        let next = (position.0 + off.0, position.1 + off.1);
                        let diagonal = off.0 != 0 && off.1 != 0;
                        let mut legal = !grid.is_blocked(next.0, next.1);
                        if legal && diagonal {
                            if grid.is_blocked(position.0 + off.0, position.1) || grid.is_blocked(position.0, position.1 + off.1) {
                                legal = false;
                            }
                        }
                        if legal {
                            let entered = match grid.movement_cost(next.0, next.1) {
                                Some(c) => c,
                                None => 10,
                            };
                            let step = step_cost(diagonal, entered);
                            let new_cost = current_cost + step;
                            let ni = grid.cell_index(next.0, next.1);
                            let improves = match cost[ni] {
                                None => true,
                                Some(old_cost) => new_cost < old_cost,
                            };
                            if improves {
                                proof {
                                    assert(spec_legal_step(g, position, next));
                                    assert(next != start_pos) by {
                                        if next == start_pos {
                                            assert(spec_cost_at(g, cost@, next) == Some(0u64));
                                        }
                                    }
                                }
                                let ghost cost_before = cost@;
                                let ghost cf_before = came_from@;
                                cost.set(ni, Some(new_cost));
                                came_from.set(ni, Some(position));
                                proof {
                                    assert forall|c: (i32, i32)| g.spec_in_bounds(c.0 as int, c.1 as int) implies
                                        #[trigger] spec_cost_at(g, cost@, c) == (if c == next { Some(new_cost) } else { spec_cost_at(g, cost_before, c) })
                                        && spec_parent_at(g, came_from@, c) == (if c == next { Some(position) } else { spec_parent_at(g, cf_before, c) }) by {
                                        g.lemma_index_distinct(c.0 as int, c.1 as int, next.0 as int, next.1 as int);
                                    }
                                    assert forall|c: (i32, i32)| g.spec_in_bounds(c.0 as int, c.1 as int) && (#[trigger] spec_cost_at(g, cost@, c)) is Some && c != start_pos implies {
                                        &&& spec_parent_at(g, came_from@, c) is Some
                                        &&& g.spec_in_bounds(spec_parent_at(g, came_from@, c).unwrap().0 as int, spec_parent_at(g, came_from@, c).unwrap().1 as int)
                                        &&& spec_cost_at(g, cost@, spec_parent_at(g, came_from@, c).unwrap()) is Some
                                        &&& spec_cost_at(g, cost@, spec_parent_at(g, came_from@, c).unwrap()).unwrap() < spec_cost_at(g, cost@, c).unwrap()
                                        &&& spec_legal_step(g, spec_parent_at(g, came_from@, c).unwrap(), c)
                                    } by {
                                        if c == next {
                                            assert(spec_cost_at(g, cost@, position) == Some(current_cost)) by {
                                                g.lemma_index_distinct(position.0 as int, position.1 as int, next.0 as int, next.1 as int);
                                            }
                                        } else {
                                            assert(spec_cost_at(g, cost@, c) == spec_cost_at(g, cost_before, c));
                                            let pp = spec_parent_at(g, cf_before, c).unwrap();
                                            assert(spec_cost_at(g, cost_before, pp) is Some);
                                            assert(spec_cost_at(g, cost@, pp) == (if pp == next { Some(new_cost) } else { spec_cost_at(g, cost_before, pp) }));
                                        }
                                    }
                                    assert forall|i: int| 0 <= i < heap.len() implies g.spec_in_bounds((#[trigger] heap@[i]).1 as int, heap@[i].2 as int)
                                        && spec_cost_at(g, cost@, (heap@[i].1, heap@[i].2)) is Some by {
                                        let hc = (heap@[i].1, heap@[i].2);
                                        assert(spec_cost_at(g, cost@, hc) == (if hc == next { Some(new_cost) } else { spec_cost_at(g, cost_before, hc) }));
                                    }
                                    assert(spec_cost_at(g, cost@, position) == Some(current_cost)) by {
                                        g.lemma_index_distinct(position.0 as int, position.1 as int, next.0 as int, next.1 as int);
                                    }
                                    assert(spec_cost_at(g, cost@, start_pos) == Some(0u64)) by {
                                        g.lemma_index_distinct(start_pos.0 as int, start_pos.1 as int, next.0 as int, next.1 as int);
                                    }
                                }
                                let priority = new_cost + heuristic(next, end_pos) * 10;
                                let ghost heap_mid = heap@;
                                heap_push(&mut heap, (priority, next.0, next.1));
                                proof {
                                    assert(st0.cost == cost_before);
                                    assert(entered == g.cell_cost(next.0 as int, next.1 as int));
                                    assert(cost@ =~= cost_before.update(ni as int, Some(new_cost)));
                                    assert(came_from@ =~= cf_before.update(ni as int, Some(position)));
                                    assert(spec_state_of(cost@, came_from@, heap@, iterations as int, false, false)
                                        == spec_relax(g, end_pos, st0, position, current_cost, d as int));
                                    assert forall|i: int| 0 <= i < heap.len() implies g.spec_in_bounds((#[trigger] heap@[i]).1 as int, heap@[i].2 as int)
                                        && spec_cost_at(g, cost@, (heap@[i].1, heap@[i].2)) is Some by {
                                        if heap@[i] != (priority, next.0, next.1) {
                                            let j = choose|j: int| 0 <= j < heap_mid.len() && heap_mid[j] == heap@[i];
                                            assert(g.spec_in_bounds(heap_mid[j].1 as int, heap_mid[j].2 as int));
                                        }
                                    }
                                }
                            }
                        }
                        assert(spec_state_of(cost@, came_from@, heap@, iterations as int, false, false)
                            == spec_relax(g, end_pos, st0, position, current_cost, d as int));
                        d = d + 1;
                    }
                    assert(spec_state_of(cost@, came_from@, heap@, iterations as int, found, done) == target);
                }
                assert(spec_state_of(cost@, came_from@, heap@, iterations as int, found, done) == spec_take(g, end_pos, prev, entry));
            },
        }
        proof {
            let next_state = spec_state_of(cost@, came_from@, heap@, iterations as int, found, done);
            assert(spec_search_step(g, end_pos, prev, next_state));
            let longer = run.push(next_state);
            assert forall|i: int| 0 <= i < longer.len() - 1 implies spec_search_step(g, end_pos, #[trigger] longer[i], longer[i + 1]) by {
                if i < run.len() - 1 {
                    assert(longer[i] == run[i] && longer[i + 1] == run[i + 1]);
                } else {
                    assert(longer[i] == prev && longer[i + 1] == next_state);
                }
            }
            run = longer;
        }
    }
    if !found {
        proof {
            let last = spec_state_of(cost@, came_from@, heap@, iterations as int, found, done);
            assert(spec_search_run(g, start_pos, end_pos, run) && run.last().done && !run.last().found);
        }
        return None;
    }
    let ghost final_cf = came_from@;
    let ghost final_run = run;
    assert(spec_search_run(g, start_pos, end_pos, final_run) && final_run.last().found && final_run.last().came_from == final_cf);
    let mut path: Vec<(i32, i32)> = Vec::new();
    let mut current = end_pos;
    while !(current.0 == start_pos.0 && current.1 == start_pos.1)
        invariant
            g == *grid,
            grid.wf(),
            cost.len() == g.spec_cell_count(),
            came_from.len() == g.spec_cell_count(),
            grid.spec_in_bounds(current.0 as int, current.1 as int),
            spec_cost_at(g, cost@, current) is Some,
            spec_tree_ok(g, start_pos, cost@, came_from@),
            spec_is_walk(g, current, path@),
            path.len() == 0 ==> current == end_pos,
            path.len() > 0 ==> path@.last() == end_pos,
            path.len() + spec_cost_at(g, cost@, current).unwrap() <= (MAX_SEARCH_ITERATIONS + 1) * STEP_BOUND,
            came_from@ == final_cf,
            spec_linked(g, final_cf, current, path@),
            forall|i: int| 0 <= i < path@.len() ==> (#[trigger] path@[i]) != start_pos,
        decreases spec_cost_at(g, cost@, current).unwrap(),
    {
        let ci = grid.cell_index(current.0, current.1);
        let parent = match came_from[ci] {
            Some(p) => p,
            None => current,
        };
        assert(came_from@[ci as int] == Some(parent));
        let ghost old_path = path@;
        path.insert(0, current);
        proof {
            assert(spec_legal_step(g, parent, current));
            assert forall|i: int| 0 <= i < path@.len() implies #[trigger] spec_legal_step(g, spec_prev(parent, path@, i), path@[i]) by {
                if i > 0 {
                    assert(path@[i] == old_path[i - 1]);
                    assert(spec_prev(parent, path@, i) == spec_prev(current, old_path, i - 1));
                    assert(spec_legal_step(g, spec_prev(current, old_path, i - 1), old_path[i - 1]));
                }
            }
            if old_path.len() > 0 {
                assert(path@.last() == old_path.last());
            }
            assert forall|i: int| 0 <= i < path@.len() implies #[trigger] spec_parent_at(g, final_cf, path@[i]) == Some(spec_prev(parent, path@, i)) by {
                if i > 0 {
                    assert(path@[i] == old_path[i - 1]);
                    assert(spec_prev(parent, path@, i) == spec_prev(current, old_path, i - 1));
                    assert(spec_parent_at(g, final_cf, old_path[i - 1]) == Some(spec_prev(current, old_path, i - 1)));
                }
            }
            assert forall|i: int| 0 <= i < path@.len() implies (#[trigger] path@[i]) != start_pos by {
                if i > 0 {
                    assert(path@[i] == old_path[i - 1]);
                }
            }
        }
        current = parent;
    }
    proof {
        assert(current == start_pos);
        assert(spec_traced_back(g, final_run.last().came_from, start_pos, path@));
    }
    Some(path)
}


/// Whether one of the given positions rounds to cell `(cx, cy)`.
pub open spec fn spec_occupied(positions: Seq<Pos>, cx: int, cy: int) -> bool {
    exists|i: int| 0 <= i < positions.len() && spec_round_milli((#[trigger] positions[i]).x as int) == cx
        && spec_round_milli(positions[i].z as int) == cy
}

/// Recomputes which cells idle units occupy: every playable cell is blocked
/// exactly when it is statically blocked or an idle unit stands in it.
pub fn update_dynamic_grid_blocking(grid: &mut Grid, idle_units: &Vec<Pos>)
    requires
        old(grid).wf(),
    ensures
        final(grid).wf(),
        final(grid).spec_width() == old(grid).spec_width(),
        final(grid).spec_height() == old(grid).spec_height(),
        final(grid).spec_screen_width() == old(grid).spec_screen_width(),
        final(grid).spec_screen_height() == old(grid).spec_screen_height(),
        forall|cx: int, cy: int| old(grid).spec_in_bounds(cx, cy) ==> #[trigger] final(grid).cell_blocked(cx, cy)
            == (old(grid).cell_static_blocked(cx, cy) || spec_occupied(idle_units@, cx, cy)),
        forall|cx: int, cy: int| old(grid).spec_in_bounds(cx, cy) ==> #[trigger] final(grid).cell_static_blocked(cx, cy)
            == old(grid).cell_static_blocked(cx, cy),
        forall|cx: int, cy: int| old(grid).spec_in_bounds(cx, cy) ==> #[trigger] final(grid).cell_cost(cx, cy)
            == old(grid).cell_cost(cx, cy),
{
    let ghost g0 = *grid;
    grid.reset_dynamic_blocked();
    let mut i: usize = 0;
    while i < idle_units.len()
        invariant
            i <= idle_units@.len(),
            grid.wf(),
            grid.spec_width() == g0.spec_width(),
            grid.spec_height() == g0.spec_height(),
            grid.spec_screen_width() == g0.spec_screen_width(),
            grid.spec_screen_height() == g0.spec_screen_height(),
            forall|cx: int, cy: int| g0.spec_in_bounds(cx, cy) ==> #[trigger] grid.cell_blocked(cx, cy)
                == (g0.cell_static_blocked(cx, cy) || spec_occupied(idle_units@.take(i as int), cx, cy)),
            forall|cx: int, cy: int| g0.spec_in_bounds(cx, cy) ==> #[trigger] grid.cell_static_blocked(cx, cy)
                == g0.cell_static_blocked(cx, cy),
            forall|cx: int, cy: int| g0.spec_in_bounds(cx, cy) ==> #[trigger] grid.cell_cost(cx, cy)
                == g0.cell_cost(cx, cy),
        decreases idle_units@.len() - i,
    {
        let p = idle_units[i];
        let (gx, gz) = p.cell();
        grid.set_dynamic_blocked(gx, gz, true);
        proof {
            let before = idle_units@.take(i as int);
            let after = idle_units@.take(i + 1);
            assert forall|cx: int, cy: int| g0.spec_in_bounds(cx, cy) implies
                #[trigger] spec_occupied(after, cx, cy) == (spec_occupied(before, cx, cy) || (cx == gx && cy == gz)) by {
                if spec_occupied(before, cx, cy) {
                    let k = choose|k: int| 0 <= k < before.len() && spec_round_milli((#[trigger] before[k]).x as int) == cx
                        && spec_round_milli(before[k].z as int) == cy;
                    assert(after[k] == before[k]);
                }
                if cx == gx && cy == gz {
                    assert(after[i as int] == p);
                }
                if spec_occupied(after, cx, cy) {
                    let k = choose|k: int| 0 <= k < after.len() && spec_round_milli((#[trigger] after[k]).x as int) == cx
                        && spec_round_milli(after[k].z as int) == cy;
                    if k < i {
                        assert(before[k] == after[k]);
                    }
                }
            }
        }
        i = i + 1;
    }
    proof {
        assert(idle_units@.take(i as int) =~= idle_units@);
    }
}


/// Where a unit is sent is a cell it can enter, at most
/// `MAX_FALLBACK_RADIUS` rings (in Chebyshev distance) from the requested
/// cell; every cell on a ring nearer the requested cell is blocked, and no
/// enterable cell of the same ring is closer to the unit.
pub proof fn law_destination_is_the_nearest_free_cell(g: Grid, start: Pos, requested: Pos, c: (int, int))
    requires
        spec_destination(g, start, requested, c),
    ensures
        ({
            let r = spec_requested_cell(requested);
            let k = spec_cheb(c.0 - r.0, c.1 - r.1);
            &&& !g.spec_is_blocked(c.0, c.1)
            &&& k <= MAX_FALLBACK_RADIUS
            &&& forall|x: int, z: int| spec_cheb(x - r.0, z - r.1) < k ==> #[trigger] g.spec_is_blocked(x, z)
            &&& forall|x: int, z: int| spec_cheb(x - r.0, z - r.1) == k && !#[trigger] g.spec_is_blocked(x, z)
                ==> spec_cell_dist_sq(c.0, c.1, start) <= spec_cell_dist_sq(x, z, start)
        }),
{
    let r = spec_requested_cell(requested);
    if !g.spec_is_blocked(r.0, r.1) {
        assert(c == r);
        assert forall|x: int, z: int| spec_cheb(x - r.0, z - r.1) == 0 && !#[trigger] g.spec_is_blocked(x, z)
            implies spec_cell_dist_sq(c.0, c.1, start) <= spec_cell_dist_sq(x, z, start) by {
            assert(x == r.0 && z == r.1);
        }
    } else {
        let k = choose|k: int| 1 <= k <= MAX_FALLBACK_RADIUS
            && spec_inner_rings_full(g, r, k)
            && #[trigger] spec_ring_choice(g, start, r, k, c.0 - r.0, c.1 - r.1);
        assert(spec_ring_free(g, r, k, c.0 - r.0, c.1 - r.1));
        assert forall|x: int, z: int| spec_cheb(x - r.0, z - r.1) < k implies #[trigger] g.spec_is_blocked(x, z) by {
            let j = spec_cheb(x - r.0, z - r.1);
            if j == 0 {
                assert(x == r.0 && z == r.1);
            } else {
                assert(!spec_ring_has_free(g, r, j));
                assert(!spec_ring_free(g, r, j, x - r.0, z - r.1));
                assert(r.0 + (x - r.0) == x && r.1 + (z - r.1) == z);
            }
        }
        assert forall|x: int, z: int| spec_cheb(x - r.0, z - r.1) == k && !#[trigger] g.spec_is_blocked(x, z)
            implies spec_cell_dist_sq(c.0, c.1, start) <= spec_cell_dist_sq(x, z, start) by {
            assert(r.0 + (x - r.0) == x && r.1 + (z - r.1) == z);
            assert(spec_ring_free(g, r, k, x - r.0, z - r.1));
        }
    }
}

} // verus!
