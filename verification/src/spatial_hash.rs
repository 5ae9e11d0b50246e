use vstd::prelude::*;
use crate::geometry::Pos;

verus! {

/// Width of a bucket of the spatial hash, in thousandths of a grid cell:
/// larger than the separation that units keep, so a query of the
/// neighbouring buckets sees every possible collision.
pub const CELL_SIZE: i32 = 2000;

/// The bucket coordinate of a position along one axis: the position
/// divided by the bucket width, rounded down.
pub open spec fn spec_bucket(v: int, size: int) -> int {
    v / size
}

/// One bucket: its coordinates and the entities filed in it, in the order
/// in which they were inserted.
#[derive(Debug)]
pub struct HashCell {
    pub cx: i32,
    pub cz: i32,
    pub entities: Vec<u64>,
}

/// The entities filed under bucket `(cx, cz)`: those of every bucket with
/// these coordinates, in order.
pub open spec fn spec_cell_entities(cells: Seq<HashCell>, cx: int, cz: int) -> Seq<u64>
    decreases cells.len(),
{
    if cells.len() == 0 {
        Seq::empty()
    } else {
        let rest = spec_cell_entities(cells.drop_last(), cx, cz);
        let last = cells.last();
        if last.cx == cx && last.cz == cz {
            rest + last.entities@
        } else {
            rest
        }
    }
}

/// Buckets units by position so that a neighbourhood query looks at a few
/// buckets instead of at every unit.
#[derive(Debug)]
pub struct SpatialHash {
    pub cells: Vec<HashCell>,
    pub cell_size: i32,
}

/// The entities of the buckets in column `cx` from row `lo` to row `hi`,
/// row after row.
pub open spec fn spec_column(h: SpatialHash, cx: int, lo: int, hi: int) -> Seq<u64>
    decreases hi - lo + 1,
{
    if hi < lo {
        Seq::empty()
    } else {
        spec_column(h, cx, lo, hi - 1) + h.contents(cx, hi)
    }
}

/// The entities of the buckets of the block of columns `x_lo..=x_hi` and
/// rows `z_lo..=z_hi`, column after column.
pub open spec fn spec_block(h: SpatialHash, x_lo: int, x_hi: int, z_lo: int, z_hi: int) -> Seq<u64>
    decreases x_hi - x_lo + 1,
{
    if x_hi < x_lo {
        Seq::empty()
    } else {
        spec_block(h, x_lo, x_hi - 1, z_lo, z_hi) + spec_column(h, x_hi, z_lo, z_hi)
    }
}

/// What a query around `(x, z)` with the given radius returns: the entities
/// of every bucket that the square around the circle touches.
pub open spec fn spec_query(h: SpatialHash, x: int, z: int, radius: int) -> Seq<u64> {
    let s = h.cell_size as int;
    spec_block(h, spec_bucket(x - radius, s), spec_bucket(x + radius, s), spec_bucket(z - radius, s), spec_bucket(z + radius, s))
}

/// The entities of `units` that fall in bucket `(cx, cz)`, in order.
pub open spec fn spec_units_in_bucket(units: Seq<(u64, Pos)>, size: int, cx: int, cz: int) -> Seq<u64>
    decreases units.len(),
{
    if units.len() == 0 {
        Seq::empty()
    } else {
        let rest = spec_units_in_bucket(units.drop_last(), size, cx, cz);
        let u = units.last();
        if spec_bucket(u.1.x as int, size) == cx && spec_bucket(u.1.z as int, size) == cz {
            rest.push(u.0)
        } else {
            rest
        }
    }
}

proof fn lemma_floor_div_negative(x: int, s: int)
    requires
        x < 0,
        s > 0,
    ensures
        -((-x + s - 1) / s) == x / s,
{
    let q = x / s;
    let r = x % s;
    assert(x == q * s + r && 0 <= r < s) by (nonlinear_arith)
        requires
            s > 0,
            q == x / s,
            r == x % s,
    ;
    assert(-x + s - 1 == (-q) * s + (s - 1 - r)) by (nonlinear_arith)
        requires
            x == q * s + r,
    ;
    assert((-x + s - 1) / s == -q) by (nonlinear_arith)
        requires
            -x + s - 1 == (-q) * s + (s - 1 - r),
            0 <= s - 1 - r < s,
            s > 0,
    ;
}

proof fn lemma_bucket_monotone(a: int, b: int, s: int)
    requires
        a <= b,
        s > 0,
    ensures
        a / s <= b / s,
{
    assert(a / s <= b / s) by (nonlinear_arith)
        requires
            a <= b,
            s > 0,
    ;
}

/// Rounds `v / s` down.
fn floor_div(v: i64, s: i64) -> (r: i64)
    requires
        0 < s <= 0x7fff_ffff,
        -0x1_0000_0000_0000 <= v <= 0x1_0000_0000_0000,
    ensures
        r as int == spec_bucket(v as int, s as int),
        -0x1_0000_0000_0000 <= r <= 0x1_0000_0000_0000,
{
    if v >= 0 {
        proof {
            lemma_bucket_monotone(0, v as int, s as int);
            assert(v / s <= v) by (nonlinear_arith)
                requires
                    v >= 0,
                    s > 0,
            ;
        }
        v / s
    } else {
        let w: i64 = -v + s - 1;
        proof {
            lemma_floor_div_negative(v as int, s as int);
            let vi = v as int;
            let si = s as int;
            assert(vi / si >= vi) by (nonlinear_arith)
                requires
                    vi < 0,
                    si >= 1,
            ;
        }
        -(w / s)
    }
}

impl SpatialHash {
    /// The entities filed under bucket `(cx, cz)`, in insertion order.
    pub open spec fn contents(&self, cx: int, cz: int) -> Seq<u64> {
        spec_cell_entities(self.cells@, cx, cz)
    }

    /// An empty hash with buckets of the standard width.
    pub fn new() -> (h: SpatialHash)
        ensures
            h.cell_size == CELL_SIZE,
            forall|cx: int, cz: int| #[trigger] h.contents(cx, cz) == Seq::<u64>::empty(),
    {
        SpatialHash { cells: Vec::new(), cell_size: CELL_SIZE }
    }

    /// The bucket of a position.
    pub fn cell_coords(&self, x: i32, z: i32) -> (r: (i32, i32))
        requires
            self.cell_size > 0,
        ensures
            r.0 as int == spec_bucket(x as int, self.cell_size as int),
            r.1 as int == spec_bucket(z as int, self.cell_size as int),
    {
        let s = self.cell_size as i64;
        let cx = floor_div(x as i64, s);
        let cz = floor_div(z as i64, s);
        proof {
            lemma_bucket_monotone(i32::MIN as int, x as int, s as int);
            lemma_bucket_monotone(x as int, i32::MAX as int, s as int);
            lemma_bucket_monotone(i32::MIN as int, z as int, s as int);
            lemma_bucket_monotone(z as int, i32::MAX as int, s as int);
            let si = s as int;
            assert(-2147483648 <= (-2147483648int) / si && 2147483647int / si <= 2147483647) by (nonlinear_arith)
                requires
                    si >= 1,
            ;
        }
        (cx as i32, cz as i32)
    }
}


proof fn lemma_push_new_cell(cells: Seq<HashCell>, c: HashCell, ox: int, oz: int)
    ensures
        spec_cell_entities(cells.push(c), ox, oz) == if c.cx == ox && c.cz == oz {
            spec_cell_entities(cells, ox, oz) + c.entities@
        } else {
            spec_cell_entities(cells, ox, oz)
        },
{
    assert(cells.push(c).drop_last() =~= cells);
}

proof fn lemma_grow_last_match(cells: Seq<HashCell>, grown: Seq<HashCell>, i: int, e: u64, ox: int, oz: int)
    requires
        0 <= i < cells.len(),
        grown.len() == cells.len(),
        forall|j: int| 0 <= j < cells.len() && j != i ==> grown[j] == cells[j],
        grown[i].cx == cells[i].cx,
        grown[i].cz == cells[i].cz,
        grown[i].entities@ == cells[i].entities@.push(e),
        forall|j: int| i < j < cells.len() ==> !(#[trigger] cells[j].cx == cells[i].cx && cells[j].cz == cells[i].cz),
    ensures
        spec_cell_entities(grown, ox, oz) == if cells[i].cx == ox && cells[i].cz == oz {
            spec_cell_entities(cells, ox, oz).push(e)
        } else {
            spec_cell_entities(cells, ox, oz)
        },
    decreases cells.len(),
{
    let n = cells.len();
    if i == n - 1 {
        assert(grown.drop_last() =~= cells.drop_last());
        let rest = spec_cell_entities(cells.drop_last(), ox, oz);
        assert(rest + cells[i].entities@.push(e) =~= (rest + cells[i].entities@).push(e));
    } else {
        assert(cells[n - 1].cx != cells[i].cx || cells[n - 1].cz != cells[i].cz);
        lemma_grow_last_match(cells.drop_last(), grown.drop_last(), i, e, ox, oz);
        assert(grown.last() == cells.last());
    }
}

proof fn lemma_all_emptied(cells: Seq<HashCell>, ox: int, oz: int)
    requires
        forall|j: int| 0 <= j < cells.len() ==> (#[trigger] cells[j]).entities@.len() == 0,
    ensures
        spec_cell_entities(cells, ox, oz) == Seq::<u64>::empty(),
    decreases cells.len(),
{
    if cells.len() > 0 {
        lemma_all_emptied(cells.drop_last(), ox, oz);
        let last = cells.last();
        assert(last.entities@.len() == 0);
        assert(Seq::<u64>::empty() + last.entities@ =~= Seq::<u64>::empty());
    }
}

fn last_cell_index(cells: &Vec<HashCell>, cx: i32, cz: i32) -> (r: Option<usize>)
    ensures
        match r {
            Some(i) => i < cells@.len() && cells@[i as int].cx == cx && cells@[i as int].cz == cz
                && forall|j: int| i < j < cells@.len() ==> !(#[trigger] cells@[j].cx == cx && cells@[j].cz == cz),
            None => forall|j: int| 0 <= j < cells@.len() ==> !(#[trigger] cells@[j].cx == cx && cells@[j].cz == cz),
        },
{
    let mut k: usize = cells.len();
    while k > 0
        invariant
            k <= cells@.len(),
            forall|j: int| k <= j < cells@.len() ==> !(#[trigger] cells@[j].cx == cx && cells@[j].cz == cz),
        decreases k,
    {
        let j: usize = k - 1;
        if cells[j].cx == cx && cells[j].cz == cz {
            return Some(j);
        }
        k = j;
    }
    None
}

impl SpatialHash {
    /// Files an entity under the bucket of its position.
    pub fn insert(&mut self, entity: u64, x: i32, z: i32)
        requires
            old(self).cell_size > 0,
        ensures
            final(self).cell_size == old(self).cell_size,
            forall|cx: int, cz: int| #[trigger] final(self).contents(cx, cz) == if cx == spec_bucket(x as int, old(self).cell_size as int)
                && cz == spec_bucket(z as int, old(self).cell_size as int) {
                old(self).contents(cx, cz).push(entity)
            } else {
                old(self).contents(cx, cz)
            },
    {
        let (cx, cz) = self.cell_coords(x, z);
        let ghost before = self.cells@;
        match last_cell_index(&self.cells, cx, cz) {
            Some(i) => {
                let mut cell = self.cells.remove(i);
                cell.entities.push(entity);
                self.cells.insert(i, cell);
                proof {
                    let grown = self.cells@;
                    assert(grown.len() == before.len());
                    assert forall|j: int| 0 <= j < before.len() && j != i implies grown[j] == before[j] by {
                        if j < i {
                            assert(grown[j] == before.remove(i as int)[j]);
                        } else {
                            assert(grown[j] == before.remove(i as int)[j - 1]);
                        }
                    }
                    assert forall|ox: int, oz: int| #[trigger] self.contents(ox, oz) == if ox == cx && oz == cz {
                        spec_cell_entities(before, ox, oz).push(entity)
                    } else {
                        spec_cell_entities(before, ox, oz)
                    } by {
                        lemma_grow_last_match(before, grown, i as int, entity, ox, oz);
                    }
                }
            },
            None => {
                let mut entities: Vec<u64> = Vec::new();
                entities.push(entity);
                let cell = HashCell { cx, cz, entities };
                self.cells.push(cell);
                proof {
                    assert forall|ox: int, oz: int| #[trigger] self.contents(ox, oz) == if ox == cx && oz == cz {
                        spec_cell_entities(before, ox, oz).push(entity)
                    } else {
                        spec_cell_entities(before, ox, oz)
                    } by {
                        lemma_push_new_cell(before, cell, ox, oz);
                        assert(spec_cell_entities(before, ox, oz) + seq![entity] =~= spec_cell_entities(before, ox, oz).push(entity));
                    }
                }
            },
        }
    }

    /// Empties every bucket, keeping the buckets themselves for the next
    /// rebuild.
    pub fn clear(&mut self)
        ensures
            final(self).cell_size == old(self).cell_size,
            final(self).cells@.len() == old(self).cells@.len(),
            forall|cx: int, cz: int| #[trigger] final(self).contents(cx, cz) == Seq::<u64>::empty(),
    {
        let mut cells: Vec<HashCell> = Vec::new();
        let mut j: usize = 0;
        while j < self.cells.len()
            invariant
                j <= self.cells@.len(),
                cells@.len() == j,
                forall|k: int| 0 <= k < j ==> (#[trigger] cells@[k]).entities@.len() == 0,
            decreases self.cells@.len() - j,
        {
            cells.push(HashCell { cx: self.cells[j].cx, cz: self.cells[j].cz, entities: Vec::new() });
            j = j + 1;
        }
        self.cells = cells;
        proof {
            assert forall|cx: int, cz: int| #[trigger] self.contents(cx, cz) == Seq::<u64>::empty() by {
                lemma_all_emptied(self.cells@, cx, cz);
            }
        }
    }

    /// Appends the entities of bucket `(cx, cz)` to `out`.
    fn append_bucket(&self, cx: i64, cz: i64, out: &mut Vec<u64>)
        ensures
            final(out)@ == old(out)@ + self.contents(cx as int, cz as int),
    {
        let ghost base = out@;
        let mut j: usize = 0;
        while j < self.cells.len()
            invariant
                j <= self.cells@.len(),
                out@ == base + spec_cell_entities(self.cells@.take(j as int), cx as int, cz as int),
            decreases self.cells@.len() - j,
        {
            let ghost prefix = self.cells@.take(j as int);
            assert(self.cells@.take(j + 1).drop_last() =~= prefix);
            let cell = &self.cells[j];
            if cell.cx as i64 == cx && cell.cz as i64 == cz {
                let ghost mid = out@;
                let mut k: usize = 0;
                while k < cell.entities.len()
                    invariant
                        k <= cell.entities@.len(),
                        out@ == mid + cell.entities@.take(k as int),
                    decreases cell.entities@.len() - k,
                {
                    assert(cell.entities@.take(k + 1) =~= cell.entities@.take(k as int).push(cell.entities@[k as int]));
                    out.push(cell.entities[k]);
                    k = k + 1;
                }
                assert(cell.entities@.take(k as int) =~= cell.entities@);
                assert(mid + cell.entities@ =~= base + (spec_cell_entities(prefix, cx as int, cz as int) + cell.entities@));
            }
            j = j + 1;
        }
        assert(self.cells@.take(j as int) =~= self.cells@);
    }

    /// Every entity filed in a bucket that the square around the circle of
    /// the given radius touches, column after column and row after row;
    /// the caller still checks the exact distance.
    pub fn query_radius(&self, x: i32, z: i32, radius: i32) -> (r: Vec<u64>)
        requires
            self.cell_size > 0,
        ensures
            r@ == spec_query(*self, x as int, z as int, radius as int),
    {
        let s = self.cell_size as i64;
        let x_lo = floor_div(x as i64 - radius as i64, s);
        let x_hi = floor_div(x as i64 + radius as i64, s);
        let z_lo = floor_div(z as i64 - radius as i64, s);
        let z_hi = floor_div(z as i64 + radius as i64, s);
        let mut out: Vec<u64> = Vec::new();
        let mut cx = x_lo;
        while cx <= x_hi
            invariant
                x_lo <= cx,
                cx == x_lo || cx <= x_hi + 1,
                -0x1_0000_0000_0000 <= x_lo <= 0x1_0000_0000_0000,
                -0x1_0000_0000_0000 <= x_hi <= 0x1_0000_0000_0000,
                -0x1_0000_0000_0000 <= z_lo <= 0x1_0000_0000_0000,
                -0x1_0000_0000_0000 <= z_hi <= 0x1_0000_0000_0000,
                out@ == spec_block(*self, x_lo as int, cx - 1, z_lo as int, z_hi as int),
            decreases x_hi - cx + 1,
        {
            let ghost done = out@;
            let mut cz = z_lo;
            while cz <= z_hi
                invariant
                    z_lo <= cz,
                    cz == z_lo || cz <= z_hi + 1,
                    -0x1_0000_0000_0000 <= z_hi <= 0x1_0000_0000_0000,
                    out@ == done + spec_column(*self, cx as int, z_lo as int, cz - 1),
                decreases z_hi - cz + 1,
            {
                self.append_bucket(cx, cz, &mut out);
                cz = cz + 1;
            }
            assert(spec_column(*self, cx as int, z_lo as int, cz - 1) == spec_column(*self, cx as int, z_lo as int, z_hi as int));
            assert(spec_block(*self, x_lo as int, cx as int, z_lo as int, z_hi as int)
                == spec_block(*self, x_lo as int, cx - 1, z_lo as int, z_hi as int) + spec_column(*self, cx as int, z_lo as int, z_hi as int));
            cx = cx + 1;
        }
        assert(spec_block(*self, x_lo as int, cx - 1, z_lo as int, z_hi as int) == spec_block(*self, x_lo as int, x_hi as int, z_lo as int, z_hi as int));
        out
    }
}

/// Rebuilds the hash from the positions of the units: afterwards each
/// bucket holds exactly the units that stand in it, in the given order.
pub fn rebuild_spatial_hash(hash: &mut SpatialHash, units: &Vec<(u64, Pos)>)
    requires
        old(hash).cell_size > 0,
    ensures
        final(hash).cell_size == old(hash).cell_size,
        forall|cx: int, cz: int| #[trigger] final(hash).contents(cx, cz)
            == spec_units_in_bucket(units@, old(hash).cell_size as int, cx, cz),
{
    hash.clear();
    let mut i: usize = 0;
    while i < units.len()
        invariant
            i <= units@.len(),
            hash.cell_size == old(hash).cell_size,
            hash.cell_size > 0,
            forall|cx: int, cz: int| #[trigger] hash.contents(cx, cz)
                == spec_units_in_bucket(units@.take(i as int), hash.cell_size as int, cx, cz),
        decreases units@.len() - i,
    {
        let (entity, pos) = units[i];
        hash.insert(entity, pos.x, pos.z);
        proof {
            assert(units@.take(i + 1).drop_last() =~= units@.take(i as int));
            assert forall|cx: int, cz: int| #[trigger] hash.contents(cx, cz)
                == spec_units_in_bucket(units@.take(i + 1), hash.cell_size as int, cx, cz) by {
                assert(units@.take(i + 1).last() == units@[i as int]);
            }
        }
        i = i + 1;
    }
    proof {
        assert(units@.take(i as int) =~= units@);
    }
}


proof fn lemma_column_contains(h: SpatialHash, cx: int, lo: int, hi: int, cz: int, e: u64)
    requires
        lo <= cz <= hi,
        h.contents(cx, cz).contains(e),
    ensures
        spec_column(h, cx, lo, hi).contains(e),
    decreases hi - lo,
{
    let a = spec_column(h, cx, lo, hi - 1);
    let b = h.contents(cx, hi);
    if cz == hi {
        let k = choose|k: int| 0 <= k < b.len() && b[k] == e;
        assert((a + b)[a.len() + k] == e);
    } else {
        lemma_column_contains(h, cx, lo, hi - 1, cz, e);
        let k = choose|k: int| 0 <= k < a.len() && a[k] == e;
        assert((a + b)[k] == e);
    }
}

proof fn lemma_block_contains(h: SpatialHash, x_lo: int, x_hi: int, z_lo: int, z_hi: int, cx: int, cz: int, e: u64)
    requires
        x_lo <= cx <= x_hi,
        z_lo <= cz <= z_hi,
        h.contents(cx, cz).contains(e),
    ensures
        spec_block(h, x_lo, x_hi, z_lo, z_hi).contains(e),
    decreases x_hi - x_lo,
{
    let a = spec_block(h, x_lo, x_hi - 1, z_lo, z_hi);
    let b = spec_column(h, x_hi, z_lo, z_hi);
    if cx == x_hi {
        lemma_column_contains(h, cx, z_lo, z_hi, cz, e);
        let k = choose|k: int| 0 <= k < b.len() && b[k] == e;
        assert((a + b)[a.len() + k] == e);
    } else {
        lemma_block_contains(h, x_lo, x_hi - 1, z_lo, z_hi, cx, cz, e);
        let k = choose|k: int| 0 <= k < a.len() && a[k] == e;
        assert((a + b)[k] == e);
    }
}

proof fn lemma_unit_in_its_bucket(units: Seq<(u64, Pos)>, size: int, i: int)
    requires
        0 <= i < units.len(),
    ensures
        spec_units_in_bucket(units, size, spec_bucket(units[i].1.x as int, size), spec_bucket(units[i].1.z as int, size)).contains(units[i].0),
    decreases units.len(),
{
    let cx = spec_bucket(units[i].1.x as int, size);
    let cz = spec_bucket(units[i].1.z as int, size);
    let rest = spec_units_in_bucket(units.drop_last(), size, cx, cz);
    if i == units.len() - 1 {
        assert(rest.push(units[i].0)[rest.len() as int] == units[i].0);
    } else {
        lemma_unit_in_its_bucket(units.drop_last(), size, i);
        assert(units.drop_last()[i] == units[i]);
        let k = choose|k: int| 0 <= k < rest.len() && rest[k] == units[i].0;
        assert(rest.push(units.last().0)[k] == units[i].0);
    }
}

/// A query never misses an entity filed under a position within its
/// radius: whatever lies in the circle lies in one of the buckets that the
/// query collects.
pub proof fn law_query_covers_radius(h: SpatialHash, e: u64, px: i32, pz: i32, x: i32, z: i32, radius: i32)
    requires
        h.cell_size > 0,
        radius >= 0,
        h.contents(spec_bucket(px as int, h.cell_size as int), spec_bucket(pz as int, h.cell_size as int)).contains(e),
        (px - x) * (px - x) + (pz - z) * (pz - z) <= radius * radius,
    ensures
        spec_query(h, x as int, z as int, radius as int).contains(e),
{
    let s = h.cell_size as int;
    let dx = px - x;
    let dz = pz - z;
    let r = radius as int;
    assert(-r <= dx <= r && -r <= dz <= r) by (nonlinear_arith)
        requires
            dx * dx + dz * dz <= r * r,
            r >= 0,
    ;
    lemma_bucket_monotone(x - r, px as int, s);
    lemma_bucket_monotone(px as int, x + r, s);
    lemma_bucket_monotone(z - r, pz as int, s);
    lemma_bucket_monotone(pz as int, z + r, s);
    lemma_block_contains(h, spec_bucket(x - r, s), spec_bucket(x + r, s), spec_bucket(z - r, s), spec_bucket(z + r, s),
        spec_bucket(px as int, s), spec_bucket(pz as int, s), e);
}

/// After a rebuild from the units' positions, a query around a point
/// returns every unit that stands within the radius of it.
pub proof fn law_rebuilt_query_finds_units_in_radius(h: SpatialHash, units: Seq<(u64, Pos)>, i: int, x: i32, z: i32, radius: i32)
    requires
        h.cell_size > 0,
        radius >= 0,
        forall|cx: int, cz: int| #[trigger] h.contents(cx, cz) == spec_units_in_bucket(units, h.cell_size as int, cx, cz),
        0 <= i < units.len(),
        (units[i].1.x - x) * (units[i].1.x - x) + (units[i].1.z - z) * (units[i].1.z - z) <= radius * radius,
    ensures
        spec_query(h, x as int, z as int, radius as int).contains(units[i].0),
{
    let s = h.cell_size as int;
    lemma_unit_in_its_bucket(units, s, i);
    assert(h.contents(spec_bucket(units[i].1.x as int, s), spec_bucket(units[i].1.z as int, s))
        == spec_units_in_bucket(units, s, spec_bucket(units[i].1.x as int, s), spec_bucket(units[i].1.z as int, s)));
    law_query_covers_radius(h, units[i].0, units[i].1.x, units[i].1.z, x, z, radius);
}

} // verus!
