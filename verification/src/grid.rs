use vstd::prelude::*;

verus! {

/// Cost of entering a cell of ordinary terrain, in hundredths.
pub const DEFAULT_MOVEMENT_COST: u32 = 100;

/// Smallest cost a cell can be given, in hundredths.
pub const MIN_MOVEMENT_COST: u32 = 10;

/// Whether cell `(x, y)` of a `width` x `height` grid lies on the playable
/// diamond of a map whose screen extents are `screen_width` x `screen_height`.
pub open spec fn spec_in_bounds(width: int, height: int, screen_width: int, screen_height: int, x: int, y: int) -> bool {
    let dx = x - width / 2;
    let dy = y - height / 2;
    &&& 0 <= x < width
    &&& 0 <= y < height
    &&& (if dx - dy >= 0 { dx - dy } else { dy - dx }) <= screen_width
    &&& (if dx + dy >= 0 { dx + dy } else { -(dx + dy) }) <= screen_height
}

/// The pathfinding grid: which cells are blocked by buildings and impassable
/// terrain (static), which are additionally blocked by idle units (dynamic),
/// and what it costs to enter each cell.
pub struct Grid {
    width: i32,
    height: i32,
    screen_width: i32,
    screen_height: i32,
    movement_costs: Vec<u32>,
    static_blocked: Vec<bool>,
    blocked: Vec<bool>,
}

impl Grid {
    /// The invariant that every grid keeps: one entry per cell in each layer,
    /// and no cost below the minimum.
    pub closed spec fn wf(self) -> bool {
        &&& self.width >= 0
        &&& self.height >= 0
        &&& self.width * self.height <= usize::MAX
        &&& self.movement_costs.len() == self.width * self.height
        &&& self.static_blocked.len() == self.width * self.height
        &&& self.blocked.len() == self.width * self.height
        &&& forall|i: int| 0 <= i < self.movement_costs.len() ==> #[trigger] self.movement_costs[i] >= MIN_MOVEMENT_COST
    }

    pub closed spec fn spec_width(self) -> int {
        self.width as int
    }

    pub closed spec fn spec_height(self) -> int {
        self.height as int
    }

    pub closed spec fn spec_screen_width(self) -> int {
        self.screen_width as int
    }

    pub closed spec fn spec_screen_height(self) -> int {
        self.screen_height as int
    }

    /// Whether the cell lies on the playable area of the grid.
    pub open spec fn spec_in_bounds(self, x: int, y: int) -> bool {
        spec_in_bounds(self.spec_width(), self.spec_height(), self.spec_screen_width(), self.spec_screen_height(), x, y)
    }

    /// Number of cells in the grid's rectangle.
    pub closed spec fn spec_cell_count(self) -> int {
        self.width * self.height
    }

    /// Position of a cell in the grid's per-cell tables.
    pub closed spec fn index_of(self, x: int, y: int) -> int {
        y * self.width + x
    }

    /// Whether a playable cell is blocked by a building, terrain or an idle unit.
    pub closed spec fn cell_blocked(self, x: int, y: int) -> bool {
        self.blocked@[self.index_of(x, y)]
    }

    /// Whether a playable cell is blocked by a building or terrain.
    pub closed spec fn cell_static_blocked(self, x: int, y: int) -> bool {
        self.static_blocked@[self.index_of(x, y)]
    }

    /// The cost of entering a playable cell, in hundredths.
    pub closed spec fn cell_cost(self, x: int, y: int) -> u32 {
        self.movement_costs@[self.index_of(x, y)]
    }

    /// What `is_blocked` answers: cells off the playable area count as blocked.
    pub open spec fn spec_is_blocked(self, x: int, y: int) -> bool {
        !self.spec_in_bounds(x, y) || self.cell_blocked(x, y)
    }

    /// What `is_statically_blocked` answers.
    pub open spec fn spec_is_statically_blocked(self, x: int, y: int) -> bool {
        !self.spec_in_bounds(x, y) || self.cell_static_blocked(x, y)
    }

    proof fn lemma_index(self, x: int, y: int)
        requires
            self.wf(),
            0 <= x < self.width,
            0 <= y < self.height,
        ensures
            0 <= self.index_of(x, y) < self.width * self.height,
            forall|x2: int, y2: int| 0 <= x2 < self.width && 0 <= y2 < self.height && (x2 != x || y2 != y)
                ==> #[trigger] self.index_of(x2, y2) != self.index_of(x, y),
    {
        assert(0 <= y * self.width) by (nonlinear_arith) requires 0 <= y, 0 <= self.width;
        assert(y * self.width + x < self.width * self.height) by (nonlinear_arith)
            requires 0 <= x < self.width, 0 <= y < self.height;
        assert forall|x2: int, y2: int| 0 <= x2 < self.width && 0 <= y2 < self.height && (x2 != x || y2 != y)
            implies #[trigger] self.index_of(x2, y2) != self.index_of(x, y) by {
            if y2 == y {
            } else if y2 < y {
                assert(y2 * self.width + self.width <= y * self.width) by (nonlinear_arith)
                    requires y2 < y, 0 <= self.width;
            } else {
                assert(y * self.width + self.width <= y2 * self.width) by (nonlinear_arith)
                    requires y < y2, 0 <= self.width;
            }
        }
    }

    /// Distinct playable cells have distinct places in the per-cell tables.
    pub proof fn lemma_index_distinct(self, x1: int, y1: int, x2: int, y2: int)
        requires
            self.wf(),
            self.spec_in_bounds(x1, y1),
            self.spec_in_bounds(x2, y2),
        ensures
            0 <= self.index_of(x1, y1) < self.spec_cell_count(),
            self.spec_cell_count() <= usize::MAX,
            (x1 != x2 || y1 != y2) ==> self.index_of(x1, y1) != self.index_of(x2, y2),
    {
        self.lemma_index(x2, y2);
        self.lemma_index(x1, y1);
    }

    /// The grid's dimensions are those of a rectangle of `i32` cells.
    pub proof fn lemma_dims(self)
        requires
            self.wf(),
        ensures
            0 <= self.spec_width() <= i32::MAX,
            0 <= self.spec_height() <= i32::MAX,
            self.spec_cell_count() == self.spec_width() * self.spec_height(),
            self.spec_cell_count() <= usize::MAX,
    {
    }

    /// A grid of `width` x `height` cells, all passable at the default cost.
    pub fn new(width: i32, height: i32, screen_width: i32, screen_height: i32) -> (g: Grid)
        requires
            width >= 0,
            height >= 0,
            width * height <= usize::MAX,
        ensures
            g.wf(),
            g.spec_width() == width,
            g.spec_height() == height,
            g.spec_screen_width() == screen_width,
            g.spec_screen_height() == screen_height,
            forall|x: int, y: int| g.spec_in_bounds(x, y) ==> !#[trigger] g.cell_blocked(x, y),
            forall|x: int, y: int| g.spec_in_bounds(x, y) ==> !#[trigger] g.cell_static_blocked(x, y),
            forall|x: int, y: int| g.spec_in_bounds(x, y) ==> #[trigger] g.cell_cost(x, y) == DEFAULT_MOVEMENT_COST,
    {
        let n: usize = (width as usize) * (height as usize);
        let mut movement_costs: Vec<u32> = Vec::new();
        let mut static_blocked: Vec<bool> = Vec::new();
        let mut blocked: Vec<bool> = Vec::new();
        let mut i: usize = 0;
        while i < n
            invariant
                i <= n,
                movement_costs.len() == i,
                static_blocked.len() == i,
                blocked.len() == i,
                forall|j: int| 0 <= j < i ==> movement_costs[j] == DEFAULT_MOVEMENT_COST,
                forall|j: int| 0 <= j < i ==> !static_blocked[j],
                forall|j: int| 0 <= j < i ==> !blocked[j],
            decreases n - i,
        {
            movement_costs.push(DEFAULT_MOVEMENT_COST);
            static_blocked.push(false);
            blocked.push(false);
            i = i + 1;
        }
        let g = Grid { width, height, screen_width, screen_height, movement_costs, static_blocked, blocked };
        proof {
            assert forall|x: int, y: int| g.spec_in_bounds(x, y) implies #[trigger] g.cell_cost(x, y) == DEFAULT_MOVEMENT_COST
                && !g.cell_blocked(x, y) && !g.cell_static_blocked(x, y) by {
                g.lemma_index(x, y);
            }
            assert forall|x: int, y: int| g.spec_in_bounds(x, y) implies !#[trigger] g.cell_blocked(x, y) by {
                g.lemma_index(x, y);
            }
            assert forall|x: int, y: int| g.spec_in_bounds(x, y) implies !#[trigger] g.cell_static_blocked(x, y) by {
                g.lemma_index(x, y);
            }
        }
        g
    }

    pub fn width(&self) -> (r: i32)
        ensures
            r == self.spec_width(),
    {
        self.width
    }

    pub fn height(&self) -> (r: i32)
        ensures
            r == self.spec_height(),
    {
        self.height
    }

    pub fn screen_width(&self) -> (r: i32)
        ensures
            r == self.spec_screen_width(),
    {
        self.screen_width
    }

    pub fn screen_height(&self) -> (r: i32)
        ensures
            r == self.spec_screen_height(),
    {
        self.screen_height
    }

    /// Whether the cell lies on the playable diamond of the grid.
    pub fn in_bounds(&self, x: i32, y: i32) -> (r: bool)
        requires
            self.wf(),
        ensures
            r == self.spec_in_bounds(x as int, y as int),
    {
                if x < 0 || x >= self.width || y < 0 || y >= self.height {
            return false;
        }
        let cx = self.width / 2;
        let cy = self.height / 2;
        let dx = x - cx;
        let dy = y - cy;
        let d1 = if dx - dy >= 0 { dx - dy } else { dy - dx };
        let d2 = if dx + dy >= 0 { dx + dy } else { -(dx + dy) };
        d1 <= self.screen_width && d2 <= self.screen_height
    }

    /// Number of cells in the grid's rectangle.
    pub fn cell_count(&self) -> (r: usize)
        requires
            self.wf(),
        ensures
            r == self.spec_cell_count(),
    {
        self.blocked.len()
    }

    /// Position of a playable cell in per-cell tables of `cell_count` entries.
    pub fn cell_index(&self, x: i32, y: i32) -> (r: usize)
        requires
            self.wf(),
            self.spec_in_bounds(x as int, y as int),
        ensures
            r as int == self.index_of(x as int, y as int),
            r < self.spec_cell_count(),
    {
        self.index(x, y)
    }

    fn index(&self, x: i32, y: i32) -> (r: usize)
        requires
            self.wf(),
            self.spec_in_bounds(x as int, y as int),
        ensures
            r as int == self.index_of(x as int, y as int),
            r < self.blocked.len(),
            r < self.static_blocked.len(),
            r < self.movement_costs.len(),
    {
        proof {
            self.lemma_index(x as int, y as int);
        }
        (y as usize) * (self.width as usize) + (x as usize)
    }

    /// Marks a playable cell as blocked (or clears it) for good, both statically
    /// and dynamically. Cells off the playable area are left alone.
    pub fn set_blocked(&mut self, x: i32, y: i32, is_blocked: bool)
        requires
            old(self).wf(),
        ensures
            final(self).wf(),
            final(self).spec_width() == old(self).spec_width(),
            final(self).spec_height() == old(self).spec_height(),
            final(self).spec_screen_width() == old(self).spec_screen_width(),
            final(self).spec_screen_height() == old(self).spec_screen_height(),
            forall|cx: int, cy: int| old(self).spec_in_bounds(cx, cy) ==> #[trigger] final(self).cell_blocked(cx, cy) == if cx == x && cy == y {
                is_blocked
            } else {
                old(self).cell_blocked(cx, cy)
            },
            forall|cx: int, cy: int| old(self).spec_in_bounds(cx, cy) ==> #[trigger] final(self).cell_static_blocked(cx, cy) == if cx == x && cy == y {
                is_blocked
            } else {
                old(self).cell_static_blocked(cx, cy)
            },
            forall|cx: int, cy: int| old(self).spec_in_bounds(cx, cy) ==> #[trigger] final(self).cell_cost(cx, cy) == old(self).cell_cost(cx, cy),
    {
        if self.in_bounds(x, y) {
            let idx = self.index(x, y);
            proof { self.lemma_index(x as int, y as int); }
            self.static_blocked.set(idx, is_blocked);
            self.blocked.set(idx, is_blocked);
            proof {
                assert forall|cx: int, cy: int| old(self).spec_in_bounds(cx, cy) implies
                    (#[trigger] self.cell_blocked(cx, cy) == if cx == x && cy == y { is_blocked } else { old(self).cell_blocked(cx, cy) })
                    && self.cell_static_blocked(cx, cy) == (if cx == x && cy == y { is_blocked } else { old(self).cell_static_blocked(cx, cy) })
                    && self.cell_cost(cx, cy) == old(self).cell_cost(cx, cy) by {
                    old(self).lemma_index_distinct(cx, cy, x as int, y as int);
                }
                assert forall|cx: int, cy: int| old(self).spec_in_bounds(cx, cy) implies
                    #[trigger] self.cell_static_blocked(cx, cy) == (if cx == x && cy == y { is_blocked } else { old(self).cell_static_blocked(cx, cy) }) by {
                    old(self).lemma_index_distinct(cx, cy, x as int, y as int);
                }
                assert forall|cx: int, cy: int| old(self).spec_in_bounds(cx, cy) implies
                    #[trigger] self.cell_cost(cx, cy) == old(self).cell_cost(cx, cy) by {
                    old(self).lemma_index_distinct(cx, cy, x as int, y as int);
                }
            }
        }
    }

    /// Gives every playable cell its static blocking back, dropping what
    /// idle units added.
    pub fn reset_dynamic_blocked(&mut self)
        requires
            old(self).wf(),
        ensures
            final(self).wf(),
            final(self).spec_width() == old(self).spec_width(),
            final(self).spec_height() == old(self).spec_height(),
            final(self).spec_screen_width() == old(self).spec_screen_width(),
            final(self).spec_screen_height() == old(self).spec_screen_height(),
            forall|cx: int, cy: int| old(self).spec_in_bounds(cx, cy) ==> #[trigger] final(self).cell_blocked(cx, cy) == old(self).cell_static_blocked(cx, cy),
            forall|cx: int, cy: int| old(self).spec_in_bounds(cx, cy) ==> #[trigger] final(self).cell_static_blocked(cx, cy) == old(self).cell_static_blocked(cx, cy),
            forall|cx: int, cy: int| old(self).spec_in_bounds(cx, cy) ==> #[trigger] final(self).cell_cost(cx, cy) == old(self).cell_cost(cx, cy),
    {
        let n = self.blocked.len();
        let mut i: usize = 0;
        while i < n
            invariant
                i <= n,
                n == self.blocked.len(),
                self.blocked.len() == old(self).blocked.len(),
                self.static_blocked == old(self).static_blocked,
                self.movement_costs == old(self).movement_costs,
                self.width == old(self).width,
                self.height == old(self).height,
                self.screen_width == old(self).screen_width,
                self.screen_height == old(self).screen_height,
                self.static_blocked.len() == n,
                forall|j: int| 0 <= j < i ==> self.blocked[j] == self.static_blocked[j],
            decreases n - i,
        {
            let v = self.static_blocked[i];
            self.blocked.set(i, v);
            i = i + 1;
        }
        proof {
            assert forall|cx: int, cy: int| old(self).spec_in_bounds(cx, cy) implies #[trigger] self.cell_blocked(cx, cy) == old(self).cell_static_blocked(cx, cy) by {
                old(self).lemma_index(cx, cy);
            }
        }
    }

    /// Marks a playable cell as occupied (or free) for this frame only.
    pub fn set_dynamic_blocked(&mut self, x: i32, y: i32, is_blocked: bool)
        requires
            old(self).wf(),
        ensures
            final(self).wf(),
            final(self).spec_width() == old(self).spec_width(),
            final(self).spec_height() == old(self).spec_height(),
            final(self).spec_screen_width() == old(self).spec_screen_width(),
            final(self).spec_screen_height() == old(self).spec_screen_height(),
            forall|cx: int, cy: int| old(self).spec_in_bounds(cx, cy) ==> #[trigger] final(self).cell_blocked(cx, cy) == if cx == x && cy == y {
                is_blocked
            } else {
                old(self).cell_blocked(cx, cy)
            },
            forall|cx: int, cy: int| old(self).spec_in_bounds(cx, cy) ==> #[trigger] final(self).cell_static_blocked(cx, cy) == old(self).cell_static_blocked(cx, cy),
            forall|cx: int, cy: int| old(self).spec_in_bounds(cx, cy) ==> #[trigger] final(self).cell_cost(cx, cy) == old(self).cell_cost(cx, cy),
    {
        if self.in_bounds(x, y) {
            let idx = self.index(x, y);
            proof { self.lemma_index(x as int, y as int); }
            self.blocked.set(idx, is_blocked);
            proof {
                assert forall|cx: int, cy: int| old(self).spec_in_bounds(cx, cy) implies
                    (#[trigger] self.cell_blocked(cx, cy) == if cx == x && cy == y { is_blocked } else { old(self).cell_blocked(cx, cy) })
                    && self.cell_static_blocked(cx, cy) == old(self).cell_static_blocked(cx, cy)
                    && self.cell_cost(cx, cy) == old(self).cell_cost(cx, cy) by {
                    old(self).lemma_index_distinct(cx, cy, x as int, y as int);
                }
            }
        }
    }

    /// Sets what it costs to enter a playable cell, in hundredths; costs
    /// below a tenth are raised to a tenth.
    pub fn set_movement_cost(&mut self, x: i32, y: i32, movement_cost: u32)
        requires
            old(self).wf(),
        ensures
            final(self).wf(),
            final(self).spec_width() == old(self).spec_width(),
            final(self).spec_height() == old(self).spec_height(),
            final(self).spec_screen_width() == old(self).spec_screen_width(),
            final(self).spec_screen_height() == old(self).spec_screen_height(),
            forall|cx: int, cy: int| old(self).spec_in_bounds(cx, cy) ==> #[trigger] final(self).cell_cost(cx, cy) == if cx == x && cy == y {
                if movement_cost >= MIN_MOVEMENT_COST { movement_cost } else { MIN_MOVEMENT_COST }
            } else {
                old(self).cell_cost(cx, cy)
            },
            forall|cx: int, cy: int| old(self).spec_in_bounds(cx, cy) ==> #[trigger] final(self).cell_blocked(cx, cy) == old(self).cell_blocked(cx, cy),
            forall|cx: int, cy: int| old(self).spec_in_bounds(cx, cy) ==> #[trigger] final(self).cell_static_blocked(cx, cy) == old(self).cell_static_blocked(cx, cy),
    {
        if self.in_bounds(x, y) {
            let idx = self.index(x, y);
            proof { self.lemma_index(x as int, y as int); }
            let c = if movement_cost >= MIN_MOVEMENT_COST { movement_cost } else { MIN_MOVEMENT_COST };
            self.movement_costs.set(idx, c);
            proof {
                assert forall|cx: int, cy: int| old(self).spec_in_bounds(cx, cy) implies
                    (#[trigger] self.cell_cost(cx, cy) == if cx == x && cy == y { c } else { old(self).cell_cost(cx, cy) })
                    && self.cell_static_blocked(cx, cy) == old(self).cell_static_blocked(cx, cy)
                    && self.cell_blocked(cx, cy) == old(self).cell_blocked(cx, cy) by {
                    old(self).lemma_index_distinct(cx, cy, x as int, y as int);
                }
            }
        }
    }

    /// The cost of entering a cell, in hundredths; `None` off the playable
    /// area, where the cost is unbounded.
    pub fn movement_cost(&self, x: i32, y: i32) -> (r: Option<u32>)
        requires
            self.wf(),
        ensures
            r == if self.spec_in_bounds(x as int, y as int) { Some(self.cell_cost(x as int, y as int)) } else { None },
            r matches Some(c) ==> c >= MIN_MOVEMENT_COST,
    {
                if !self.in_bounds(x, y) {
            return None;
        }
        let idx = self.index(x, y);
        Some(self.movement_costs[idx])
    }

    /// Whether a cell can not be entered now: it is off the playable area or
    /// blocked by a building, terrain or an idle unit.
    pub fn is_blocked(&self, x: i32, y: i32) -> (r: bool)
        requires
            self.wf(),
        ensures
            r == self.spec_is_blocked(x as int, y as int),
    {
        if !self.in_bounds(x, y) {
            return true;
        }
        let idx = self.index(x, y);
        self.blocked[idx]
    }

    /// Whether a cell is off the playable area or blocked by a building or terrain.
    pub fn is_statically_blocked(&self, x: i32, y: i32) -> (r: bool)
        requires
            self.wf(),
        ensures
            r == self.spec_is_statically_blocked(x as int, y as int),
    {
        if !self.in_bounds(x, y) {
            return true;
        }
        let idx = self.index(x, y);
        self.static_blocked[idx]
    }
}

} // verus!
