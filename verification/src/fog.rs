use vstd::prelude::*;
use crate::geometry::{Pos, spec_round_milli};

verus! {

/// What the local player knows of a cell.
#[derive(Clone, Copy, Debug, PartialEq, Eq, Structural)]
pub enum VisibilityState {
    Unexplored,
    Explored,
    Visible,
}

impl Default for VisibilityState {
    fn default() -> (r: Self)
        ensures
            r == VisibilityState::Unexplored,
    {
        VisibilityState::Unexplored
    }
}

/// Something that sees: a unit or building standing at `position`, seeing
/// `range` thousandths of a cell around it, owned by player `owner`.
#[derive(Clone, Copy, Debug)]
pub struct VisionSource {
    pub position: Pos,
    pub range: u32,
    pub owner: usize,
}

/// The source sees cell `(x, z)`: the squared distance from the source's
/// cell is at most the squared range.
pub open spec fn spec_sees(s: VisionSource, x: int, z: int) -> bool {
    let gx = spec_round_milli(s.position.x as int);
    let gz = spec_round_milli(s.position.z as int);
    ((x - gx) * (x - gx) + (z - gz) * (z - gz)) * 1_000_000 <= (s.range as int) * (s.range as int)
}

/// Some source owned by `local` among the first `n` sees the cell.
pub open spec fn spec_seen_by(sources: Seq<VisionSource>, local: usize, n: int, x: int, z: int) -> bool {
    exists|j: int| 0 <= j < n && (#[trigger] sources[j]).owner == local && spec_sees(sources[j], x, z)
}

/// Cell `(x, z)` of a map of the given size lies on the playable diamond.
pub open spec fn spec_on_diamond(width: int, height: int, screen_width: int, screen_height: int, x: int, z: int) -> bool {
    let dx = x - width / 2;
    let dz = z - height / 2;
    &&& (if dx - dz >= 0 { dx - dz } else { dz - dx }) <= screen_width
    &&& (if dx + dz >= 0 { dx + dz } else { -(dx + dz) }) <= screen_height
}

/// Opacity of the fog drawn over a cell: none off the playable diamond,
/// full over unexplored cells, partial over explored ones, none over
/// visible ones.
pub open spec fn spec_alpha(on_diamond: bool, state: VisibilityState) -> u8 {
    if !on_diamond {
        0
    } else {
        match state {
            VisibilityState::Unexplored => 255,
            VisibilityState::Explored => 150,
            VisibilityState::Visible => 0,
        }
    }
}

/// The fog of war of the local player over a `width` x `height` map.
pub struct FogOfWar {
    width: i32,
    height: i32,
    screen_width: i32,
    screen_height: i32,
    states: Vec<VisibilityState>,
    is_disabled: bool,
}

impl FogOfWar {
    /// Every fog holds one state per cell of its rectangle.
    pub closed spec fn wf(self) -> bool {
        &&& self.width >= 0
        &&& self.height >= 0
        &&& self.width * self.height <= usize::MAX
        &&& self.states.len() == self.width * self.height
    }

    pub closed spec fn spec_width(self) -> int {
        self.width as int
    }

    pub closed spec fn spec_height(self) -> int {
        self.height as int
    }

    pub closed spec fn spec_screen_width(self) -> int {
        self.screen_width as int
    }

    pub closed spec fn spec_screen_height(self) -> int {
        self.screen_height as int
    }

    pub closed spec fn spec_disabled(self) -> bool {
        self.is_disabled
    }

    /// Whether `(x, z)` is a cell of the fog's rectangle.
    pub open spec fn spec_in_rect(self, x: int, z: int) -> bool {
        0 <= x < self.spec_width() && 0 <= z < self.spec_height()
    }

    /// The state of a cell of the rectangle.
    pub closed spec fn cell(self, x: int, z: int) -> VisibilityState {
        self.states@[z * self.width + x]
    }

    /// What `get_state` answers: cells outside the rectangle are unexplored.
    pub open spec fn spec_state(self, x: int, z: int) -> VisibilityState {
        if self.spec_in_rect(x, z) { self.cell(x, z) } else { VisibilityState::Unexplored }
    }

    proof fn lemma_index(self, x: int, z: int)
        requires
            self.wf(),
            self.spec_in_rect(x, z),
        ensures
            0 <= z * self.width + x < self.states.len(),
            forall|x2: int, z2: int| self.spec_in_rect(x2, z2) && (x2 != x || z2 != z)
                ==> #[trigger] (z2 * self.width + x2) != z * self.width + x,
    {
        assert(0 <= z * self.width) by (nonlinear_arith) requires 0 <= z, 0 <= self.width;
        assert(z * self.width + x < self.width * self.height) by (nonlinear_arith)
            requires 0 <= x < self.width, 0 <= z < self.height;
        assert forall|x2: int, z2: int| self.spec_in_rect(x2, z2) && (x2 != x || z2 != z)
            implies #[trigger] (z2 * self.width + x2) != z * self.width + x by {
            if z2 < z {
                assert(z2 * self.width + self.width <= z * self.width) by (nonlinear_arith)
                    requires z2 < z, 0 <= self.width;
            } else if z < z2 {
                assert(z * self.width + self.width <= z2 * self.width) by (nonlinear_arith)
                    requires z < z2, 0 <= self.width;
            }
        }
    }

    proof fn lemma_cell_of_index(self, i: int)
        requires
            self.wf(),
            0 <= i < self.states.len(),
        ensures
            self.width > 0,
            self.spec_in_rect(i % self.width as int, i / self.width as int),
            (i / self.width as int) * self.width + i % self.width as int == i,
    {
        if self.width == 0 {
            assert(self.width * self.height == 0);
        }
        assert(self.width > 0);
        assert((i / self.width as int) * self.width + i % self.width as int == i) by (nonlinear_arith)
            requires self.width > 0;
        assert(i / (self.width as int) < self.height) by (nonlinear_arith)
            requires self.width > 0, 0 <= i < self.width * self.height, self.height >= 0;
        assert(0 <= i / (self.width as int)) by (nonlinear_arith)
            requires self.width > 0, 0 <= i;
    }

    /// A fog over a `width` x `height` map with every cell unexplored.
    pub fn new(width: i32, height: i32, screen_width: i32, screen_height: i32) -> (f: FogOfWar)
        requires
            width >= 0,
            height >= 0,
            width * height <= usize::MAX,
        ensures
            f.wf(),
            f.spec_width() == width,
            f.spec_height() == height,
            f.spec_screen_width() == screen_width,
            f.spec_screen_height() == screen_height,
            !f.spec_disabled(),
            forall|x: int, z: int| #[trigger] f.spec_state(x, z) == VisibilityState::Unexplored,
    {
        let n: usize = (width as usize) * (height as usize);
        let mut states: Vec<VisibilityState> = Vec::new();
        let mut i: usize = 0;
        while i < n
            invariant
                i <= n,
                states.len() == i,
                forall|j: int| 0 <= j < i ==> states@[j] == VisibilityState::Unexplored,
            decreases n - i,
        {
            states.push(VisibilityState::Unexplored);
            i = i + 1;
        }
        let f = FogOfWar { width, height, screen_width, screen_height, states, is_disabled: false };
        proof {
            assert forall|x: int, z: int| #[trigger] f.spec_state(x, z) == VisibilityState::Unexplored by {
                if f.spec_in_rect(x, z) {
                    f.lemma_index(x, z);
                }
            }
        }
        f
    }

    pub fn width(&self) -> (r: i32)
        ensures
            r == self.spec_width(),
    {
        self.width
    }

    pub fn height(&self) -> (r: i32)
        ensures
            r == self.spec_height(),
    {
        self.height
    }

    /// Whether the fog is switched off, so that everything is visible.
    pub fn is_disabled(&self) -> (r: bool)
        ensures
            r == self.spec_disabled(),
    {
        self.is_disabled
    }

    /// Switches the fog off or back on.
    pub fn set_disabled(&mut self, disabled: bool)
        requires
            old(self).wf(),
        ensures
            final(self).wf(),
            final(self).spec_disabled() == disabled,
            final(self).spec_width() == old(self).spec_width(),
            final(self).spec_height() == old(self).spec_height(),
            final(self).spec_screen_width() == old(self).spec_screen_width(),
            final(self).spec_screen_height() == old(self).spec_screen_height(),
            forall|x: int, z: int| #[trigger] final(self).spec_state(x, z) == old(self).spec_state(x, z),
    {
        self.is_disabled = disabled;
    }

    /// The state of a cell; cells outside the map are unexplored.
    pub fn get_state(&self, x: i32, y: i32) -> (r: VisibilityState)
        requires
            self.wf(),
        ensures
            r == self.spec_state(x as int, y as int),
    {
        if x >= 0 && x < self.width && y >= 0 && y < self.height {
            proof { self.lemma_index(x as int, y as int); }
            let idx = (y as usize) * (self.width as usize) + (x as usize);
            self.states[idx]
        } else {
            VisibilityState::Unexplored
        }
    }

    /// Sets the state of a cell of the map; cells outside the map are ignored.
    pub fn set_state(&mut self, x: i32, y: i32, state: VisibilityState)
        requires
            old(self).wf(),
        ensures
            final(self).wf(),
            final(self).spec_disabled() == old(self).spec_disabled(),
            final(self).spec_width() == old(self).spec_width(),
            final(self).spec_height() == old(self).spec_height(),
            final(self).spec_screen_width() == old(self).spec_screen_width(),
            final(self).spec_screen_height() == old(self).spec_screen_height(),
            forall|cx: int, cz: int| #[trigger] final(self).spec_state(cx, cz) == if cx == x && cz == y && old(self).spec_in_rect(cx, cz) {
                state
            } else {
                old(self).spec_state(cx, cz)
            },
    {
        if x >= 0 && x < self.width && y >= 0 && y < self.height {
            proof { self.lemma_index(x as int, y as int); }
            let idx = (y as usize) * (self.width as usize) + (x as usize);
            self.states.set(idx, state);
            proof {
                assert forall|cx: int, cz: int| #[trigger] self.spec_state(cx, cz) == if cx == x && cz == y && old(self).spec_in_rect(cx, cz) {
                    state
                } else {
                    old(self).spec_state(cx, cz)
                } by {
                    if old(self).spec_in_rect(cx, cz) {
                        old(self).lemma_index(cx, cz);
                        old(self).lemma_index(x as int, y as int);
                    }
                }
            }
        }
    }

    /// The states of all cells, row by row.
    pub fn states(&self) -> (r: &Vec<VisibilityState>)
        requires
            self.wf(),
        ensures
            r.len() == self.spec_width() * self.spec_height(),
            forall|x: int, z: int| self.spec_in_rect(x, z) ==> #[trigger] self.spec_state(x, z) == r@[z * self.spec_width() + x],
    {
        &self.states
    }

    /// Puts back states saved earlier, row by row.
    pub fn restore_states(&mut self, states: Vec<VisibilityState>)
        requires
            old(self).wf(),
            states.len() == old(self).spec_width() * old(self).spec_height(),
        ensures
            final(self).wf(),
            final(self).spec_disabled() == old(self).spec_disabled(),
            final(self).spec_width() == old(self).spec_width(),
            final(self).spec_height() == old(self).spec_height(),
            final(self).spec_screen_width() == old(self).spec_screen_width(),
            final(self).spec_screen_height() == old(self).spec_screen_height(),
            forall|x: int, z: int| final(self).spec_in_rect(x, z) ==> #[trigger] final(self).spec_state(x, z) == states@[z * final(self).spec_width() + x],
    {
        self.states = states;
    }

    /// Marks every unexplored cell as explored.
    pub fn explore_all(&mut self)
        requires
            old(self).wf(),
        ensures
            final(self).wf(),
            final(self).spec_disabled() == old(self).spec_disabled(),
            final(self).spec_width() == old(self).spec_width(),
            final(self).spec_height() == old(self).spec_height(),
            final(self).spec_screen_width() == old(self).spec_screen_width(),
            final(self).spec_screen_height() == old(self).spec_screen_height(),
            forall|x: int, z: int| old(self).spec_in_rect(x, z) ==> #[trigger] final(self).spec_state(x, z) == if old(self).spec_state(x, z) == VisibilityState::Unexplored {
                VisibilityState::Explored
            } else {
                old(self).spec_state(x, z)
            },
    {
        let n = self.states.len();
        let mut i: usize = 0;
        while i < n
            invariant
                i <= n,
                n == self.states.len(),
                self.width == old(self).width,
                self.height == old(self).height,
                self.screen_width == old(self).screen_width,
                self.screen_height == old(self).screen_height,
                self.is_disabled == old(self).is_disabled,
                old(self).wf(),
                self.states.len() == old(self).states.len(),
                forall|j: int| 0 <= j < n ==> #[trigger] self.states@[j] == if j < i && old(self).states@[j] == VisibilityState::Unexplored {
                    VisibilityState::Explored
                } else {
                    old(self).states@[j]
                },
            decreases n - i,
        {
            if self.states[i] == VisibilityState::Unexplored {
                self.states.set(i, VisibilityState::Explored);
            }
            i = i + 1;
        }
        proof {
            assert forall|x: int, z: int| old(self).spec_in_rect(x, z) implies #[trigger] self.spec_state(x, z) == if old(self).spec_state(x, z) == VisibilityState::Unexplored {
                VisibilityState::Explored
            } else {
                old(self).spec_state(x, z)
            } by {
                old(self).lemma_index(x, z);
            }
        }
    }

    /// The state of the cell a point falls in.
    pub fn state_at(&self, position: Pos) -> (r: VisibilityState)
        requires
            self.wf(),
        ensures
            r == self.spec_state(spec_round_milli(position.x as int), spec_round_milli(position.z as int)),
    {
        let cell = position.cell();
        self.get_state(cell.0, cell.1)
    }

    /// One refresh of the fog: with the fog switched off every cell becomes
    /// visible; otherwise the cells seen by the local player's sources become
    /// visible, the others that were visible fall back to explored, and
    /// unexplored cells stay unexplored.
    pub fn update_visibility(&mut self, sources: &Vec<VisionSource>, local: usize)
        requires
            old(self).wf(),
        ensures
            final(self).wf(),
            final(self).spec_disabled() == old(self).spec_disabled(),
            final(self).spec_width() == old(self).spec_width(),
            final(self).spec_height() == old(self).spec_height(),
            final(self).spec_screen_width() == old(self).spec_screen_width(),
            final(self).spec_screen_height() == old(self).spec_screen_height(),
            forall|x: int, z: int| old(self).spec_in_rect(x, z) ==> #[trigger] final(self).spec_state(x, z) == spec_refreshed(
                old(self).spec_disabled(), spec_seen_by(sources@, local, sources@.len() as int, x, z), old(self).spec_state(x, z)),
    {
        let n = self.states.len();
        if self.is_disabled {
            let mut i: usize = 0;
            while i < n
                invariant
                    i <= n,
                    n == self.states.len(),
                    self.width == old(self).width,
                    self.height == old(self).height,
                    self.screen_width == old(self).screen_width,
                    self.screen_height == old(self).screen_height,
                    self.is_disabled == old(self).is_disabled,
                    old(self).wf(),
                    self.states.len() == old(self).states.len(),
                    forall|j: int| 0 <= j < i ==> #[trigger] self.states@[j] == VisibilityState::Visible,
                decreases n - i,
            {
                self.states.set(i, VisibilityState::Visible);
                i = i + 1;
            }
            proof {
                assert forall|x: int, z: int| old(self).spec_in_rect(x, z) implies #[trigger] self.spec_state(x, z) == VisibilityState::Visible by {
                    old(self).lemma_index(x, z);
                }
            }
            return;
        }
        let mut i: usize = 0;
        while i < n
            invariant
                i <= n,
                n == self.states.len(),
                self.width == old(self).width,
                self.height == old(self).height,
                self.screen_width == old(self).screen_width,
                self.screen_height == old(self).screen_height,
                self.is_disabled == old(self).is_disabled,
                old(self).wf(),
                self.states.len() == old(self).states.len(),
                forall|j: int| 0 <= j < n ==> #[trigger] self.states@[j] == if j < i && old(self).states@[j] == VisibilityState::Visible {
                    VisibilityState::Explored
                } else {
                    old(self).states@[j]
                },
            decreases n - i,
        {
            if self.states[i] == VisibilityState::Visible {
                self.states.set(i, VisibilityState::Explored);
            }
            i = i + 1;
        }
        proof {
            assert forall|x: int, z: int| old(self).spec_in_rect(x, z) implies #[trigger] self.spec_state(x, z) == spec_dimmed(old(self).spec_state(x, z)) by {
                old(self).lemma_index(x, z);
            }
        }
        let ghost base = *self;
        let mut j: usize = 0;
        while j < sources.len()
            invariant
                j <= sources.len(),
                self.wf(),
                base.wf(),
                self.spec_disabled() == old(self).spec_disabled(),
                !self.spec_disabled(),
                self.spec_width() == old(self).spec_width(),
                self.spec_height() == old(self).spec_height(),
                self.spec_screen_width() == old(self).spec_screen_width(),
                self.spec_screen_height() == old(self).spec_screen_height(),
                base.spec_width() == old(self).spec_width(),
                base.spec_height() == old(self).spec_height(),
                forall|x: int, z: int| old(self).spec_in_rect(x, z) ==> #[trigger] base.spec_state(x, z) == spec_dimmed(old(self).spec_state(x, z)),
                forall|x: int, z: int| old(self).spec_in_rect(x, z) ==> #[trigger] self.spec_state(x, z) == if spec_seen_by(sources@, local, j as int, x, z) {
                    VisibilityState::Visible
                } else {
                    base.spec_state(x, z)
                },
            decreases sources.len() - j,
        {
            let source = sources[j];
            if source.owner == local {
                self.reveal_around(source);
            }
            proof {
                assert forall|x: int, z: int| old(self).spec_in_rect(x, z) implies #[trigger] self.spec_state(x, z) == if spec_seen_by(sources@, local, j + 1, x, z) {
                    VisibilityState::Visible
                } else {
                    base.spec_state(x, z)
                } by {
                    if spec_seen_by(sources@, local, j + 1, x, z) && !spec_seen_by(sources@, local, j as int, x, z) {
                        let k = choose|k: int| 0 <= k < j + 1 && (#[trigger] sources@[k]).owner == local && spec_sees(sources@[k], x, z);
                        assert(k == j);
                    }
                    if spec_seen_by(sources@, local, j as int, x, z) {
                        let k = choose|k: int| 0 <= k < j && (#[trigger] sources@[k]).owner == local && spec_sees(sources@[k], x, z);
                        assert(spec_seen_by(sources@, local, j + 1, x, z));
                    }
                }
            }
            j = j + 1;
        }
    }

    /// Makes every cell of the map that the source sees visible.
    fn reveal_around(&mut self, source: VisionSource)
        requires
            old(self).wf(),
        ensures
            final(self).wf(),
            final(self).spec_disabled() == old(self).spec_disabled(),
            final(self).spec_width() == old(self).spec_width(),
            final(self).spec_height() == old(self).spec_height(),
            final(self).spec_screen_width() == old(self).spec_screen_width(),
            final(self).spec_screen_height() == old(self).spec_screen_height(),
            forall|x: int, z: int| old(self).spec_in_rect(x, z) ==> #[trigger] final(self).spec_state(x, z) == if spec_sees(source, x, z) {
                VisibilityState::Visible
            } else {
                old(self).spec_state(x, z)
            },
    {
        let cell = source.position.cell();
        let gx: i64 = cell.0 as i64;
        let gz: i64 = cell.1 as i64;
        let reach: i64 = (source.range as i64 + 999) / 1000;
        proof {
            let rr = source.range as int;
            assert(0 <= rr * rr <= 0x1_0000_0000_0000_0000) by (nonlinear_arith)
                requires 0 <= rr <= 0xffff_ffff;
        }
        let r_sq: i128 = (source.range as i128) * (source.range as i128);
        let min_x: i64 = if gx - reach > 0 { gx - reach } else { 0 };
        let max_x: i64 = if gx + reach < self.width as i64 - 1 { gx + reach } else { self.width as i64 - 1 };
        let min_z: i64 = if gz - reach > 0 { gz - reach } else { 0 };
        let max_z: i64 = if gz + reach < self.height as i64 - 1 { gz + reach } else { self.height as i64 - 1 };
        proof {
            assert forall|x: int, z: int| old(self).spec_in_rect(x, z) && #[trigger] spec_sees(source, x, z)
                implies min_x <= x <= max_x && min_z <= z <= max_z by {
                lemma_sees_within_reach(source, x, z);
            }
        }
        let mut z: i64 = min_z;
        while z <= max_z
            invariant
                self.wf(),
                min_z <= z,
                min_z >= 0,
                min_x >= 0,
                max_x < self.spec_width(),
                max_z < self.spec_height(),
                gx == spec_round_milli(source.position.x as int),
                gz == spec_round_milli(source.position.z as int),
                r_sq == (source.range as int) * (source.range as int),
                -2147484 <= gx <= 2147484,
                -2147484 <= gz <= 2147484,
                self.spec_disabled() == old(self).spec_disabled(),
                self.spec_width() == old(self).spec_width(),
                self.spec_height() == old(self).spec_height(),
                self.spec_screen_width() == old(self).spec_screen_width(),
                self.spec_screen_height() == old(self).spec_screen_height(),
                forall|x: int, zz: int| old(self).spec_in_rect(x, zz) && #[trigger] spec_sees(source, x, zz)
                    ==> min_x <= x <= max_x && min_z <= zz <= max_z,
                forall|x: int, zz: int| old(self).spec_in_rect(x, zz) ==> #[trigger] self.spec_state(x, zz) == if spec_sees(source, x, zz) && zz < z {
                    VisibilityState::Visible
                } else {
                    old(self).spec_state(x, zz)
                },
            decreases max_z + 1 - z,
        {
            let mut x: i64 = min_x;
            while x <= max_x
                invariant
                    self.wf(),
                    min_x <= x,
                    min_z <= z <= max_z,
                    min_z >= 0,
                    min_x >= 0,
                    max_x < self.spec_width(),
                    max_z < self.spec_height(),
                    gx == spec_round_milli(source.position.x as int),
                    gz == spec_round_milli(source.position.z as int),
                    r_sq == (source.range as int) * (source.range as int),
                    -2147484 <= gx <= 2147484,
                    -2147484 <= gz <= 2147484,
                    self.spec_disabled() == old(self).spec_disabled(),
                    self.spec_width() == old(self).spec_width(),
                    self.spec_height() == old(self).spec_height(),
                    self.spec_screen_width() == old(self).spec_screen_width(),
                    self.spec_screen_height() == old(self).spec_screen_height(),
                    forall|xx: int, zz: int| old(self).spec_in_rect(xx, zz) ==> #[trigger] self.spec_state(xx, zz) == if spec_sees(source, xx, zz) && (zz < z || (zz == z && xx < x)) {
                        VisibilityState::Visible
                    } else {
                        old(self).spec_state(xx, zz)
                    },
                decreases max_x + 1 - x,
            {
                let dx: i64 = x - gx;
                let dz: i64 = z - gz;
                proof {
                    assert(0 <= dx * dx <= 0x1_0000_0000_0000_0000) by (nonlinear_arith)
                        requires -0x1_0000_0000 <= dx <= 0x1_0000_0000;
                    assert(0 <= dz * dz <= 0x1_0000_0000_0000_0000) by (nonlinear_arith)
                        requires -0x1_0000_0000 <= dz <= 0x1_0000_0000;
                }
                let d_sq: i128 = (dx as i128) * (dx as i128) + (dz as i128) * (dz as i128);
                if d_sq * 1_000_000 <= r_sq {
                    self.set_state(x as i32, z as i32, VisibilityState::Visible);
                }
                x = x + 1;
            }
            z = z + 1;
        }
    }

    /// The opacity of the fog over every cell, row by row.
    pub fn texture_alphas(&self) -> (r: Vec<u8>)
        requires
            self.wf(),
        ensures
            r.len() == self.spec_width() * self.spec_height(),
            forall|x: int, z: int| self.spec_in_rect(x, z) ==> #[trigger] r@[z * self.spec_width() + x] == spec_alpha(
                spec_on_diamond(self.spec_width(), self.spec_height(), self.spec_screen_width(), self.spec_screen_height(), x, z),
                self.spec_state(x, z)),
    {
        let n = self.states.len();
        let mut alphas: Vec<u8> = Vec::new();
        let cx = self.width / 2;
        let cz = self.height / 2;
        let mut i: usize = 0;
        while i < n
            invariant
                i <= n,
                n == self.states.len(),
                self.wf(),
                cx == self.width / 2,
                cz == self.height / 2,
                alphas.len() == i,
                forall|j: int| 0 <= j < i ==> #[trigger] alphas@[j] == spec_alpha(
                    spec_on_diamond(self.width as int, self.height as int, self.screen_width as int, self.screen_height as int,
                        j % self.width as int, j / self.width as int),
                    self.states@[j]),
            decreases n - i,
        {
            proof { self.lemma_cell_of_index(i as int); }
            let x = (i % (self.width as usize)) as i32;
            let z = (i / (self.width as usize)) as i32;
            let dx = x - cx;
            let dz = z - cz;
            let d1 = if dx - dz >= 0 { dx - dz } else { dz - dx };
            let d2 = if dx + dz >= 0 { dx + dz } else { -(dx + dz) };
            let alpha: u8 = if d1 > self.screen_width || d2 > self.screen_height {
                0
            } else {
                match self.states[i] {
                    VisibilityState::Unexplored => 255,
                    VisibilityState::Explored => 150,
                    VisibilityState::Visible => 0,
                }
            };
            alphas.push(alpha);
            i = i + 1;
        }
        proof {
            assert forall|x: int, z: int| self.spec_in_rect(x, z) implies #[trigger] alphas@[z * self.spec_width() + x] == spec_alpha(
                spec_on_diamond(self.spec_width(), self.spec_height(), self.spec_screen_width(), self.spec_screen_height(), x, z),
                self.spec_state(x, z)) by {
                self.lemma_index(x, z);
                let j = z * self.width + x;
                assert(j % self.width as int == x && j / self.width as int == z) by (nonlinear_arith)
                    requires j == z * self.width + x, 0 <= x < self.width, 0 <= z;
            }
        }
        alphas
    }
}

/// The state a cell takes in a refresh of the fog.
pub open spec fn spec_refreshed(disabled: bool, seen: bool, before: VisibilityState) -> VisibilityState {
    if disabled || seen {
        VisibilityState::Visible
    } else {
        spec_dimmed(before)
    }
}

/// A visible cell falls back to explored; others keep their state.
pub open spec fn spec_dimmed(before: VisibilityState) -> VisibilityState {
    if before == VisibilityState::Visible { VisibilityState::Explored } else { before }
}

proof fn lemma_sees_within_reach(s: VisionSource, x: int, z: int)
    requires
        spec_sees(s, x, z),
    ensures
        ({
            let gx = spec_round_milli(s.position.x as int);
            let gz = spec_round_milli(s.position.z as int);
            let reach = (s.range as int + 999) / 1000;
            gx - reach <= x <= gx + reach && gz - reach <= z <= gz + reach
        }),
{
    let gx = spec_round_milli(s.position.x as int);
    let gz = spec_round_milli(s.position.z as int);
    let r = s.range as int;
    let reach = (r + 999) / 1000;
    let dx = x - gx;
    let dz = z - gz;
    assert(dx * dx * 1_000_000 <= r * r) by (nonlinear_arith)
        requires (dx * dx + dz * dz) * 1_000_000 <= r * r;
    assert(dz * dz * 1_000_000 <= r * r) by (nonlinear_arith)
        requires (dx * dx + dz * dz) * 1_000_000 <= r * r;
    lemma_square_reach(dx, r);
    lemma_square_reach(dz, r);
}

proof fn lemma_square_reach(d: int, r: int)
    requires
        r >= 0,
        d * d * 1_000_000 <= r * r,
    ensures
        -((r + 999) / 1000) <= d <= (r + 999) / 1000,
{
    let reach = (r + 999) / 1000;
    assert(reach * 1000 >= r) by (nonlinear_arith) requires reach == (r + 999) / 1000, r >= 0;
    let a = if d >= 0 { d } else { -d };
    assert(a * a == d * d) by (nonlinear_arith) requires a == d || a == -d;
    if a > reach {
        assert(a * 1000 > r) by (nonlinear_arith) requires a > reach, reach * 1000 >= r;
        assert((a * 1000) * (a * 1000) > r * r) by (nonlinear_arith) requires a * 1000 > r, r >= 0;
        assert(a * a * 1_000_000 == (a * 1000) * (a * 1000)) by (nonlinear_arith);
    }
}

/// The opacity of the fog over a new map, every cell unexplored.
pub fn initial_fog_alphas(width: i32, height: i32, screen_width: i32, screen_height: i32) -> (r: Vec<u8>)
    requires
        width >= 0,
        height >= 0,
        width * height <= usize::MAX,
    ensures
        r.len() == width * height,
        forall|x: int, z: int| 0 <= x < width && 0 <= z < height ==> #[trigger] r@[z * width + x] ==
            if spec_on_diamond(width as int, height as int, screen_width as int, screen_height as int, x, z) { 255u8 } else { 0u8 },
{
    let fog = FogOfWar::new(width, height, screen_width, screen_height);
    let r = fog.texture_alphas();
    proof {
        assert forall|x: int, z: int| 0 <= x < width && 0 <= z < height implies #[trigger] r@[z * width + x] ==
            if spec_on_diamond(width as int, height as int, screen_width as int, screen_height as int, x, z) { 255u8 } else { 0u8 } by {
            assert(fog.spec_state(x, z) == VisibilityState::Unexplored);
        }
    }
    r
}

/// Whether a unit is drawn for the local player: their own units always,
/// other units only on visible cells.
pub fn unit_visible(owner: usize, local: usize, state: VisibilityState) -> (r: bool)
    ensures
        r == (owner == local || state == VisibilityState::Visible),
{
    owner == local || state == VisibilityState::Visible
}

/// Whether a building is drawn for the local player: their own buildings
/// always, others on any cell that has been explored.
pub fn structure_visible(owner: usize, local: usize, state: VisibilityState) -> (r: bool)
    ensures
        r == (owner == local || state != VisibilityState::Unexplored),
{
    owner == local || state != VisibilityState::Unexplored
}

/// Whether an ore field is drawn: on any cell that has been explored.
pub fn ore_visible(state: VisibilityState) -> (r: bool)
    ensures
        r == (state != VisibilityState::Unexplored),
{
    state != VisibilityState::Unexplored
}

/// A refresh of the fog never makes a cell unexplored again: what has been
/// seen stays at least explored.
pub proof fn law_refresh_never_forgets(disabled: bool, seen: bool, before: VisibilityState)
    requires
        before != VisibilityState::Unexplored,
    ensures
        spec_refreshed(disabled, seen, before) != VisibilityState::Unexplored,
{
}

/// Once the fog has been refreshed, a cell is visible exactly when the fog
/// is off or a source of the local player sees it.
pub proof fn law_refresh_visible_iff_seen(disabled: bool, seen: bool, before: VisibilityState)
    ensures
        (spec_refreshed(disabled, seen, before) == VisibilityState::Visible) == (disabled || seen),
{
}

} // verus!
