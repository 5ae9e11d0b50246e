use vstd::prelude::*;
use crate::geometry::{Pos, spec_dist_sq};
use crate::grid::Grid;
use crate::player::{Players, Player, spec_player_index};
use crate::group_move::spec_path_answer;
use crate::pathfinding::find_path;

verus! {

/// Ore a harvester takes from a field per load.
pub const HARVEST_PER_LOAD: u32 = 25;
/// How much ore a harvester carries by default.
pub const DEFAULT_HARVESTER_CAPACITY: u32 = 250;
/// Milliseconds between two loads.
pub const HARVEST_INTERVAL_MS: i64 = 500;
/// Milliseconds a harvester waits before searching a path again after a
/// failed search.
pub const PATH_RETRY_MS: i64 = 1000;
/// A harvester closer than this (squared, in millionths of a squared cell:
/// 2.5 cells) to its field starts harvesting.
pub const ORE_REACH_SQ: i128 = 6_250_000;
/// A harvester closer than this (squared: 3.5 cells) to a refinery unloads.
pub const REFINERY_REACH_SQ: i128 = 12_250_000;

/// An ore field.
#[derive(Clone, Debug)]
pub struct OreField {
    pub resource_id: String,
    pub amount: u32,
}

/// A point in space: its place on the ground plane and its height, both
/// in thousandths of a cell.
#[derive(Clone, Copy, Debug, PartialEq, Eq, Structural)]
pub struct Spot {
    pub pos: Pos,
    pub height: i32,
}

/// Squared distance in space, in millionths of a squared cell.
pub open spec fn spec_dist3_sq(a: Spot, b: Spot) -> int {
    spec_dist_sq(a.pos, b.pos) + (a.height - b.height) * (a.height - b.height)
}

impl Spot {
    /// Squared distance in space between two points.
    pub fn dist3_sq(&self, other: &Spot) -> (r: i128)
        ensures
            r == spec_dist3_sq(*self, *other),
    {
        let dx: i128 = self.pos.x as i128 - other.pos.x as i128;
        let dz: i128 = self.pos.z as i128 - other.pos.z as i128;
        let dy: i128 = self.height as i128 - other.height as i128;
        assert(0 <= dx * dx <= 0x1_0000_0000_0000_0000) by (nonlinear_arith)
            requires -0x1_0000_0000 <= dx <= 0x1_0000_0000;
        assert(0 <= dz * dz <= 0x1_0000_0000_0000_0000) by (nonlinear_arith)
            requires -0x1_0000_0000 <= dz <= 0x1_0000_0000;
        assert(0 <= dy * dy <= 0x1_0000_0000_0000_0000) by (nonlinear_arith)
            requires -0x1_0000_0000 <= dy <= 0x1_0000_0000;
        dx * dx + dz * dz + dy * dy
    }
}

/// An ore field as a harvester sees it.
#[derive(Clone, Copy, Debug, PartialEq, Eq, Structural)]
pub struct OreSite {
    pub entity: u64,
    pub spot: Spot,
    pub amount: u32,
}

/// What a harvester is doing.
#[derive(Clone, Copy, Debug, PartialEq, Eq, Structural)]
pub enum HarvesterState {
    Idle,
    SeekingNearestOre,
    MovingToOre(u64),
    Harvesting(u64),
    /// Heading home, remembering the field to come back to.
    ReturningToRefinery(Option<u64>),
}

/// A harvester: its state, its load, the time left until the next load,
/// and the time left before it may search a path again (milliseconds).
#[derive(Clone, Copy, Debug, PartialEq, Eq, Structural)]
pub struct Harvester {
    pub state: HarvesterState,
    pub carrying_ore: u32,
    pub capacity: u32,
    pub timer_ms: i64,
    pub path_retry_ms: i64,
}

impl Default for Harvester {
    fn default() -> (r: Harvester)
        ensures
            r == (Harvester { state: HarvesterState::Idle, carrying_ore: 0, capacity: DEFAULT_HARVESTER_CAPACITY, timer_ms: 0, path_retry_ms: 0 }),
    {
        Harvester { state: HarvesterState::Idle, carrying_ore: 0, capacity: DEFAULT_HARVESTER_CAPACITY, timer_ms: 0, path_retry_ms: 0 }
    }
}

/// Field `i` is the one nearest `p`, the first listed among equally near ones.
pub open spec fn spec_first_nearest_ore(ores: Seq<OreSite>, p: Spot, i: int) -> bool {
    &&& 0 <= i < ores.len()
    &&& forall|j: int| 0 <= j < ores.len() ==> {
        &&& spec_dist3_sq(ores[i].spot, p) <= spec_dist3_sq((#[trigger] ores[j]).spot, p)
        &&& (j < i ==> spec_dist3_sq(ores[i].spot, p) < spec_dist3_sq(ores[j].spot, p))
    }
}

/// The field nearest `p`, if there is any field.
pub open spec fn spec_nearest_ore(ores: Seq<OreSite>, p: Spot) -> Option<u64> {
    if ores.len() == 0 {
        None
    } else {
        Some(ores[choose|i: int| spec_first_nearest_ore(ores, p, i)].entity)
    }
}

/// The first index of the field with the given entity, or -1.
pub open spec fn spec_ore_index(ores: Seq<OreSite>, e: u64) -> int
    decreases ores.len(),
{
    if ores.len() == 0 {
        -1
    } else if ores[0].entity == e {
        0
    } else {
        let r = spec_ore_index(ores.subrange(1, ores.len() as int), e);
        if r < 0 { -1 } else { r + 1 }
    }
}

proof fn lemma_ore_index(ores: Seq<OreSite>, e: u64)
    ensures
        -1 <= spec_ore_index(ores, e) < ores.len(),
        spec_ore_index(ores, e) >= 0 ==> ores[spec_ore_index(ores, e)].entity == e,
        forall|j: int| 0 <= j < ores.len() && (spec_ore_index(ores, e) < 0 || j < spec_ore_index(ores, e))
            ==> (#[trigger] ores[j]).entity != e,
    decreases ores.len(),
{
    if ores.len() > 0 && ores[0].entity != e {
        let rest = ores.subrange(1, ores.len() as int);
        lemma_ore_index(rest, e);
        assert forall|j: int| 0 <= j < ores.len() && (spec_ore_index(ores, e) < 0 || j < spec_ore_index(ores, e))
            implies (#[trigger] ores[j]).entity != e by {
            if j > 0 {
                assert(ores[j] == rest[j - 1]);
            }
        }
    }
}

/// Where the field with the given entity is listed.
fn ore_index(ores: &Vec<OreSite>, e: u64) -> (r: Option<usize>)
    ensures
        spec_ore_index(ores@, e) < 0 ==> r is None,
        spec_ore_index(ores@, e) >= 0 ==> (r matches Some(i) && i == spec_ore_index(ores@, e)),
        r matches Some(i) ==> i < ores@.len(),
{
    proof { lemma_ore_index(ores@, e); }
    let mut i: usize = 0;
    while i < ores.len()
        invariant
            i <= ores@.len(),
            forall|j: int| 0 <= j < i ==> (#[trigger] ores@[j]).entity != e,
        decreases ores@.len() - i,
    {
        if ores[i].entity == e {
            proof { lemma_ore_index(ores@, e); }
            return Some(i);
        }
        i = i + 1;
    }
    proof { lemma_ore_index(ores@, e); }
    None
}

proof fn lemma_first_nearest_ore_unique(ores: Seq<OreSite>, p: Spot, i: int, j: int)
    requires
        spec_first_nearest_ore(ores, p, i),
        spec_first_nearest_ore(ores, p, j),
    ensures
        i == j,
{
    let a = ores[i];
    let b = ores[j];
}

/// The field nearest `p`.
fn nearest_ore(ores: &Vec<OreSite>, p: Spot) -> (r: Option<u64>)
    ensures
        r == spec_nearest_ore(ores@, p),
{
    if ores.len() == 0 {
        return None;
    }
    let mut best: usize = 0;
    let mut best_d: i128 = ores[0].spot.dist3_sq(&p);
    let mut j: usize = 1;
    while j < ores.len()
        invariant
            1 <= j <= ores@.len(),
            best < j,
            best_d == spec_dist3_sq(ores@[best as int].spot, p),
            forall|m: int| 0 <= m < j ==> {
                &&& best_d <= spec_dist3_sq((#[trigger] ores@[m]).spot, p)
                &&& (m < best ==> best_d < spec_dist3_sq(ores@[m].spot, p))
            },
        decreases ores@.len() - j,
    {
        let d = ores[j].spot.dist3_sq(&p);
        if d < best_d {
            best = j;
            best_d = d;
        }
        j = j + 1;
    }
    proof {
        assert(spec_first_nearest_ore(ores@, p, best as int));
        let c = choose|i: int| spec_first_nearest_ore(ores@, p, i);
        lemma_first_nearest_ore_unique(ores@, p, best as int, c);
    }
    Some(ores[best].entity)
}

/// Refinery `i` is the one nearest `p`, the first listed among equally near ones.
pub open spec fn spec_first_nearest_spot(spots: Seq<Spot>, p: Spot, i: int) -> bool {
    &&& 0 <= i < spots.len()
    &&& forall|j: int| 0 <= j < spots.len() ==> {
        &&& spec_dist3_sq(spots[i], p) <= spec_dist3_sq(#[trigger] spots[j], p)
        &&& (j < i ==> spec_dist3_sq(spots[i], p) < spec_dist3_sq(spots[j], p))
    }
}

/// The refinery nearest `p`, if there is any.
pub open spec fn spec_nearest_spot(spots: Seq<Spot>, p: Spot) -> Option<Spot> {
    if spots.len() == 0 {
        None
    } else {
        Some(spots[choose|i: int| spec_first_nearest_spot(spots, p, i)])
    }
}

/// The refinery nearest `p`.
fn nearest_refinery(refineries: &Vec<Spot>, p: Spot) -> (r: Option<Spot>)
    ensures
        r == spec_nearest_spot(refineries@, p),
{
    if refineries.len() == 0 {
        return None;
    }
    let mut best: usize = 0;
    let mut best_d: i128 = refineries[0].dist3_sq(&p);
    let mut j: usize = 1;
    while j < refineries.len()
        invariant
            1 <= j <= refineries@.len(),
            best < j,
            best_d == spec_dist3_sq(refineries@[best as int], p),
            forall|m: int| 0 <= m < j ==> {
                &&& best_d <= spec_dist3_sq(#[trigger] refineries@[m], p)
                &&& (m < best ==> best_d < spec_dist3_sq(refineries@[m], p))
            },
        decreases refineries@.len() - j,
    {
        let d = refineries[j].dist3_sq(&p);
        if d < best_d {
            best = j;
            best_d = d;
        }
        j = j + 1;
    }
    proof {
        assert(spec_first_nearest_spot(refineries@, p, best as int));
        let c = choose|i: int| spec_first_nearest_spot(refineries@, p, i);
        assert(spec_first_nearest_spot(refineries@, p, c));
        let a = refineries@[best as int];
        let b = refineries@[c];
    }
    Some(refineries[best])
}


/// `a - b`, clamped to the range of `i64`.
pub open spec fn spec_sat_sub(a: i64, b: i64) -> i64 {
    if a - b < i64::MIN { i64::MIN } else if a - b > i64::MAX { i64::MAX } else { (a - b) as i64 }
}

/// `a - b`, clamped to the range of `i64`.
pub fn sat_sub(a: i64, b: i64) -> (r: i64)
    ensures
        r == spec_sat_sub(a, b),
{
    let d: i128 = a as i128 - b as i128;
    if d < i64::MIN as i128 {
        i64::MIN
    } else if d > i64::MAX as i128 {
        i64::MAX
    } else {
        d as i64
    }
}

/// What one tick does to a harvester before any path search: its new
/// state, whether its current path is dropped, where it searches a path
/// to (if anywhere), the field it took ore from with what remains there,
/// and the ore it unloads.
pub open spec fn spec_harvester_plan(h: Harvester, me: Spot, ores: Seq<OreSite>, refineries: Seq<Spot>, has_path: bool, delta_ms: i64)
    -> (Harvester, bool, Option<Pos>, Option<(u64, u32)>, u32)
{
    match h.state {
        HarvesterState::Idle => (h, false, None, None, 0),
        HarvesterState::SeekingNearestOre => match spec_nearest_ore(ores, me) {
            Some(e) => (Harvester { state: HarvesterState::MovingToOre(e), ..h }, false, None, None, 0),
            None => (Harvester { state: HarvesterState::Idle, ..h }, false, None, None, 0),
        },
        HarvesterState::MovingToOre(e) => {
            let i = spec_ore_index(ores, e);
            if i < 0 {
                (Harvester { state: HarvesterState::SeekingNearestOre, path_retry_ms: 0, ..h }, false, None, None, 0)
            } else if spec_dist3_sq(ores[i].spot, me) < ORE_REACH_SQ {
                (Harvester { state: HarvesterState::Harvesting(e), timer_ms: HARVEST_INTERVAL_MS, path_retry_ms: 0, ..h }, true, None, None, 0)
            } else {
                let retry = spec_sat_sub(h.path_retry_ms, delta_ms);
                (Harvester { path_retry_ms: retry, ..h }, false, if !has_path && retry <= 0 { Some(ores[i].spot.pos) } else { None }, None, 0)
            }
        },
        HarvesterState::Harvesting(e) => {
            let i = spec_ore_index(ores, e);
            if i < 0 {
                (Harvester { state: HarvesterState::SeekingNearestOre, ..h }, false, None, None, 0)
            } else {
                let t = spec_sat_sub(h.timer_ms, delta_ms);
                if t > 0 {
                    (Harvester { timer_ms: t, ..h }, false, None, None, 0)
                } else {
                    let taken = if ores[i].amount < HARVEST_PER_LOAD { ores[i].amount } else { HARVEST_PER_LOAD };
                    let left = (ores[i].amount - taken) as u32;
                    let carrying = (h.carrying_ore + taken) as u32;
                    if carrying >= h.capacity {
                        (Harvester { state: HarvesterState::ReturningToRefinery(Some(e)), carrying_ore: carrying, timer_ms: t, ..h }, false, None, Some((e, left)), 0)
                    } else if left == 0 {
                        (Harvester { state: HarvesterState::SeekingNearestOre, carrying_ore: carrying, timer_ms: HARVEST_INTERVAL_MS, ..h }, false, None, Some((e, left)), 0)
                    } else {
                        (Harvester { carrying_ore: carrying, timer_ms: HARVEST_INTERVAL_MS, ..h }, false, None, Some((e, left)), 0)
                    }
                }
            }
        },
        HarvesterState::ReturningToRefinery(field) => match spec_nearest_spot(refineries, me) {
            None => (Harvester { state: HarvesterState::Idle, ..h }, false, None, None, 0),
            Some(r) => if spec_dist3_sq(r, me) < REFINERY_REACH_SQ {
                let next = match field {
                    Some(e) => HarvesterState::MovingToOre(e),
                    None => HarvesterState::SeekingNearestOre,
                };
                (Harvester { state: next, carrying_ore: 0, ..h }, true, None, None, h.carrying_ore)
            } else {
                let retry = spec_sat_sub(h.path_retry_ms, delta_ms);
                (Harvester { path_retry_ms: retry, ..h }, false, if !has_path && retry <= 0 { Some(r.pos) } else { None }, None, 0)
            },
        },
    }
}

/// The harvester's part of a tick: updates the harvester and returns
/// whether its path is dropped, where it searches a path to, the field it
/// harvested with what remains, and the ore it unloads.
fn harvester_plan(
    h: &mut Harvester,
    me: Spot,
    ores: &Vec<OreSite>,
    refineries: &Vec<Spot>,
    has_path: bool,
    delta_ms: i64,
) -> (r: (bool, Option<Pos>, Option<(u64, u32)>, u32))
    requires
        old(h).state is Harvesting ==> old(h).carrying_ore + HARVEST_PER_LOAD <= u32::MAX,
    ensures
        ({
            let plan = spec_harvester_plan(*old(h), me, ores@, refineries@, has_path, delta_ms);
            &&& *final(h) == plan.0
            &&& r.0 == plan.1
            &&& r.1 == plan.2
            &&& r.2 == plan.3
            &&& r.3 == plan.4
        }),
{
    let mut clear_path = false;
    let mut search: Option<Pos> = None;
    let mut ore_left: Option<(u64, u32)> = None;
    let mut load: u32 = 0;
    match h.state {
        HarvesterState::Idle => {},
        HarvesterState::SeekingNearestOre => {
            match nearest_ore(ores, me) {
                Some(e) => h.state = HarvesterState::MovingToOre(e),
                None => h.state = HarvesterState::Idle,
            }
        },
        HarvesterState::MovingToOre(e) => {
            match ore_index(ores, e) {
                None => {
                    h.state = HarvesterState::SeekingNearestOre;
                    h.path_retry_ms = 0;
                },
                Some(i) => {
                    if ores[i].spot.dist3_sq(&me) < ORE_REACH_SQ {
                        clear_path = true;
                        h.state = HarvesterState::Harvesting(e);
                        h.timer_ms = HARVEST_INTERVAL_MS;
                        h.path_retry_ms = 0;
                    } else {
                        h.path_retry_ms = sat_sub(h.path_retry_ms, delta_ms);
                        if !has_path && h.path_retry_ms <= 0 {
                            search = Some(ores[i].spot.pos);
                        }
                    }
                },
            }
        },
        HarvesterState::Harvesting(e) => {
            match ore_index(ores, e) {
                None => h.state = HarvesterState::SeekingNearestOre,
                Some(i) => {
                    h.timer_ms = sat_sub(h.timer_ms, delta_ms);
                    if h.timer_ms <= 0 {
                        let amount = ores[i].amount;
                        let taken = if amount < HARVEST_PER_LOAD { amount } else { HARVEST_PER_LOAD };
                        let left = amount - taken;
                        h.carrying_ore = h.carrying_ore + taken;
                        ore_left = Some((e, left));
                        if h.carrying_ore >= h.capacity {
                            h.state = HarvesterState::ReturningToRefinery(Some(e));
                        } else if left == 0 {
                            h.state = HarvesterState::SeekingNearestOre;
                            h.timer_ms = HARVEST_INTERVAL_MS;
                        } else {
                            h.timer_ms = HARVEST_INTERVAL_MS;
                        }
                    }
                },
            }
        },
        HarvesterState::ReturningToRefinery(field) => {
            match nearest_refinery(refineries, me) {
                None => h.state = HarvesterState::Idle,
                Some(r) => {
                    if r.dist3_sq(&me) < REFINERY_REACH_SQ {
                        clear_path = true;
                        load = h.carrying_ore;
                        h.carrying_ore = 0;
                        h.state = match field {
                            Some(e) => HarvesterState::MovingToOre(e),
                            None => HarvesterState::SeekingNearestOre,
                        };
                    } else {
                        h.path_retry_ms = sat_sub(h.path_retry_ms, delta_ms);
                        if !has_path && h.path_retry_ms <= 0 {
                            search = Some(r.pos);
                        }
                    }
                },
            }
        },
    }
    (clear_path, search, ore_left, load)
}

/// What a harvester's tick asks of the world besides the harvester itself.
#[derive(Clone, Debug)]
pub struct HarvesterOutcome {
    /// Its current path is to be dropped.
    pub clear_path: bool,
    /// Whether it searched a path.
    pub searched: bool,
    /// The path it found, to follow from now on.
    pub new_path: Option<Vec<(i32, i32)>>,
    /// The field it took ore from and what remains there (an emptied
    /// field is to be removed).
    pub ore_left: Option<(u64, u32)>,
    /// The ore it unloaded.
    pub deposited: u32,
}

/// The players after `amount` is credited to the owner (if any).
pub open spec fn spec_after_deposit(players: Seq<Player>, owner: Option<usize>, amount: u32) -> Seq<Player> {
    match owner {
        Some(o) => {
            let i = spec_player_index(players, o);
            if i < 0 { players } else { players.update(i, Player { credits: (players[i].credits + amount) as u32, ..players[i] }) }
        },
        None => players,
    }
}

/// One tick of a harvester standing at `me`, with the given ore fields and
/// its owner's refineries (every refinery when it has no owner): an idle
/// harvester waits; a seeking one picks the nearest field; one moving to a
/// field starts harvesting within reach, else (pacing its searches) looks
/// for a path; a harvesting one takes a load every interval and heads home
/// when full (or seeks another field when this one runs out); a returning
/// one unloads at the nearest refinery within reach, crediting its owner,
/// then goes back to its field, else looks for a path there.
pub fn harvester_step(
    h: &mut Harvester,
    me: Spot,
    ores: &Vec<OreSite>,
    refineries: &Vec<Spot>,
    has_path: bool,
    owner: Option<usize>,
    players: &mut Players,
    grid: &Grid,
    delta_ms: i64,
) -> (r: HarvesterOutcome)
    requires
        grid.wf(),
        old(h).state is Harvesting ==> old(h).carrying_ore + HARVEST_PER_LOAD <= u32::MAX,
        ({
            let plan = spec_harvester_plan(*old(h), me, ores@, refineries@, has_path, delta_ms);
            owner is Some && spec_player_index(old(players).players@, owner->0) >= 0 ==>
                old(players).players@[spec_player_index(old(players).players@, owner->0)].credits + plan.4 <= u32::MAX
        }),
    ensures
        old(players).wf() ==> final(players).wf(),
        ({
            let plan = spec_harvester_plan(*old(h), me, ores@, refineries@, has_path, delta_ms);
            &&& r.clear_path == plan.1
            &&& r.ore_left == plan.3
            &&& r.deposited == plan.4
            &&& final(players).players@ == spec_after_deposit(old(players).players@, owner, plan.4)
            &&& match plan.2 {
                None => *final(h) == plan.0 && r.new_path is None && !r.searched,
                Some(dest) => r.searched && spec_path_answer(*grid, me.pos, dest, r.new_path)
                    && *final(h) == (Harvester { path_retry_ms: if r.new_path is Some { 0 } else { PATH_RETRY_MS }, ..plan.0 }),
            }
        }),
{
    let (clear_path, search, ore_left, load) = harvester_plan(h, me, ores, refineries, has_path, delta_ms);
    match owner {
        Some(o) => {
            match players.index_of(o) {
                Some(pi) => {
                    let credits = players.players[pi].credits;
                    players.players[pi].credits = credits + load;
                },
                None => {},
            }
        },
        None => {},
    }
    let mut out = HarvesterOutcome { clear_path, searched: false, new_path: None, ore_left, deposited: load };
    match search {
        None => {},
        Some(dest) => {
            out.searched = true;
            let path = find_path(me.pos, dest, grid);
            if path.is_some() {
                h.path_retry_ms = 0;
            } else {
                h.path_retry_ms = PATH_RETRY_MS;
            }
            out.new_path = path;
        },
    }
    out
}


/// The value paired with key `k` by the first pair of `links` that has it.
pub open spec fn spec_link(links: Seq<(u64, u64)>, k: u64) -> Option<u64>
    decreases links.len(),
{
    if links.len() == 0 {
        None
    } else if links[0].0 == k {
        Some(links[0].1)
    } else {
        spec_link(links.drop_first(), k)
    }
}

/// A harvester's state with the entities it names renamed through
/// `links` (as when a game is saved or loaded): a field that has no new
/// name sends the harvester back to seeking the nearest field, and a
/// remembered field without one is forgotten.
pub open spec fn spec_relinked(state: HarvesterState, links: Seq<(u64, u64)>) -> HarvesterState {
    match state {
        HarvesterState::MovingToOre(e) => match spec_link(links, e) {
            Some(n) => HarvesterState::MovingToOre(n),
            None => HarvesterState::SeekingNearestOre,
        },
        HarvesterState::Harvesting(e) => match spec_link(links, e) {
            Some(n) => HarvesterState::Harvesting(n),
            None => HarvesterState::SeekingNearestOre,
        },
        HarvesterState::ReturningToRefinery(Some(e)) => HarvesterState::ReturningToRefinery(spec_link(links, e)),
        _ => state,
    }
}

/// The new name of an entity (see `spec_link`).
fn link(links: &Vec<(u64, u64)>, k: u64) -> (r: Option<u64>)
    ensures
        r == spec_link(links@, k),
{
    let mut i: usize = 0;
    assert(links@.subrange(0, links@.len() as int) =~= links@);
    while i < links.len()
        invariant
            i <= links@.len(),
            spec_link(links@, k) == spec_link(links@.subrange(i as int, links@.len() as int), k),
        decreases links@.len() - i,
    {
        let ghost rest = links@.subrange(i as int, links@.len() as int);
        assert(rest.drop_first() =~= links@.subrange(i + 1, links@.len() as int));
        assert(rest[0] == links@[i as int]);
        if links[i].0 == k {
            return Some(links[i].1);
        }
        i = i + 1;
    }
    assert(links@.subrange(i as int, links@.len() as int).len() == 0);
    None
}

/// Renames the entities a harvester's state names (see `spec_relinked`).
pub fn relink_harvester_state(state: HarvesterState, links: &Vec<(u64, u64)>) -> (r: HarvesterState)
    ensures
        r == spec_relinked(state, links@),
{
    match state {
        HarvesterState::MovingToOre(e) => match link(links, e) {
            Some(n) => HarvesterState::MovingToOre(n),
            None => HarvesterState::SeekingNearestOre,
        },
        HarvesterState::Harvesting(e) => match link(links, e) {
            Some(n) => HarvesterState::Harvesting(n),
            None => HarvesterState::SeekingNearestOre,
        },
        HarvesterState::ReturningToRefinery(Some(e)) => HarvesterState::ReturningToRefinery(link(links, e)),
        _ => state,
    }
}


/// Among the first `n` refineries, one is nearest `p`: the first listed
/// among equally near ones.
proof fn lemma_nearest_spot_among(spots: Seq<Spot>, p: Spot, n: int) -> (i: int)
    requires
        1 <= n <= spots.len(),
    ensures
        0 <= i < n,
        forall|j: int| 0 <= j < n ==> {
            &&& spec_dist3_sq(spots[i], p) <= spec_dist3_sq(#[trigger] spots[j], p)
            &&& (j < i ==> spec_dist3_sq(spots[i], p) < spec_dist3_sq(spots[j], p))
        },
    decreases n,
{
    if n == 1 {
        0
    } else {
        let k = lemma_nearest_spot_among(spots, p, n - 1);
        if spec_dist3_sq(spots[n - 1], p) < spec_dist3_sq(spots[k], p) { n - 1 } else { k }
    }
}

/// Among the first `n` ore fields, one is nearest `p`: the first listed
/// among equally near ones.
proof fn lemma_nearest_ore_among(ores: Seq<OreSite>, p: Spot, n: int) -> (i: int)
    requires
        1 <= n <= ores.len(),
    ensures
        0 <= i < n,
        forall|j: int| 0 <= j < n ==> {
            &&& spec_dist3_sq(ores[i].spot, p) <= spec_dist3_sq((#[trigger] ores[j]).spot, p)
            &&& (j < i ==> spec_dist3_sq(ores[i].spot, p) < spec_dist3_sq(ores[j].spot, p))
        },
    decreases n,
{
    if n == 1 {
        0
    } else {
        let k = lemma_nearest_ore_among(ores, p, n - 1);
        if spec_dist3_sq(ores[n - 1].spot, p) < spec_dist3_sq(ores[k].spot, p) { n - 1 } else { k }
    }
}

/// A harvester heading home unloads whenever any refinery is within reach,
/// and only then: it unloads everything it carries and goes back to its
/// field. When none is within reach, the route it asks for leads to one of
/// the refineries, and no refinery is nearer to it than that one. With no
/// refinery at all it stops.
pub proof fn law_harvester_unloads_at_the_nearest_refinery(
    h: Harvester, me: Spot, ores: Seq<OreSite>, refineries: Seq<Spot>, has_path: bool, delta_ms: i64,
)
    requires
        h.state is ReturningToRefinery,
    ensures
        ({
            let plan = spec_harvester_plan(h, me, ores, refineries, has_path, delta_ms);
            let reachable = exists|j: int| 0 <= j < refineries.len() && spec_dist3_sq(#[trigger] refineries[j], me) < REFINERY_REACH_SQ;
            &&& refineries.len() == 0 ==> plan.0.state is Idle && plan.4 == 0 && !plan.1
            &&& plan.1 == reachable
            &&& reachable ==> plan.4 == h.carrying_ore && plan.0.carrying_ore == 0
            &&& !reachable ==> plan.4 == 0 && plan.0.carrying_ore == h.carrying_ore
            &&& plan.2 matches Some(q) ==> exists|j: int| 0 <= j < refineries.len() && (#[trigger] refineries[j]).pos == q
                && forall|k: int| 0 <= k < refineries.len() ==> spec_dist3_sq(refineries[j], me) <= spec_dist3_sq(#[trigger] refineries[k], me)
        }),
{
    if refineries.len() > 0 {
        let i = lemma_nearest_spot_among(refineries, me, refineries.len() as int);
        assert(spec_first_nearest_spot(refineries, me, i));
        let c = choose|c: int| spec_first_nearest_spot(refineries, me, c);
        assert(spec_first_nearest_spot(refineries, me, c));
        assert(spec_nearest_spot(refineries, me) == Some(refineries[c]));
        if exists|j: int| 0 <= j < refineries.len() && spec_dist3_sq(#[trigger] refineries[j], me) < REFINERY_REACH_SQ {
            let j = choose|j: int| 0 <= j < refineries.len() && spec_dist3_sq(#[trigger] refineries[j], me) < REFINERY_REACH_SQ;
            assert(spec_dist3_sq(refineries[c], me) <= spec_dist3_sq(refineries[j], me));
        }
    }
}

/// A harvester seeking ore heads for an ore field that no other field is
/// nearer than, and stops when there is none.
pub proof fn law_harvester_seeks_the_nearest_field(
    h: Harvester, me: Spot, ores: Seq<OreSite>, refineries: Seq<Spot>, has_path: bool, delta_ms: i64,
)
    requires
        h.state is SeekingNearestOre,
    ensures
        ({
            let plan = spec_harvester_plan(h, me, ores, refineries, has_path, delta_ms);
            &&& ores.len() == 0 ==> plan.0.state is Idle
            &&& ores.len() > 0 ==> exists|j: int| 0 <= j < ores.len() && plan.0.state == HarvesterState::MovingToOre((#[trigger] ores[j]).entity)
                && forall|k: int| 0 <= k < ores.len() ==> spec_dist3_sq(ores[j].spot, me) <= spec_dist3_sq((#[trigger] ores[k]).spot, me)
            &&& plan.4 == 0
        }),
{
    if ores.len() > 0 {
        let i = lemma_nearest_ore_among(ores, me, ores.len() as int);
        assert(spec_first_nearest_ore(ores, me, i));
        let c = choose|c: int| spec_first_nearest_ore(ores, me, c);
        assert(spec_first_nearest_ore(ores, me, c));
    }
}

} // verus!
