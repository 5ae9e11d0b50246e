use vstd::prelude::*;
use crate::geometry::{Pos, spec_dist_sq};

verus! {

/// How many of the combat units closest to home stay behind to defend it.
pub const GARRISON_SIZE: usize = 2;
/// The smallest force the field army waits for before attacking.
pub const MIN_ATTACK_FORCE: usize = 4;
/// The largest force the field army ever waits for.
pub const MAX_ATTACK_FORCE_REQUIREMENT: usize = 12;
/// How close (in thousandths of a cell) an enemy must come before a
/// garrison unit engages it.
pub const HOME_DEFENSE_RANGE: i64 = 16000;
/// How close an enemy must come before a massing field unit engages it.
pub const ENGAGE_RANGE: i64 = 16000;
/// How close an enemy must come before a retreating unit turns to fight.
pub const CORNERED_RANGE: i64 = 10000;
/// Ticks the field army waits to mass its full force while ore remains.
pub const NORMAL_MASS_PATIENCE_TICKS: u32 = 40;
/// Ticks it waits once the map has no ore left.
pub const DESPERATION_PATIENCE_TICKS: u32 = 8;
/// The force that suffices once patience has run out.
pub const TIMEOUT_MIN_FORCE: usize = 2;
/// How far (in thousandths of a cell, along each axis) from home the army
/// masses before an attack.
pub const STAGING_OFFSET: i32 = 10000;
/// Units farther than this from the staging point (in thousandths of a
/// cell) are called back to it while massing.
pub const STAGING_SLACK: i64 = 6000;

/// Positions within this many thousandths of a cell of the origin.
pub open spec fn spec_pos_in_world(p: Pos) -> bool {
    -1_000_000_000 <= p.x <= 1_000_000_000 && -1_000_000_000 <= p.z <= 1_000_000_000
}

/// One of the computer player's combat units, as the commander sees it.
#[derive(Clone, Copy, Debug, PartialEq, Eq, Structural)]
pub struct CombatUnit {
    pub entity: u64,
    pub pos: Pos,
    /// What it is attacking now, if anything.
    pub target: Option<u64>,
    /// Whether it is following a path.
    pub moving: bool,
}

/// An enemy unit or building that may be attacked.
#[derive(Clone, Copy, Debug, PartialEq, Eq, Structural)]
pub struct EnemyTarget {
    pub entity: u64,
    pub pos: Pos,
    pub priority: i32,
}

/// The persistent state of one computer player's field army: it masses,
/// attacks, and pulls back to regroup when an attack goes badly.
/// While massing it counts the ticks it has waited.
#[derive(Clone, Copy, Debug, PartialEq, Eq, Structural)]
pub enum ArmyState {
    Massing { patience: u32 },
    Attacking { target: u64, peak_size: usize },
    Retreating { rally_point: Pos },
}

impl ArmyState {
    /// A freshly formed army: massing, having waited no tick.
    pub fn fresh_massing() -> (r: ArmyState)
        ensures
            r == (ArmyState::Massing { patience: 0 }),
    {
        ArmyState::Massing { patience: 0 }
    }
}

/// An enemy lies strictly within `range` thousandths of a cell of `p`.
pub open spec fn spec_in_range(p: Pos, e: EnemyTarget, range: int) -> bool {
    spec_dist_sq(e.pos, p) < range * range
}

/// Enemy `i` is the nearest to `p` among those in range, and no earlier
/// enemy in range is as near.
pub open spec fn spec_first_nearest(p: Pos, enemies: Seq<EnemyTarget>, range: int, i: int) -> bool {
    &&& 0 <= i < enemies.len()
    &&& spec_in_range(p, enemies[i], range)
    &&& forall|j: int| 0 <= j < enemies.len() && spec_in_range(p, #[trigger] enemies[j], range) ==> {
        &&& spec_dist_sq(enemies[i].pos, p) <= spec_dist_sq(enemies[j].pos, p)
        &&& (j < i ==> spec_dist_sq(enemies[i].pos, p) < spec_dist_sq(enemies[j].pos, p))
    }
}

/// The nearest enemy in range of `p` (the first listed among equally near
/// ones), if any is in range.
pub open spec fn spec_nearest_enemy(p: Pos, enemies: Seq<EnemyTarget>, range: int) -> Option<u64> {
    if exists|i: int| spec_first_nearest(p, enemies, range, i) {
        Some(enemies[choose|i: int| spec_first_nearest(p, enemies, range, i)].entity)
    } else {
        None
    }
}

proof fn lemma_first_nearest_unique(p: Pos, enemies: Seq<EnemyTarget>, range: int, i: int, j: int)
    requires
        spec_first_nearest(p, enemies, range, i),
        spec_first_nearest(p, enemies, range, j),
    ensures
        i == j,
{
    let ei = enemies[i];
    let ej = enemies[j];
}

/// The nearest enemy strictly within `range` thousandths of a cell of `p`;
/// among equally near ones, the first listed.
pub fn nearest_enemy(p: Pos, enemies: &Vec<EnemyTarget>, range: i64) -> (r: Option<u64>)
    requires
        0 <= range <= 0x1_0000_0000,
    ensures
        r == spec_nearest_enemy(p, enemies@, range as int),
        r is None <==> forall|j: int| 0 <= j < enemies@.len() ==> !spec_in_range(p, #[trigger] enemies@[j], range as int),
{
    assert(0 <= range * range <= 0x1_0000_0000_0000_0000) by (nonlinear_arith)
        requires 0 <= range <= 0x1_0000_0000;
    let limit: i128 = range as i128 * range as i128;
    let mut best: Option<usize> = None;
    let mut best_d: i128 = 0;
    let mut i: usize = 0;
    while i < enemies.len()
        invariant
            i <= enemies.len(),
            limit == range * range,
            best is None ==> forall|j: int| 0 <= j < i ==> !spec_in_range(p, #[trigger] enemies@[j], range as int),
            best matches Some(b) ==> {
                &&& b < i
                &&& spec_in_range(p, enemies@[b as int], range as int)
                &&& best_d == spec_dist_sq(enemies@[b as int].pos, p)
                &&& forall|j: int| 0 <= j < i && spec_in_range(p, #[trigger] enemies@[j], range as int) ==> {
                    &&& best_d <= spec_dist_sq(enemies@[j].pos, p)
                    &&& (j < b ==> best_d < spec_dist_sq(enemies@[j].pos, p))
                }
            },
        decreases enemies.len() - i,
    {
        let d = enemies[i].pos.dist_sq(&p);
        if d < limit {
            let better = match best {
                None => true,
                Some(_) => d < best_d,
            };
            if better {
                best = Some(i);
                best_d = d;
            }
        }
        i = i + 1;
    }
    match best {
        None => {
            assert(!exists|k: int| spec_first_nearest(p, enemies@, range as int, k));
            None
        },
        Some(b) => {
            assert(spec_first_nearest(p, enemies@, range as int, b as int));
            let ghost c = choose|k: int| spec_first_nearest(p, enemies@, range as int, k);
            proof { lemma_first_nearest_unique(p, enemies@, range as int, b as int, c); }
            Some(enemies[b].entity)
        },
    }
}


/// Unit `a`, listed at `ia`, comes before unit `b`, listed at `ib`, when
/// ordered by distance from home with ties kept in listed order.
pub open spec fn spec_closer_first(a: CombatUnit, ia: int, b: CombatUnit, ib: int, home: Pos) -> bool {
    spec_dist_sq(a.pos, home) < spec_dist_sq(b.pos, home)
        || (spec_dist_sq(a.pos, home) == spec_dist_sq(b.pos, home) && ia < ib)
}

/// `sorted` lists `units` by distance from home, nearest first, units at
/// equal distance in their listed order; `src[k]` is where `sorted[k]` was
/// listed.
pub open spec fn spec_sorted_by_distance(units: Seq<CombatUnit>, sorted: Seq<CombatUnit>, src: Seq<int>, home: Pos) -> bool {
    &&& sorted.len() == units.len()
    &&& src.len() == units.len()
    &&& forall|k: int| 0 <= k < src.len() ==> 0 <= #[trigger] src[k] < units.len() && sorted[k] == units[src[k]]
    &&& forall|k: int, l: int| 0 <= k < l < src.len() ==>
        spec_closer_first(sorted[k], #[trigger] src[k], sorted[l], #[trigger] src[l], home)
}

/// Lists units by distance from home, nearest first; units at equal
/// distance keep their order.
pub fn sort_by_distance(units: &Vec<CombatUnit>, home: Pos) -> (sorted: Vec<CombatUnit>)
    ensures
        exists|src: Seq<int>| spec_sorted_by_distance(units@, sorted@, src, home),
{
    let mut out: Vec<CombatUnit> = Vec::new();
    let ghost mut src: Seq<int> = Seq::empty();
    let mut i: usize = 0;
    while i < units.len()
        invariant
            i <= units.len(),
            out@.len() == i,
            src.len() == i,
            forall|k: int| 0 <= k < i ==> 0 <= #[trigger] src[k] < i && out@[k] == units@[src[k]],
            forall|k: int, l: int| 0 <= k < l < i ==>
                spec_closer_first(out@[k], #[trigger] src[k], out@[l], #[trigger] src[l], home),
        decreases units.len() - i,
    {
        let u = units[i];
        let key = u.pos.dist_sq(&home);
        let mut p: usize = out.len();
        while p > 0 && out[p - 1].pos.dist_sq(&home) > key
            invariant
                p <= out@.len(),
                out@.len() == i,
                key == spec_dist_sq(u.pos, home),
                forall|k: int| p <= k < out@.len() ==> spec_dist_sq((#[trigger] out@[k]).pos, home) > key,
            decreases p,
        {
            p = p - 1;
        }
        proof {
            assert forall|k: int| 0 <= k < p implies spec_dist_sq((#[trigger] out@[k]).pos, home) <= key by {
                if k < p - 1 {
                    assert(spec_closer_first(out@[k], src[k], out@[p - 1], src[p - 1], home));
                }
            }
        }
        let ghost old_out = out@;
        let ghost old_src = src;
        out.insert(p, u);
        proof {
            src = old_src.insert(p as int, i as int);
            assert forall|k: int| 0 <= k < i + 1 implies 0 <= #[trigger] src[k] < i + 1 && out@[k] == units@[src[k]] by {
                if k < p {
                    assert(src[k] == old_src[k]);
                } else if k > p {
                    assert(src[k] == old_src[k - 1]);
                }
            }
            assert forall|k: int, l: int| 0 <= k < l < i + 1 implies
                spec_closer_first(out@[k], #[trigger] src[k], out@[l], #[trigger] src[l], home) by {
                if l < p {
                    assert(old_src[k] == src[k] && old_src[l] == src[l]);
                    assert(spec_closer_first(old_out[k], old_src[k], old_out[l], old_src[l], home));
                } else if l == p {
                    assert(old_src[k] == src[k]);
                    assert(spec_dist_sq(old_out[k].pos, home) <= key);
                } else if k < p {
                    assert(old_src[k] == src[k] && old_src[l - 1] == src[l]);
                    assert(spec_closer_first(old_out[k], old_src[k], old_out[l - 1], old_src[l - 1], home));
                } else if k == p {
                    assert(old_src[l - 1] == src[l]);
                    assert(spec_dist_sq(old_out[l - 1].pos, home) > key);
                } else {
                    assert(old_src[k - 1] == src[k] && old_src[l - 1] == src[l]);
                    assert(spec_closer_first(old_out[k - 1], old_src[k - 1], old_out[l - 1], old_src[l - 1], home));
                }
            }
        }
        i = i + 1;
    }
    proof {
        assert(spec_sorted_by_distance(units@, out@, src, home));
    }
    out
}

/// Splits the combat units into the garrison, the `GARRISON_SIZE` (or
/// fewer) units nearest home, and the field army, the rest; both in order
/// of distance from home, ties in listed order.
pub fn split_garrison(units: &Vec<CombatUnit>, home: Pos) -> (r: (Vec<CombatUnit>, Vec<CombatUnit>))
    ensures
        r.0@.len() == if units@.len() < GARRISON_SIZE { units@.len() } else { GARRISON_SIZE as nat },
        exists|src: Seq<int>| spec_sorted_by_distance(units@, r.0@ + r.1@, src, home),
{
    let sorted = sort_by_distance(units, home);
    let mut garrison: Vec<CombatUnit> = Vec::new();
    let mut field: Vec<CombatUnit> = Vec::new();
    let mut i: usize = 0;
    while i < sorted.len()
        invariant
            i <= sorted@.len(),
            garrison@.len() == if i < GARRISON_SIZE { i as nat } else { GARRISON_SIZE as nat },
            garrison@ + field@ == sorted@.subrange(0, i as int),
        decreases sorted.len() - i,
    {
        let ghost before = garrison@ + field@;
        if i < GARRISON_SIZE {
            assert(before.len() == garrison@.len() + field@.len());
            assert(before.len() == i);
            assert(field@.len() == 0);
            assert(garrison@ + field@ =~= garrison@);
            garrison.push(sorted[i]);
            assert(garrison@ + field@ =~= garrison@);
        } else {
            field.push(sorted[i]);
        }
        proof {
            assert(garrison@ + field@ =~= before.push(sorted@[i as int]));
            assert(garrison@ + field@ =~= sorted@.subrange(0, i + 1));
        }
        i = i + 1;
    }
    assert(garrison@ + field@ =~= sorted@);
    let ghost src = choose|src: Seq<int>| spec_sorted_by_distance(units@, sorted@, src, home);
    assert(spec_sorted_by_distance(units@, garrison@ + field@, src, home));
    let r = (garrison, field);
    assert(spec_sorted_by_distance(units@, r.0@ + r.1@, src, home));
    r
}


/// The entities of the units that `keep` selects, in listed order.
pub open spec fn spec_ids_where(units: Seq<CombatUnit>, keep: spec_fn(CombatUnit) -> bool) -> Seq<u64>
    decreases units.len(),
{
    if units.len() == 0 {
        Seq::empty()
    } else {
        let rest = spec_ids_where(units.drop_last(), keep);
        if keep(units.last()) { rest.push(units.last().entity) } else { rest }
    }
}

/// Every unit.
pub open spec fn keep_all() -> spec_fn(CombatUnit) -> bool {
    |u: CombatUnit| true
}

/// Units attacking nothing.
pub open spec fn keep_idle() -> spec_fn(CombatUnit) -> bool {
    |u: CombatUnit| u.target is None
}

/// The point near home where the field army masses.
pub open spec fn spec_staging_point(home: Pos) -> Pos {
    Pos { x: (home.x - STAGING_OFFSET) as i32, z: (home.z - STAGING_OFFSET) as i32 }
}

/// Idle, standing units too far from the staging point.
pub open spec fn keep_scattered(staging: Pos) -> spec_fn(CombatUnit) -> bool {
    |u: CombatUnit| u.target is None && !u.moving && spec_dist_sq(u.pos, staging) > STAGING_SLACK * STAGING_SLACK
}

/// Idle, standing units with no enemy close enough to turn and fight.
pub open spec fn keep_fleeing(enemies: Seq<EnemyTarget>) -> spec_fn(CombatUnit) -> bool {
    |u: CombatUnit| u.target is None && spec_nearest_enemy(u.pos, enemies, CORNERED_RANGE as int) is None && !u.moving
}

proof fn lemma_ids_where_step(units: Seq<CombatUnit>, i: int, keep: spec_fn(CombatUnit) -> bool)
    requires
        0 <= i < units.len(),
    ensures
        spec_ids_where(units.subrange(0, i + 1), keep) == if keep(units[i]) {
            spec_ids_where(units.subrange(0, i), keep).push(units[i].entity)
        } else {
            spec_ids_where(units.subrange(0, i), keep)
        },
{
    assert(units.subrange(0, i + 1).drop_last() =~= units.subrange(0, i));
}

/// Which units a selection keeps.
#[derive(Clone, Copy, Debug, PartialEq, Eq, Structural)]
enum Pick {
    All,
    Idle,
    Scattered,
    Fleeing,
}

spec fn spec_pick(pick: Pick, staging: Pos, enemies: Seq<EnemyTarget>) -> spec_fn(CombatUnit) -> bool {
    match pick {
        Pick::All => keep_all(),
        Pick::Idle => keep_idle(),
        Pick::Scattered => keep_scattered(staging),
        Pick::Fleeing => keep_fleeing(enemies),
    }
}

fn pick_ids(units: &Vec<CombatUnit>, pick: Pick, staging: Pos, enemies: &Vec<EnemyTarget>) -> (r: Vec<u64>)
    ensures
        r@ == spec_ids_where(units@, spec_pick(pick, staging, enemies@)),
{
    let ghost keep = spec_pick(pick, staging, enemies@);
    let mut out: Vec<u64> = Vec::new();
    let mut i: usize = 0;
    while i < units.len()
        invariant
            i <= units.len(),
            keep == spec_pick(pick, staging, enemies@),
            out@ == spec_ids_where(units@.subrange(0, i as int), keep),
        decreases units.len() - i,
    {
        let u = units[i];
        let kept = match pick {
            Pick::All => true,
            Pick::Idle => u.target.is_none(),
            Pick::Scattered => u.target.is_none() && !u.moving
                && u.pos.dist_sq(&staging) > STAGING_SLACK as i128 * STAGING_SLACK as i128,
            Pick::Fleeing => u.target.is_none() && nearest_enemy(u.pos, enemies, CORNERED_RANGE).is_none() && !u.moving,
        };
        assert(kept == keep(u));
        proof { lemma_ids_where_step(units@, i as int, keep); }
        if kept {
            out.push(u.entity);
        }
        i = i + 1;
    }
    assert(units@.subrange(0, units.len() as int) =~= units@);
    out
}

/// For each idle unit with an enemy in range, in listed order: the unit and
/// the nearest such enemy.
pub open spec fn spec_engagements(units: Seq<CombatUnit>, enemies: Seq<EnemyTarget>, range: int) -> Seq<(u64, u64)>
    decreases units.len(),
{
    if units.len() == 0 {
        Seq::empty()
    } else {
        let rest = spec_engagements(units.drop_last(), enemies, range);
        let u = units.last();
        match spec_nearest_enemy(u.pos, enemies, range) {
            Some(e) => if u.target is None { rest.push((u.entity, e)) } else { rest },
            None => rest,
        }
    }
}

/// Orders each idle unit to attack the nearest enemy within `range`, if any.
pub fn engagements(units: &Vec<CombatUnit>, enemies: &Vec<EnemyTarget>, range: i64) -> (r: Vec<(u64, u64)>)
    requires
        0 <= range <= 0x1_0000_0000,
    ensures
        r@ == spec_engagements(units@, enemies@, range as int),
{
    let mut out: Vec<(u64, u64)> = Vec::new();
    let mut i: usize = 0;
    while i < units.len()
        invariant
            i <= units.len(),
            0 <= range <= 0x1_0000_0000,
            out@ == spec_engagements(units@.subrange(0, i as int), enemies@, range as int),
        decreases units.len() - i,
    {
        let u = units[i];
        assert(units@.subrange(0, i + 1).drop_last() =~= units@.subrange(0, i as int));
        if u.target.is_none() {
            match nearest_enemy(u.pos, enemies, range) {
                Some(e) => out.push((u.entity, e)),
                None => {},
            }
        }
        i = i + 1;
    }
    assert(units@.subrange(0, units.len() as int) =~= units@);
    out
}


/// What the commander sees of the world on one tick, besides its own units.
#[derive(Clone, Debug)]
pub struct ArmyView {
    /// Every enemy unit and building, with how eagerly to attack it.
    pub enemies: Vec<EnemyTarget>,
    /// How many enemy combat units there are.
    pub enemy_combat_strength: usize,
    /// Whether any ore is left on the map.
    pub resources_available: bool,
    /// Where the construction yard stands.
    pub home: Pos,
    /// The best target for the field army as a whole, as scored from the
    /// field army's centre; `None` when there is no enemy or no field army.
    pub best_target: Option<u64>,
    /// Whether the field army stands, on average, within regrouping
    /// distance of the rally point it retreats to.
    pub regrouped: bool,
}

/// What the commander decides on one tick.
#[derive(Clone, Debug)]
pub struct ArmyOrders {
    /// The field army's state for the next tick.
    pub next: ArmyState,
    /// Single units told to attack single enemies, in order.
    pub engagements: Vec<(u64, u64)>,
    /// Units told to attack one target together.
    pub strike: Option<(Vec<u64>, u64)>,
    /// Units told to move to one point together.
    pub movement: Option<(Vec<u64>, Pos)>,
}

/// How large the field army must be before it attacks, having waited
/// `patience` ticks: four-fifths of the enemy's combat strength, but at least
/// `MIN_ATTACK_FORCE` and at most `MAX_ATTACK_FORCE_REQUIREMENT`; once
/// patience runs out (sooner when no ore is left), only `TIMEOUT_MIN_FORCE`.
pub open spec fn spec_required_force(strength: nat, patience: nat, resources_available: bool) -> nat {
    let max_patience = if resources_available { NORMAL_MASS_PATIENCE_TICKS } else { DESPERATION_PATIENCE_TICKS };
    if patience >= max_patience {
        TIMEOUT_MIN_FORCE as nat
    } else {
        let scaled = strength * 4 / 5;
        let at_least = if scaled > MIN_ATTACK_FORCE { scaled } else { MIN_ATTACK_FORCE as nat };
        if at_least < MAX_ATTACK_FORCE_REQUIREMENT { at_least } else { MAX_ATTACK_FORCE_REQUIREMENT as nat }
    }
}

/// The target an ongoing attack pursues: its target while that still
/// stands, else the best remaining one.
pub open spec fn spec_effective_target(target: u64, enemies: Seq<EnemyTarget>, best: Option<u64>) -> Option<u64> {
    if exists|i: int| 0 <= i < enemies.len() && (#[trigger] enemies[i]).entity == target {
        Some(target)
    } else if enemies.len() > 0 {
        best
    } else {
        None
    }
}

/// An attack that began with (at most) `peak` units and has `current` left
/// has lost more than 55% of its force.
pub open spec fn spec_heavy_losses(current: nat, peak: nat) -> bool {
    peak >= MIN_ATTACK_FORCE && 20 * current < 9 * peak
}

/// A massing army with `field` units, having now waited `patience` ticks,
/// is strong enough to attack and has someone to attack.
pub open spec fn spec_ready_to_strike(patience: nat, field: Seq<CombatUnit>, view: ArmyView) -> bool {
    field.len() >= spec_required_force(view.enemy_combat_strength as nat, patience, view.resources_available)
        && view.enemies@.len() > 0
}

/// The field army's next state.
pub open spec fn spec_next_army_state(state: ArmyState, garrison: Seq<CombatUnit>, field: Seq<CombatUnit>, view: ArmyView) -> ArmyState {
    if garrison.len() + field.len() == 0 {
        state
    } else {
        match state {
            ArmyState::Massing { patience } => {
                let waited = patience + 1;
                if spec_ready_to_strike(waited as nat, field, view) && view.best_target is Some {
                    ArmyState::Attacking { target: view.best_target->0, peak_size: field.len() as usize }
                } else {
                    ArmyState::Massing { patience: waited as u32 }
                }
            },
            ArmyState::Attacking { target, peak_size } => {
                let current = field.len();
                let peak = if peak_size >= current { peak_size as nat } else { current };
                let pursued = spec_effective_target(target, view.enemies@, view.best_target);
                if current == 0 || pursued is None {
                    ArmyState::Massing { patience: 0 }
                } else if spec_heavy_losses(current, peak) {
                    ArmyState::Retreating { rally_point: view.home }
                } else {
                    ArmyState::Attacking { target: pursued->0, peak_size: peak as usize }
                }
            },
            ArmyState::Retreating { rally_point } => {
                if field.len() == 0 || view.regrouped {
                    ArmyState::Massing { patience: 0 }
                } else {
                    state
                }
            },
        }
    }
}

/// The single-unit attack orders of a tick: the garrison defends home, and
/// a massing or retreating field army fights back where enemies come close.
pub open spec fn spec_army_engagements(state: ArmyState, garrison: Seq<CombatUnit>, field: Seq<CombatUnit>, view: ArmyView) -> Seq<(u64, u64)> {
    spec_engagements(garrison, view.enemies@, HOME_DEFENSE_RANGE as int) + match state {
        ArmyState::Massing { .. } => spec_engagements(field, view.enemies@, ENGAGE_RANGE as int),
        ArmyState::Attacking { .. } => Seq::empty(),
        ArmyState::Retreating { .. } => spec_engagements(field, view.enemies@, CORNERED_RANGE as int),
    }
}

/// The joint attack order of a tick: a massed army that is ready launches
/// its whole strength; an ongoing attack sends its idle units at its target.
pub open spec fn spec_army_strike(state: ArmyState, garrison: Seq<CombatUnit>, field: Seq<CombatUnit>, view: ArmyView) -> Option<(Seq<u64>, u64)> {
    if garrison.len() + field.len() == 0 {
        None
    } else {
        match state {
            ArmyState::Massing { patience } => {
                if spec_ready_to_strike((patience + 1) as nat, field, view) && view.best_target is Some {
                    Some((spec_ids_where(field, keep_all()), view.best_target->0))
                } else {
                    None
                }
            },
            ArmyState::Attacking { target, peak_size } => {
                let current = field.len();
                let peak = if peak_size >= current { peak_size as nat } else { current };
                let pursued = spec_effective_target(target, view.enemies@, view.best_target);
                let idle = spec_ids_where(field, keep_idle());
                if current > 0 && pursued is Some && !spec_heavy_losses(current, peak) && idle.len() > 0 {
                    Some((idle, pursued->0))
                } else {
                    None
                }
            },
            ArmyState::Retreating { .. } => None,
        }
    }
}

/// The joint move order of a tick: a massing army calls its scattered
/// units to the staging point, a beaten attack falls back home, and a
/// retreat keeps its fleeing units heading for the rally point.
pub open spec fn spec_army_movement(state: ArmyState, garrison: Seq<CombatUnit>, field: Seq<CombatUnit>, view: ArmyView) -> Option<(Seq<u64>, Pos)> {
    if garrison.len() + field.len() == 0 {
        None
    } else {
        match state {
            ArmyState::Massing { patience } => {
                let staging = spec_staging_point(view.home);
                let scattered = spec_ids_where(field, keep_scattered(staging));
                if !spec_ready_to_strike((patience + 1) as nat, field, view) && field.len() > 0 && scattered.len() > 0 {
                    Some((scattered, staging))
                } else {
                    None
                }
            },
            ArmyState::Attacking { target, peak_size } => {
                let current = field.len();
                let peak = if peak_size >= current { peak_size as nat } else { current };
                let pursued = spec_effective_target(target, view.enemies@, view.best_target);
                if current > 0 && pursued is Some && spec_heavy_losses(current, peak) {
                    Some((spec_ids_where(field, keep_all()), view.home))
                } else {
                    None
                }
            },
            ArmyState::Retreating { rally_point } => {
                let fleeing = spec_ids_where(field, keep_fleeing(view.enemies@));
                if field.len() > 0 && !view.regrouped && fleeing.len() > 0 {
                    Some((fleeing, rally_point))
                } else {
                    None
                }
            },
        }
    }
}

/// The order list of an optional joint order, as plain sequences.
pub open spec fn spec_strike_view(o: Option<(Vec<u64>, u64)>) -> Option<(Seq<u64>, u64)> {
    match o {
        Some((units, target)) => Some((units@, target)),
        None => None,
    }
}

/// The order list of an optional joint move, as plain sequences.
pub open spec fn spec_movement_view(o: Option<(Vec<u64>, Pos)>) -> Option<(Seq<u64>, Pos)> {
    match o {
        Some((units, dest)) => Some((units@, dest)),
        None => None,
    }
}

/// Whether the enemy `target` still stands.
fn target_alive(target: u64, enemies: &Vec<EnemyTarget>) -> (r: bool)
    ensures
        r == exists|i: int| 0 <= i < enemies@.len() && (#[trigger] enemies@[i]).entity == target,
{
    let mut i: usize = 0;
    while i < enemies.len()
        invariant
            i <= enemies.len(),
            forall|j: int| 0 <= j < i ==> (#[trigger] enemies@[j]).entity != target,
        decreases enemies.len() - i,
    {
        if enemies[i].entity == target {
            return true;
        }
        i = i + 1;
    }
    false
}

/// The required force, computed.
fn required_force(strength: usize, patience: u32, resources_available: bool) -> (r: usize)
    ensures
        r as nat == spec_required_force(strength as nat, patience as nat, resources_available),
{
    let max_patience = if resources_available { NORMAL_MASS_PATIENCE_TICKS } else { DESPERATION_PATIENCE_TICKS };
    if patience >= max_patience {
        TIMEOUT_MIN_FORCE
    } else {
        let scaled: u128 = strength as u128 * 4 / 5;
        let at_least: u128 = if scaled > MIN_ATTACK_FORCE as u128 { scaled } else { MIN_ATTACK_FORCE as u128 };
        if at_least < MAX_ATTACK_FORCE_REQUIREMENT as u128 { at_least as usize } else { MAX_ATTACK_FORCE_REQUIREMENT }
    }
}

/// One tick of a computer player's combat command. Its combat units come
/// split into the garrison, which defends home unit by unit, and the field
/// army, which masses until strong enough (or out of patience), attacks the
/// best target with reinforcements joining as they come, pulls back home
/// when it has lost more than 55% of its peak strength, and masses again
/// once regrouped. Nothing happens when it has no combat unit at all.
pub fn army_tick(state: ArmyState, garrison: &Vec<CombatUnit>, field: &Vec<CombatUnit>, view: &ArmyView) -> (r: ArmyOrders)
    requires
        state matches ArmyState::Massing { patience } ==> patience < u32::MAX,
        spec_pos_in_world(view.home),
    ensures
        r.next == spec_next_army_state(state, garrison@, field@, *view),
        r.engagements@ == spec_army_engagements(state, garrison@, field@, *view),
        spec_strike_view(r.strike) == spec_army_strike(state, garrison@, field@, *view),
        spec_movement_view(r.movement) == spec_army_movement(state, garrison@, field@, *view),
{
    let mut orders: Vec<(u64, u64)> = engagements(garrison, &view.enemies, HOME_DEFENSE_RANGE);
    if garrison.len() == 0 && field.len() == 0 {
        return ArmyOrders { next: state, engagements: orders, strike: None, movement: None };
    }
    let staging = Pos { x: view.home.x - STAGING_OFFSET, z: view.home.z - STAGING_OFFSET };
    match state {
        ArmyState::Massing { patience } => {
            let waited = patience + 1;
            let mut more = engagements(field, &view.enemies, ENGAGE_RANGE);
            orders.append(&mut more);
            let required = required_force(view.enemy_combat_strength, waited, view.resources_available);
            if field.len() >= required && view.enemies.len() > 0 {
                match view.best_target {
                    Some(target) => {
                        let units = pick_ids(field, Pick::All, staging, &view.enemies);
                        ArmyOrders {
                            next: ArmyState::Attacking { target, peak_size: field.len() },
                            engagements: orders,
                            strike: Some((units, target)),
                            movement: None,
                        }
                    },
                    None => ArmyOrders {
                        next: ArmyState::Massing { patience: waited },
                        engagements: orders,
                        strike: None,
                        movement: None,
                    },
                }
            } else {
                let scattered = pick_ids(field, Pick::Scattered, staging, &view.enemies);
                let movement = if field.len() > 0 && scattered.len() > 0 { Some((scattered, staging)) } else { None };
                ArmyOrders {
                    next: ArmyState::Massing { patience: waited },
                    engagements: orders,
                    strike: None,
                    movement,
                }
            }
        },
        ArmyState::Attacking { target, peak_size } => {
            let current = field.len();
            let peak = if peak_size >= current { peak_size } else { current };
            let pursued = if target_alive(target, &view.enemies) {
                Some(target)
            } else if view.enemies.len() > 0 {
                view.best_target
            } else {
                None
            };
            match pursued {
                None => ArmyOrders { next: ArmyState::Massing { patience: 0 }, engagements: orders, strike: None, movement: None },
                Some(pursued_target) => {
                    if current == 0 {
                        ArmyOrders { next: ArmyState::Massing { patience: 0 }, engagements: orders, strike: None, movement: None }
                    } else if peak >= MIN_ATTACK_FORCE && (20 * current as u128) < 9 * peak as u128 {
                        let units = pick_ids(field, Pick::All, staging, &view.enemies);
                        ArmyOrders {
                            next: ArmyState::Retreating { rally_point: view.home },
                            engagements: orders,
                            strike: None,
                            movement: Some((units, view.home)),
                        }
                    } else {
                        let idle = pick_ids(field, Pick::Idle, staging, &view.enemies);
                        let strike = if idle.len() > 0 { Some((idle, pursued_target)) } else { None };
                        ArmyOrders {
                            next: ArmyState::Attacking { target: pursued_target, peak_size: peak },
                            engagements: orders,
                            strike,
                            movement: None,
                        }
                    }
                },
            }
        },
        ArmyState::Retreating { rally_point } => {
            if field.len() == 0 {
                assert(spec_engagements(field@, view.enemies@, CORNERED_RANGE as int) =~= Seq::<(u64, u64)>::empty());
                assert(orders@ + Seq::<(u64, u64)>::empty() =~= orders@);
                return ArmyOrders { next: ArmyState::Massing { patience: 0 }, engagements: orders, strike: None, movement: None };
            }
            let mut more = engagements(field, &view.enemies, CORNERED_RANGE);
            orders.append(&mut more);
            let fleeing = pick_ids(field, Pick::Fleeing, staging, &view.enemies);
            if view.regrouped {
                ArmyOrders { next: ArmyState::Massing { patience: 0 }, engagements: orders, strike: None, movement: None }
            } else {
                let movement = if fleeing.len() > 0 { Some((fleeing, rally_point)) } else { None };
                ArmyOrders { next: state, engagements: orders, strike: None, movement }
            }
        },
    }
}


proof fn lemma_all_ids_len(units: Seq<CombatUnit>)
    ensures
        spec_ids_where(units, keep_all()).len() == units.len(),
    decreases units.len(),
{
    if units.len() > 0 {
        lemma_all_ids_len(units.drop_last());
    }
}

/// A massed army never attacks with fewer than `TIMEOUT_MIN_FORCE` units,
/// and, while its patience lasts, never with fewer than
/// `MIN_ATTACK_FORCE` (or four-fifths of the enemy's combat strength, up to
/// `MAX_ATTACK_FORCE_REQUIREMENT`); it attacks with its whole field army.
pub proof fn law_strike_needs_force(patience: u32, garrison: Seq<CombatUnit>, field: Seq<CombatUnit>, view: ArmyView)
    requires
        spec_army_strike(ArmyState::Massing { patience }, garrison, field, view) is Some,
    ensures
        ({
            let (units, target) = spec_army_strike(ArmyState::Massing { patience }, garrison, field, view)->0;
            let max_patience = if view.resources_available { NORMAL_MASS_PATIENCE_TICKS } else { DESPERATION_PATIENCE_TICKS };
            &&& units.len() == field.len()
            &&& units.len() >= TIMEOUT_MIN_FORCE
            &&& patience + 1 < max_patience ==> units.len() >= MIN_ATTACK_FORCE
            &&& Some(target) == view.best_target
            &&& spec_next_army_state(ArmyState::Massing { patience }, garrison, field, view)
                == (ArmyState::Attacking { target, peak_size: field.len() as usize })
        }),
{
    lemma_all_ids_len(field);
}

/// A massing army is never stuck: once it has waited out its patience, a
/// field army of `TIMEOUT_MIN_FORCE` units attacks whenever there is a target.
pub proof fn law_patience_runs_out(patience: u32, garrison: Seq<CombatUnit>, field: Seq<CombatUnit>, view: ArmyView)
    requires
        patience + 1 >= if view.resources_available { NORMAL_MASS_PATIENCE_TICKS } else { DESPERATION_PATIENCE_TICKS },
        field.len() >= TIMEOUT_MIN_FORCE,
        view.enemies@.len() > 0,
        view.best_target is Some,
    ensures
        spec_next_army_state(ArmyState::Massing { patience }, garrison, field, view)
            == (ArmyState::Attacking { target: view.best_target->0, peak_size: field.len() as usize }),
{
}

/// While it waits, a massing army counts the ticks it has waited.
pub proof fn law_massing_counts_ticks(patience: u32, garrison: Seq<CombatUnit>, field: Seq<CombatUnit>, view: ArmyView)
    requires
        garrison.len() + field.len() > 0,
        spec_army_strike(ArmyState::Massing { patience }, garrison, field, view) is None,
        patience < u32::MAX,
    ensures
        spec_next_army_state(ArmyState::Massing { patience }, garrison, field, view)
            == (ArmyState::Massing { patience: (patience + 1) as u32 }),
{
}

/// An attack that has lost more than 55% of its peak strength (of at least
/// `MIN_ATTACK_FORCE`) pulls its whole field army back home instead of
/// fighting to the last unit.
pub proof fn law_heavy_losses_retreat(target: u64, peak_size: usize, garrison: Seq<CombatUnit>, field: Seq<CombatUnit>, view: ArmyView)
    requires
        field.len() > 0,
        spec_effective_target(target, view.enemies@, view.best_target) is Some,
        peak_size >= MIN_ATTACK_FORCE,
        20 * field.len() < 9 * peak_size,
    ensures
        spec_next_army_state(ArmyState::Attacking { target, peak_size }, garrison, field, view)
            == (ArmyState::Retreating { rally_point: view.home }),
        spec_army_movement(ArmyState::Attacking { target, peak_size }, garrison, field, view)
            == Some((spec_ids_where(field, keep_all()), view.home)),
        spec_army_strike(ArmyState::Attacking { target, peak_size }, garrison, field, view) is None,
{
}

/// An attack whose field army is gone, or which has nothing left to
/// attack, stands down and masses afresh.
pub proof fn law_attack_stands_down(target: u64, peak_size: usize, garrison: Seq<CombatUnit>, field: Seq<CombatUnit>, view: ArmyView)
    requires
        garrison.len() + field.len() > 0,
        field.len() == 0 || view.enemies@.len() == 0,
    ensures
        spec_next_army_state(ArmyState::Attacking { target, peak_size }, garrison, field, view)
            == (ArmyState::Massing { patience: 0 }),
{
}

/// A retreat ends, and massing starts afresh, once the field army has
/// regrouped at the rally point or is gone.
pub proof fn law_retreat_regroups(rally_point: Pos, garrison: Seq<CombatUnit>, field: Seq<CombatUnit>, view: ArmyView)
    requires
        garrison.len() + field.len() > 0,
        field.len() == 0 || view.regrouped,
    ensures
        spec_next_army_state(ArmyState::Retreating { rally_point }, garrison, field, view)
            == (ArmyState::Massing { patience: 0 }),
        spec_army_movement(ArmyState::Retreating { rally_point }, garrison, field, view) is None,
{
}

/// An ongoing attack keeps its target while it stands and lets every idle
/// field unit, reinforcements included, join it.
pub proof fn law_attack_presses_on(target: u64, peak_size: usize, garrison: Seq<CombatUnit>, field: Seq<CombatUnit>, view: ArmyView, i: int)
    requires
        0 <= i < view.enemies@.len(),
        view.enemies@[i].entity == target,
        field.len() > 0,
        !spec_heavy_losses(field.len(), if peak_size >= field.len() { peak_size as nat } else { field.len() }),
        spec_ids_where(field, keep_idle()).len() > 0,
    ensures
        spec_next_army_state(ArmyState::Attacking { target, peak_size }, garrison, field, view)
            == (ArmyState::Attacking { target, peak_size: if peak_size >= field.len() { peak_size } else { field.len() as usize } }),
        spec_army_strike(ArmyState::Attacking { target, peak_size }, garrison, field, view)
            == Some((spec_ids_where(field, keep_idle()), target)),
{
    assert(view.enemies@[i].entity == target);
}

/// With no combat unit at all, the commander changes nothing and orders
/// nothing.
pub proof fn law_no_units_no_orders(state: ArmyState, view: ArmyView)
    ensures
        spec_next_army_state(state, Seq::empty(), Seq::empty(), view) == state,
        spec_army_engagements(state, Seq::empty(), Seq::empty(), view).len() == 0,
        spec_army_strike(state, Seq::empty(), Seq::empty(), view) is None,
        spec_army_movement(state, Seq::empty(), Seq::empty(), view) is None,
{
    reveal_with_fuel(spec_engagements, 2);
}


/// The commander's state after the first `n` of a series of ticks, each
/// given as the garrison, the field army and the view of that tick.
pub open spec fn spec_army_after(state: ArmyState, ticks: Seq<(Seq<CombatUnit>, Seq<CombatUnit>, ArmyView)>, n: nat) -> ArmyState
    decreases n,
{
    if n == 0 {
        state
    } else {
        let t = (n - 1) as nat;
        spec_next_army_state(spec_army_after(state, ticks, t), ticks[t as int].0, ticks[t as int].1, ticks[t as int].2)
    }
}

/// The most ticks a massing army that has already waited `patience` ticks
/// can still wait: what is left of its patience (the shorter one when no
/// ore is left on any of those ticks), and at least one.
pub open spec fn spec_massing_deadline(patience: u32, no_ore: bool) -> nat {
    let limit = if no_ore { DESPERATION_PATIENCE_TICKS } else { NORMAL_MASS_PATIENCE_TICKS };
    if patience < limit { (limit - patience) as nat } else { 1 }
}

/// A massing army never masses forever: while on every tick its field army
/// has at least `TIMEOUT_MIN_FORCE` units and there is an enemy to attack,
/// it attacks within `spec_massing_deadline(patience, no_ore)` ticks, where
/// `no_ore` may be set when no tick has ore left.
pub proof fn law_massing_ends(patience: u32, no_ore: bool, ticks: Seq<(Seq<CombatUnit>, Seq<CombatUnit>, ArmyView)>)
    requires
        patience < u32::MAX,
        ticks.len() >= spec_massing_deadline(patience, no_ore),
        forall|t: int| 0 <= t < ticks.len() ==> (#[trigger] ticks[t]).1.len() >= TIMEOUT_MIN_FORCE
            && ticks[t].2.enemies@.len() > 0 && ticks[t].2.best_target is Some
            && (no_ore ==> !ticks[t].2.resources_available),
    ensures
        exists|t: nat| 1 <= t <= spec_massing_deadline(patience, no_ore)
            && #[trigger] spec_army_after(ArmyState::Massing { patience }, ticks, t) is Attacking,
{
    lemma_massing_ends_from(patience, no_ore, ticks, 0);
}

proof fn lemma_massing_ends_from(patience: u32, no_ore: bool, ticks: Seq<(Seq<CombatUnit>, Seq<CombatUnit>, ArmyView)>, n: nat)
    requires
        patience < u32::MAX,
        ticks.len() >= spec_massing_deadline(patience, no_ore),
        forall|t: int| 0 <= t < ticks.len() ==> (#[trigger] ticks[t]).1.len() >= TIMEOUT_MIN_FORCE
            && ticks[t].2.enemies@.len() > 0 && ticks[t].2.best_target is Some
            && (no_ore ==> !ticks[t].2.resources_available),
        n < spec_massing_deadline(patience, no_ore),
        spec_army_after(ArmyState::Massing { patience }, ticks, n) == (ArmyState::Massing { patience: (patience + n) as u32 }),
    ensures
        exists|t: nat| 1 <= t <= spec_massing_deadline(patience, no_ore)
            && #[trigger] spec_army_after(ArmyState::Massing { patience }, ticks, t) is Attacking,
    decreases spec_massing_deadline(patience, no_ore) - n,
{
    let p = (patience + n) as u32;
    let tick = ticks[n as int];
    assert(tick.1.len() >= TIMEOUT_MIN_FORCE && tick.2.enemies@.len() > 0 && tick.2.best_target is Some);
    let next = spec_army_after(ArmyState::Massing { patience }, ticks, n + 1);
    assert(next == spec_next_army_state(ArmyState::Massing { patience: p }, tick.0, tick.1, tick.2));
    if next is Attacking {
        assert(spec_army_after(ArmyState::Massing { patience }, ticks, n + 1) is Attacking);
    } else {
        let max_patience = if tick.2.resources_available { NORMAL_MASS_PATIENCE_TICKS } else { DESPERATION_PATIENCE_TICKS };
        if p + 1 >= max_patience {
            law_patience_runs_out(p, tick.0, tick.1, tick.2);
            assert(false);
        }
        assert(next == (ArmyState::Massing { patience: (patience + (n + 1)) as u32 }));
        lemma_massing_ends_from(patience, no_ore, ticks, n + 1);
    }
}


/// Among the first `n` enemies, the nearest one in range of `p` (the first
/// listed among equally near ones), if any is in range.
proof fn lemma_nearest_in_range_among(p: Pos, enemies: Seq<EnemyTarget>, range: int, n: int) -> (r: Option<int>)
    requires
        0 <= n <= enemies.len(),
    ensures
        r is None ==> forall|j: int| 0 <= j < n ==> spec_dist_sq((#[trigger] enemies[j]).pos, p) >= range * range,
        r matches Some(i) ==> 0 <= i < n && spec_in_range(p, enemies[i], range)
            && forall|j: int| 0 <= j < n && spec_in_range(p, #[trigger] enemies[j], range) ==> {
                &&& spec_dist_sq(enemies[i].pos, p) <= spec_dist_sq(enemies[j].pos, p)
                &&& (j < i ==> spec_dist_sq(enemies[i].pos, p) < spec_dist_sq(enemies[j].pos, p))
            },
    decreases n,
{
    if n == 0 {
        None
    } else {
        let prev = lemma_nearest_in_range_among(p, enemies, range, n - 1);
        let last = n - 1;
        if !spec_in_range(p, enemies[last], range) {
            prev
        } else {
            match prev {
                None => Some(last),
                Some(k) => if spec_dist_sq(enemies[last].pos, p) < spec_dist_sq(enemies[k].pos, p) { Some(last) } else { Some(k) },
            }
        }
    }
}

/// The enemy a unit engages is one strictly within range of it, and no
/// enemy in range is nearer; a unit engages nothing only when no enemy is
/// within range.
pub proof fn law_engages_the_nearest_enemy_in_range(p: Pos, enemies: Seq<EnemyTarget>, range: int)
    ensures
        spec_nearest_enemy(p, enemies, range) is None
            <==> forall|j: int| 0 <= j < enemies.len() ==> spec_dist_sq((#[trigger] enemies[j]).pos, p) >= range * range,
        spec_nearest_enemy(p, enemies, range) matches Some(t) ==> exists|i: int| 0 <= i < enemies.len()
            && (#[trigger] enemies[i]).entity == t
            && spec_dist_sq(enemies[i].pos, p) < range * range
            && forall|j: int| 0 <= j < enemies.len() && spec_dist_sq((#[trigger] enemies[j]).pos, p) < range * range
                ==> spec_dist_sq(enemies[i].pos, p) <= spec_dist_sq(enemies[j].pos, p),
{
    let r = lemma_nearest_in_range_among(p, enemies, range, enemies.len() as int);
    match r {
        Some(i) => {
            assert(spec_first_nearest(p, enemies, range, i));
            let c = choose|c: int| spec_first_nearest(p, enemies, range, c);
            assert(spec_first_nearest(p, enemies, range, c));
            assert forall|j: int| 0 <= j < enemies.len() && spec_dist_sq((#[trigger] enemies[j]).pos, p) < range * range
                implies spec_dist_sq(enemies[c].pos, p) <= spec_dist_sq(enemies[j].pos, p) by {
                assert(spec_in_range(p, enemies[j], range));
            }
        },
        None => {
            if exists|i: int| spec_first_nearest(p, enemies, range, i) {
                let i = choose|i: int| spec_first_nearest(p, enemies, range, i);
                assert(spec_in_range(p, enemies[i], range));
            }
        },
    }
}

} // verus!
