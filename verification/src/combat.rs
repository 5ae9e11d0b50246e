use vstd::prelude::*;
use crate::economy::{Spot, spec_dist3_sq, sat_sub, spec_sat_sub};
use crate::geometry::{Pos, spec_dist_sq};
use crate::grid::Grid;
use crate::group_move::spec_path_answer;
use crate::pathfinding::find_path;
use crate::player::{Player, Players, spec_player_index};

verus! {

/// Something an attacker might shoot at, as target acquisition sees it.
#[derive(Clone, Copy, Debug, PartialEq, Eq, Structural)]
pub struct AttackCandidate {
    pub entity: u64,
    pub spot: Spot,
    pub owner: usize,
    pub is_unit: bool,
    pub is_building: bool,
    /// Hidden by the fog of war.
    pub hidden: bool,
}

/// What an attacker is attacking now.
#[derive(Clone, Copy, Debug, PartialEq, Eq, Structural)]
pub enum HeldTarget {
    /// Nothing.
    Nothing,
    /// An entity that no longer exists as a target.
    Gone(u64),
    /// A target that still exists.
    Seen(AttackCandidate),
}

/// What target acquisition decides for one attacker.
#[derive(Clone, Copy, Debug, PartialEq, Eq, Structural)]
pub struct AutoAttack {
    /// Stop attacking the held target (it went out of sight).
    pub drop_target: bool,
    /// Attack this target instead.
    pub new_target: Option<u64>,
}

/// Two players are on the same team: by their teams when both exist, else
/// when they are the same player.
pub open spec fn spec_same_team(players: Seq<Player>, a: usize, b: usize) -> bool {
    let ia = spec_player_index(players, a);
    let ib = spec_player_index(players, b);
    if ia >= 0 && ib >= 0 {
        players[ia].team_id == players[ib].team_id
    } else {
        a == b
    }
}

/// Candidate `c` is an enemy in sight within range of an attacker of
/// `owner` standing at `me`, and of the wanted kind: a unit, or else a
/// building that is no unit.
pub open spec fn spec_fair_game(players: Seq<Player>, owner: usize, me: Spot, range: int, want_unit: bool, c: AttackCandidate) -> bool {
    &&& !spec_same_team(players, owner, c.owner)
    &&& !c.hidden
    &&& spec_dist3_sq(c.spot, me) <= range * range
    &&& if want_unit { c.is_unit } else { c.is_building && !c.is_unit }
}

/// Candidate `i` is fair game and the nearest such one, the first listed
/// among equally near ones.
pub open spec fn spec_first_nearest_candidate(
    cands: Seq<AttackCandidate>, players: Seq<Player>, owner: usize, me: Spot, range: int, want_unit: bool, i: int,
) -> bool {
    &&& 0 <= i < cands.len()
    &&& spec_fair_game(players, owner, me, range, want_unit, cands[i])
    &&& forall|j: int| 0 <= j < cands.len() && #[trigger] spec_fair_game(players, owner, me, range, want_unit, cands[j]) ==> {
        &&& spec_dist3_sq(cands[i].spot, me) <= spec_dist3_sq(cands[j].spot, me)
        &&& (j < i ==> spec_dist3_sq(cands[i].spot, me) < spec_dist3_sq(cands[j].spot, me))
    }
}

/// The nearest candidate that is fair game, if any.
pub open spec fn spec_pick(cands: Seq<AttackCandidate>, players: Seq<Player>, owner: usize, me: Spot, range: int, want_unit: bool) -> Option<u64> {
    if exists|i: int| spec_first_nearest_candidate(cands, players, owner, me, range, want_unit, i) {
        Some(cands[choose|i: int| spec_first_nearest_candidate(cands, players, owner, me, range, want_unit, i)].entity)
    } else {
        None
    }
}

/// Target acquisition for one attacker of `owner` at `me` with the given
/// weapon range: an attacker moving under orders with no target acquires
/// nothing, and one attacking a unit, or anything but a building, in sight
/// keeps it. Otherwise a target that went out of sight is dropped, and the
/// nearest enemy unit in range is sought among `nearby`; failing one, the
/// nearest enemy building in range among `nearby` and then `buildings`. A
/// unit found replaces a different held target; anything found is taken
/// when nothing was held; one building never replaces another.
pub open spec fn spec_auto_attack(
    held: HeldTarget, has_path: bool, me: Spot, range: int, owner: usize, players: Seq<Player>,
    nearby: Seq<AttackCandidate>, buildings: Seq<AttackCandidate>,
) -> AutoAttack {
    if held is Nothing && has_path {
        AutoAttack { drop_target: false, new_target: None }
    } else if held matches HeldTarget::Seen(c) && !c.hidden && !(c.is_building && !c.is_unit) {
        AutoAttack { drop_target: false, new_target: None }
    } else {
        let unit = spec_pick(nearby, players, owner, me, range, true);
        let best = if unit is Some { unit } else { spec_pick(nearby + buildings, players, owner, me, range, false) };
        let held_id: Option<u64> = match held {
            HeldTarget::Nothing => None,
            HeldTarget::Gone(t) => Some(t),
            HeldTarget::Seen(c) => Some(c.entity),
        };
        AutoAttack {
            drop_target: held matches HeldTarget::Seen(c) && c.hidden,
            new_target: match best {
                None => None,
                Some(b) => match held_id {
                    None => Some(b),
                    Some(t) => if unit is Some && t != b { Some(b) } else { None },
                },
            },
        }
    }
}

fn same_team(players: &Players, a: usize, b: usize) -> (r: bool)
    ensures
        r == spec_same_team(players.players@, a, b),
{
    match (players.index_of(a), players.index_of(b)) {
        (Some(ia), Some(ib)) => players.players[ia].team_id == players.players[ib].team_id,
        _ => a == b,
    }
}

proof fn lemma_first_nearest_candidate_unique(
    cands: Seq<AttackCandidate>, players: Seq<Player>, owner: usize, me: Spot, range: int, want_unit: bool, i: int, j: int,
)
    requires
        spec_first_nearest_candidate(cands, players, owner, me, range, want_unit, i),
        spec_first_nearest_candidate(cands, players, owner, me, range, want_unit, j),
    ensures
        i == j,
{
    assert(spec_fair_game(players, owner, me, range, want_unit, cands[i]));
    assert(spec_fair_game(players, owner, me, range, want_unit, cands[j]));
}

/// The nearest candidate that is fair game; among equally near ones, the
/// first listed.
fn pick(cands: &Vec<AttackCandidate>, players: &Players, owner: usize, me: Spot, range: u32, want_unit: bool) -> (r: Option<u64>)
    ensures
        r == spec_pick(cands@, players.players@, owner, me, range as int, want_unit),
{
    let r64 = range as i128;
    assert(0 <= r64 * r64 <= 0x1_0000_0000_0000_0000) by (nonlinear_arith)
        requires 0 <= r64 <= 0x1_0000_0000;
    let limit: i128 = r64 * r64;
    let ghost ps = players.players@;
    let ghost rg = range as int;
    let mut best: Option<usize> = None;
    let mut best_d: i128 = 0;
    let mut i: usize = 0;
    while i < cands.len()
        invariant
            i <= cands.len(),
            ps == players.players@,
            rg == range as int,
            limit == rg * rg,
            best is None ==> forall|j: int| 0 <= j < i ==> !#[trigger] spec_fair_game(ps, owner, me, rg, want_unit, cands@[j]),
            best matches Some(b) ==> {
                &&& b < i
                &&& spec_fair_game(ps, owner, me, rg, want_unit, cands@[b as int])
                &&& best_d == spec_dist3_sq(cands@[b as int].spot, me)
                &&& forall|j: int| 0 <= j < i && #[trigger] spec_fair_game(ps, owner, me, rg, want_unit, cands@[j]) ==> {
                    &&& best_d <= spec_dist3_sq(cands@[j].spot, me)
                    &&& (j < b ==> best_d < spec_dist3_sq(cands@[j].spot, me))
                }
            },
        decreases cands.len() - i,
    {
        let c = cands[i];
        let kind = if want_unit { c.is_unit } else { c.is_building && !c.is_unit };
        if kind && !c.hidden && !same_team(players, owner, c.owner) {
            let d = c.spot.dist3_sq(&me);
            if d <= limit {
                let better = match best {
                    None => true,
                    Some(_) => d < best_d,
                };
                if better {
                    best = Some(i);
                    best_d = d;
                }
            }
        }
        i = i + 1;
    }
    match best {
        None => {
            assert(!exists|k: int| spec_first_nearest_candidate(cands@, ps, owner, me, rg, want_unit, k));
            None
        },
        Some(b) => {
            assert(spec_first_nearest_candidate(cands@, ps, owner, me, rg, want_unit, b as int));
            let ghost k = choose|k: int| spec_first_nearest_candidate(cands@, ps, owner, me, rg, want_unit, k);
            proof { lemma_first_nearest_candidate_unique(cands@, ps, owner, me, rg, want_unit, b as int, k); }
            Some(cands[b].entity)
        },
    }
}

/// Target acquisition for one attacker (see `spec_auto_attack`): `nearby`
/// holds what the spatial hash returned around the attacker, `buildings`
/// every building.
pub fn auto_attack_logic(
    held: HeldTarget,
    has_path: bool,
    me: Spot,
    weapon_range: u32,
    owner: usize,
    players: &Players,
    nearby: &Vec<AttackCandidate>,
    buildings: &Vec<AttackCandidate>,
) -> (r: AutoAttack)
    ensures
        r == spec_auto_attack(held, has_path, me, weapon_range as int, owner, players.players@, nearby@, buildings@),
{
    let idle = match held {
        HeldTarget::Nothing => true,
        _ => false,
    };
    if idle && has_path {
        return AutoAttack { drop_target: false, new_target: None };
    }
    let mut drop_target = false;
    let mut held_id: Option<u64> = None;
    match held {
        HeldTarget::Nothing => {},
        HeldTarget::Gone(t) => {
            held_id = Some(t);
        },
        HeldTarget::Seen(c) => {
            if c.hidden {
                drop_target = true;
            } else if !(c.is_building && !c.is_unit) {
                return AutoAttack { drop_target: false, new_target: None };
            }
            held_id = Some(c.entity);
        },
    }
    let unit = pick(nearby, players, owner, me, weapon_range, true);
    let best = match unit {
        Some(u) => Some(u),
        None => {
            let mut all: Vec<AttackCandidate> = Vec::new();
            let mut i: usize = 0;
            while i < nearby.len()
                invariant
                    i <= nearby@.len(),
                    all@ == nearby@.subrange(0, i as int),
                decreases nearby@.len() - i,
            {
                all.push(nearby[i]);
                i = i + 1;
                assert(all@ == nearby@.subrange(0, i as int));
            }
            let mut j: usize = 0;
            while j < buildings.len()
                invariant
                    j <= buildings@.len(),
                    all@ == nearby@ + buildings@.subrange(0, j as int),
                decreases buildings@.len() - j,
            {
                all.push(buildings[j]);
                j = j + 1;
                assert(all@ == nearby@ + buildings@.subrange(0, j as int));
            }
            assert(all@ == nearby@ + buildings@);
            pick(&all, players, owner, me, weapon_range, false)
        },
    };
    let new_target = match best {
        None => None,
        Some(b) => match held_id {
            None => Some(b),
            Some(t) => if unit.is_some() && t != b { Some(b) } else { None },
        },
    };
    AutoAttack { drop_target, new_target }
}


/// An idle unit near a fight, as the call to join it sees it.
#[derive(Clone, Copy, Debug, PartialEq, Eq, Structural)]
pub struct IdleUnit {
    pub entity: u64,
    pub spot: Spot,
    pub owner: usize,
    /// How far it sees, in thousandths of a cell.
    pub vision_range: u32,
    /// Whether its weapon does any damage.
    pub armed: bool,
}

/// Idle unit `u` joins a fight of a unit of `owner` at `at`: same team,
/// armed, and the fighter within its sight.
pub open spec fn spec_joins(players: Seq<Player>, owner: usize, at: Spot, u: IdleUnit) -> bool {
    &&& spec_same_team(players, owner, u.owner)
    &&& u.armed
    &&& spec_dist3_sq(u.spot, at) <= (u.vision_range as int) * (u.vision_range as int)
}

/// The idle units, in order, that join the fight.
pub open spec fn spec_joiners(players: Seq<Player>, owner: usize, at: Spot, idle: Seq<IdleUnit>) -> Seq<u64>
    decreases idle.len(),
{
    if idle.len() == 0 {
        Seq::empty()
    } else {
        let rest = spec_joiners(players, owner, at, idle.drop_last());
        if spec_joins(players, owner, at, idle.last()) { rest.push(idle.last().entity) } else { rest }
    }
}

/// Idle armed units of the same team that see a fighting unit of `owner`
/// at `at` join its fight: they are told to attack its target.
pub fn join_fight_logic(owner: usize, at: Spot, players: &Players, nearby_idle: &Vec<IdleUnit>) -> (r: Vec<u64>)
    ensures
        r@ == spec_joiners(players.players@, owner, at, nearby_idle@),
{
    let mut out: Vec<u64> = Vec::new();
    let mut i: usize = 0;
    while i < nearby_idle.len()
        invariant
            i <= nearby_idle@.len(),
            out@ == spec_joiners(players.players@, owner, at, nearby_idle@.subrange(0, i as int)),
        decreases nearby_idle@.len() - i,
    {
        let u = nearby_idle[i];
        assert(nearby_idle@.subrange(0, i + 1).drop_last() == nearby_idle@.subrange(0, i as int));
        if same_team(players, owner, u.owner) && u.armed {
            let r = u.vision_range as i128;
            assert(0 <= r * r <= 0x1_0000_0000_0000_0000) by (nonlinear_arith)
                requires 0 <= r <= 0x1_0000_0000;
            if u.spot.dist3_sq(&at) <= r * r {
                out.push(u.entity);
            }
        }
        i = i + 1;
    }
    assert(nearby_idle@.subrange(0, i as int) == nearby_idle@);
    out
}


/// Seconds-free pacing of path searches towards a moving target: where the
/// target was at the last search, and the time left before the next one
/// may start (milliseconds).
#[derive(Clone, Copy, Debug, PartialEq, Eq, Structural)]
pub struct Pursuit {
    pub last_target: Pos,
    pub retry_ms: i64,
}

/// Milliseconds between two path searches of one pursuer.
pub const REPATH_COOLDOWN_MS: i64 = 350;

/// A target that moved farther than this (in thousandths of a cell) since
/// the last search is searched for again.
pub const TARGET_MOVED_MILLI: i64 = 1500;

/// What one attacker's tick decides, before any path search: its weapon
/// timer, whether it fires, whether it stops moving, its pursuit record,
/// where a path search goes (if one is due), and whether it gives up its
/// target (which no longer exists).
pub open spec fn spec_combat_plan(
    timer_ms: i64, cooldown_ms: i64, delta_ms: i64, me: Spot, range: u32, target: Option<Spot>, has_path: bool,
    pursuit: Option<Pursuit>,
) -> (i64, bool, bool, Option<Pursuit>, Option<Pos>, bool) {
    let t = spec_sat_sub(timer_ms, delta_ms);
    match target {
        None => (t, false, false, None, None, true),
        Some(at) => if spec_dist3_sq(me, at) <= (range as int) * (range as int) {
            if t <= 0 {
                (cooldown_ms, true, true, None, None, false)
            } else {
                (t, false, true, None, None, false)
            }
        } else {
            let record = match pursuit {
                Some(p) => p,
                None => Pursuit { last_target: at.pos, retry_ms: 0 },
            };
            let retry = if spec_sat_sub(record.retry_ms, delta_ms) > 0 { spec_sat_sub(record.retry_ms, delta_ms) } else { 0 };
            let moved = spec_dist_sq(at.pos, record.last_target) > TARGET_MOVED_MILLI * TARGET_MOVED_MILLI;
            if (!has_path || moved) && retry <= 0 {
                (t, false, false, Some(Pursuit { last_target: at.pos, retry_ms: REPATH_COOLDOWN_MS }), Some(at.pos), false)
            } else {
                (t, false, false, Some(Pursuit { last_target: record.last_target, retry_ms: retry }), None, false)
            }
        },
    }
}

/// What one attacker's tick asks of the world.
#[derive(Clone, Debug)]
pub struct CombatStep {
    /// The weapon timer afterwards (milliseconds).
    pub timer_ms: i64,
    /// A projectile leaves for the target.
    pub fire: bool,
    /// The attacker stops moving (its target is in range).
    pub clear_path: bool,
    /// The attacker's pursuit record afterwards; `None` drops it.
    pub pursuit: Option<Pursuit>,
    /// A path search towards the target took place.
    pub searched: bool,
    /// The path found, when a search took place and found one.
    pub new_path: Option<Vec<(i32, i32)>>,
    /// The attacker gives up its target: it no longer exists, or no path
    /// leads to it (then its path is dropped too).
    pub drop_target: bool,
}

/// One attacker's tick: the weapon timer runs down; with the target in
/// range the attacker stops, and fires when its weapon is ready; out of
/// range it chases the target, searching a path when it has none or the
/// target has moved, at most once per `REPATH_COOLDOWN_MS`; a target that
/// no longer exists, or that no path reaches, is given up.
pub fn combat_step(
    timer_ms: i64,
    cooldown_ms: i64,
    delta_ms: i64,
    me: Spot,
    range: u32,
    target: Option<Spot>,
    has_path: bool,
    pursuit: Option<Pursuit>,
    grid: &Grid,
) -> (r: CombatStep)
    requires
        grid.wf(),
    ensures
        ({
            let plan = spec_combat_plan(timer_ms, cooldown_ms, delta_ms, me, range, target, has_path, pursuit);
            &&& r.timer_ms == plan.0
            &&& r.fire == plan.1
            &&& r.clear_path == plan.2
            &&& r.pursuit == plan.3
            &&& match plan.4 {
                None => !r.searched && r.new_path is None && r.drop_target == plan.5,
                Some(dest) => r.searched && spec_path_answer(*grid, me.pos, dest, r.new_path)
                    && r.drop_target == (r.new_path is None),
            }
        }),
{
    let t = sat_sub(timer_ms, delta_ms);
    let at = match target {
        None => {
            return CombatStep { timer_ms: t, fire: false, clear_path: false, pursuit: None, searched: false, new_path: None, drop_target: true };
        },
        Some(at) => at,
    };
    let r = range as i128;
    assert(0 <= r * r <= 0x1_0000_0000_0000_0000) by (nonlinear_arith)
        requires 0 <= r <= 0x1_0000_0000;
    if me.dist3_sq(&at) <= r * r {
        if t <= 0 {
            return CombatStep { timer_ms: cooldown_ms, fire: true, clear_path: true, pursuit: None, searched: false, new_path: None, drop_target: false };
        }
        return CombatStep { timer_ms: t, fire: false, clear_path: true, pursuit: None, searched: false, new_path: None, drop_target: false };
    }
    let record = match pursuit {
        Some(p) => p,
        None => Pursuit { last_target: at.pos, retry_ms: 0 },
    };
    let left = sat_sub(record.retry_ms, delta_ms);
    let retry = if left > 0 { left } else { 0 };
    let moved = at.pos.dist_sq(&record.last_target) > (TARGET_MOVED_MILLI as i128) * (TARGET_MOVED_MILLI as i128);
    if (!has_path || moved) && retry <= 0 {
        let found = find_path(me.pos, at.pos, grid);
        let gone = found.is_none();
        CombatStep {
            timer_ms: t,
            fire: false,
            clear_path: false,
            pursuit: Some(Pursuit { last_target: at.pos, retry_ms: REPATH_COOLDOWN_MS }),
            searched: true,
            new_path: found,
            drop_target: gone,
        }
    } else {
        CombatStep {
            timer_ms: t,
            fire: false,
            clear_path: false,
            pursuit: Some(Pursuit { last_target: record.last_target, retry_ms: retry }),
            searched: false,
            new_path: None,
            drop_target: false,
        }
    }
}


/// Among the first `n` candidates, the nearest one that is fair game (the
/// first listed among equally near ones), if any is.
proof fn lemma_fair_nearest_among(
    cands: Seq<AttackCandidate>, players: Seq<Player>, owner: usize, me: Spot, range: int, want_unit: bool, n: int,
) -> (r: Option<int>)
    requires
        0 <= n <= cands.len(),
    ensures
        r is None ==> forall|j: int| 0 <= j < n ==> !#[trigger] spec_fair_game(players, owner, me, range, want_unit, cands[j]),
        r matches Some(i) ==> 0 <= i < n && spec_fair_game(players, owner, me, range, want_unit, cands[i])
            && forall|j: int| 0 <= j < n && #[trigger] spec_fair_game(players, owner, me, range, want_unit, cands[j]) ==> {
                &&& spec_dist3_sq(cands[i].spot, me) <= spec_dist3_sq(cands[j].spot, me)
                &&& (j < i ==> spec_dist3_sq(cands[i].spot, me) < spec_dist3_sq(cands[j].spot, me))
            },
    decreases n,
{
    if n == 0 {
        None
    } else {
        let prev = lemma_fair_nearest_among(cands, players, owner, me, range, want_unit, n - 1);
        let last = n - 1;
        if !spec_fair_game(players, owner, me, range, want_unit, cands[last]) {
            prev
        } else {
            match prev {
                None => Some(last),
                Some(k) => if spec_dist3_sq(cands[last].spot, me) < spec_dist3_sq(cands[k].spot, me) { Some(last) } else { Some(k) },
            }
        }
    }
}

/// What `spec_pick` finds: the nearest fair-game candidate when there is
/// one, nothing otherwise.
proof fn lemma_pick(cands: Seq<AttackCandidate>, players: Seq<Player>, owner: usize, me: Spot, range: int, want_unit: bool)
    ensures
        spec_pick(cands, players, owner, me, range, want_unit) is None
            <==> forall|j: int| 0 <= j < cands.len() ==> !#[trigger] spec_fair_game(players, owner, me, range, want_unit, cands[j]),
        spec_pick(cands, players, owner, me, range, want_unit) is Some ==> {
            let k = choose|i: int| spec_first_nearest_candidate(cands, players, owner, me, range, want_unit, i);
            &&& spec_first_nearest_candidate(cands, players, owner, me, range, want_unit, k)
            &&& spec_pick(cands, players, owner, me, range, want_unit) == Some(cands[k].entity)
        },
{
    let r = lemma_fair_nearest_among(cands, players, owner, me, range, want_unit, cands.len() as int);
    if let Some(i) = r {
        assert(spec_first_nearest_candidate(cands, players, owner, me, range, want_unit, i));
    } else {
        if exists|i: int| spec_first_nearest_candidate(cands, players, owner, me, range, want_unit, i) {
            let i = choose|i: int| spec_first_nearest_candidate(cands, players, owner, me, range, want_unit, i);
            assert(spec_fair_game(players, owner, me, range, want_unit, cands[i]));
        }
    }
}

/// An attacker only ever acquires an enemy it can see within its weapon
/// range: a unit of another team when one is in range and in sight (the
/// nearest such unit nearby), and otherwise a building of another team (the
/// nearest such building). Nothing farther than the range, nothing hidden
/// and nothing of its own team is ever acquired.
pub proof fn law_acquired_target_is_an_enemy_in_range(
    held: HeldTarget, has_path: bool, me: Spot, range: u32, owner: usize, players: Seq<Player>,
    nearby: Seq<AttackCandidate>, buildings: Seq<AttackCandidate>,
)
    ensures
        ({
            let a = spec_auto_attack(held, has_path, me, range as int, owner, players, nearby, buildings);
            let all = nearby + buildings;
            let unit_in_range = exists|j: int| 0 <= j < nearby.len() && (#[trigger] nearby[j]).is_unit && !nearby[j].hidden
                && !spec_same_team(players, owner, nearby[j].owner) && spec_dist3_sq(nearby[j].spot, me) <= (range as int) * (range as int);
            a.new_target matches Some(t) ==> exists|i: int| 0 <= i < all.len() && (#[trigger] all[i]).entity == t && {
                &&& !spec_same_team(players, owner, all[i].owner)
                &&& !all[i].hidden
                &&& spec_dist3_sq(all[i].spot, me) <= (range as int) * (range as int)
                &&& unit_in_range ==> i < nearby.len() && all[i].is_unit
                    && forall|j: int| 0 <= j < nearby.len() && (#[trigger] nearby[j]).is_unit && !nearby[j].hidden
                        && !spec_same_team(players, owner, nearby[j].owner)
                        && spec_dist3_sq(nearby[j].spot, me) <= (range as int) * (range as int)
                        ==> spec_dist3_sq(all[i].spot, me) <= spec_dist3_sq(nearby[j].spot, me)
                &&& !unit_in_range ==> all[i].is_building && !all[i].is_unit
                    && forall|j: int| 0 <= j < all.len() && (#[trigger] all[j]).is_building && !all[j].is_unit && !all[j].hidden
                        && !spec_same_team(players, owner, all[j].owner)
                        && spec_dist3_sq(all[j].spot, me) <= (range as int) * (range as int)
                        ==> spec_dist3_sq(all[i].spot, me) <= spec_dist3_sq(all[j].spot, me)
            }
        }),
{
    let rg = range as int;
    let all = nearby + buildings;
    lemma_pick(nearby, players, owner, me, rg, true);
    lemma_pick(all, players, owner, me, rg, false);
    let unit = spec_pick(nearby, players, owner, me, rg, true);
    let unit_in_range = exists|j: int| 0 <= j < nearby.len() && (#[trigger] nearby[j]).is_unit && !nearby[j].hidden
        && !spec_same_team(players, owner, nearby[j].owner) && spec_dist3_sq(nearby[j].spot, me) <= rg * rg;
    assert(unit_in_range == unit is Some) by {
        if unit_in_range {
            let j = choose|j: int| 0 <= j < nearby.len() && (#[trigger] nearby[j]).is_unit && !nearby[j].hidden
                && !spec_same_team(players, owner, nearby[j].owner) && spec_dist3_sq(nearby[j].spot, me) <= rg * rg;
            assert(spec_fair_game(players, owner, me, rg, true, nearby[j]));
        }
        if unit is Some {
            let k = choose|i: int| spec_first_nearest_candidate(nearby, players, owner, me, rg, true, i);
            assert(nearby[k].is_unit);
        }
    }
    let a = spec_auto_attack(held, has_path, me, rg, owner, players, nearby, buildings);
    if a.new_target is Some {
        if unit is Some {
            let k = choose|i: int| spec_first_nearest_candidate(nearby, players, owner, me, rg, true, i);
            assert(all[k] == nearby[k]);
            assert forall|j: int| 0 <= j < nearby.len() && (#[trigger] nearby[j]).is_unit && !nearby[j].hidden
                && !spec_same_team(players, owner, nearby[j].owner) && spec_dist3_sq(nearby[j].spot, me) <= rg * rg
                implies spec_dist3_sq(all[k].spot, me) <= spec_dist3_sq(nearby[j].spot, me) by {
                assert(spec_fair_game(players, owner, me, rg, true, nearby[j]));
            }
        } else {
            let k = choose|i: int| spec_first_nearest_candidate(all, players, owner, me, rg, false, i);
            assert forall|j: int| 0 <= j < all.len() && (#[trigger] all[j]).is_building && !all[j].is_unit && !all[j].hidden
                && !spec_same_team(players, owner, all[j].owner) && spec_dist3_sq(all[j].spot, me) <= rg * rg
                implies spec_dist3_sq(all[k].spot, me) <= spec_dist3_sq(all[j].spot, me) by {
                assert(spec_fair_game(players, owner, me, rg, false, all[j]));
            }
        }
    }
}

} // verus!
