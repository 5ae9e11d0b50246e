use vstd::prelude::*;
use crate::defs::{
    Definitions, spec_find, spec_building_ids, spec_unit_ids, spec_has_name, spec_requirements_met,
    contains_name, requirements_met, str_equals,
};
use crate::player::{Players, Player, spec_player_index};
use crate::buildings::{BuildingQueue, BuildingQueueEntry, ProductionQueue, PowerSystem};
use crate::grid::Grid;
use crate::placement::{spec_footprint_clear, footprint_clear, set_footprint_blocked};

verus! {

/// The credits of the player with the given id; none when there is no such player.
pub open spec fn spec_player_credits(players: Seq<Player>, player_id: usize) -> u32 {
    let i = spec_player_index(players, player_id);
    if i < 0 { 0 } else { players[i].credits }
}

/// The credits of a player.
pub fn get_player_credits(player_id: usize, players: &Players) -> (r: u32)
    ensures
        r == spec_player_credits(players.players@, player_id),
{
    match players.get(player_id) {
        Some(p) => p.credits,
        None => 0,
    }
}

/// Credits after a change by `delta`, clamped at zero and at the largest
/// balance.
pub open spec fn spec_changed_credits(credits: u32, delta: i32) -> u32 {
    if delta < 0 {
        if credits + delta >= 0 { (credits + delta) as u32 } else { 0 }
    } else {
        if credits + delta > u32::MAX { u32::MAX } else { (credits + delta) as u32 }
    }
}

/// The players after a credit change for one of them: the first player with
/// that id gets the changed balance; nothing changes when there is none.
pub open spec fn spec_after_credit_change(players: Seq<Player>, player_id: usize, delta: i32) -> Seq<Player> {
    let i = spec_player_index(players, player_id);
    if i < 0 {
        players
    } else {
        players.update(i, Player { credits: spec_changed_credits(players[i].credits, delta), ..players[i] })
    }
}

/// Changes a player's credits by `delta`, saturating at zero and at the
/// largest balance.
pub fn change_player_credits(player_id: usize, delta: i32, players: &mut Players)
    requires
        delta != i32::MIN,
    ensures
        final(players).players@ == spec_after_credit_change(old(players).players@, player_id, delta),
        old(players).wf() ==> final(players).wf(),
{
    match players.index_of(player_id) {
        None => {},
        Some(i) => {
            let credits = players.players[i].credits;
            let changed = if delta < 0 {
                credits.saturating_sub((-delta) as u32)
            } else {
                credits.saturating_add(delta as u32)
            };
            players.players[i].credits = changed;
        },
    }
    proof {
        if old(players).wf() {
            crate::player::lemma_same_ids_distinct(old(players).players@, players.players@);
        }
    }
}

/// A cost as the signed credit change that pays it.
pub open spec fn spec_charge(cost: u32) -> i32 {
    (-((cost as i32) as int)) as i32
}

/// Paying then refunding a cost that fits a signed balance change, or the
/// other way round, leaves a balance that stays in range unchanged.
pub proof fn law_refund_undoes_charge(credits: u32, cost: u32)
    requires
        cost <= i32::MAX,
        cost <= credits,
    ensures
        spec_changed_credits(spec_changed_credits(credits, spec_charge(cost)), cost as i32) == credits,
        spec_charge(cost) == -(cost as int),
{
}

/// Why a build order was or was not started.
#[derive(Clone, Copy, Debug, PartialEq, Eq, Structural)]
pub enum BuildOutcome {
    UnknownBuilding,
    Busy,
    RequirementsNotMet,
    NotEnoughCredits,
    Started,
}

/// Starts building `building_id` for a player whose construction queue is
/// `queue` and who owns the buildings `owned`: refused when the building is
/// unknown, the queue is busy (a building under way or waiting to be
/// placed), a prerequisite is missing, or the player cannot pay; otherwise
/// the cost is charged and the building starts from zero.
pub fn handle_build_command(
    queue: &mut BuildingQueue,
    players: &mut Players,
    definitions: &Definitions,
    owned: &Vec<String>,
    player_id: usize,
    building_id: &str,
) -> (r: BuildOutcome)
    requires
        spec_find(spec_building_ids(definitions.buildings@), building_id@) >= 0 ==>
            definitions.buildings@[spec_find(spec_building_ids(definitions.buildings@), building_id@)].cost != 0x8000_0000,
    ensures
        old(players).wf() ==> final(players).wf(),
        ({
            let di = spec_find(spec_building_ids(definitions.buildings@), building_id@);
            let def = definitions.buildings@[di];
            let credits = spec_player_credits(old(players).players@, player_id);
            let outcome = if di < 0 {
                BuildOutcome::UnknownBuilding
            } else if old(queue).current is Some || old(queue).ready is Some {
                BuildOutcome::Busy
            } else if !spec_requirements_met(def.requires, owned@) {
                BuildOutcome::RequirementsNotMet
            } else if credits < def.cost {
                BuildOutcome::NotEnoughCredits
            } else {
                BuildOutcome::Started
            };
            &&& r == outcome
            &&& r != BuildOutcome::Started ==> *final(queue) == *old(queue) && final(players).players@ == old(players).players@
            &&& r == BuildOutcome::Started ==> {
                &&& final(players).players@ == spec_after_credit_change(old(players).players@, player_id, spec_charge(def.cost))
                &&& final(queue).ready is None
                &&& final(queue).current matches Some(e) && e.building_id@ == building_id@
                    && e.progress_ms == 0 && e.build_time_ms == def.build_time_ms
            }
        }),
{
    let def = match definitions.building(building_id) {
        None => return BuildOutcome::UnknownBuilding,
        Some(d) => d,
    };
    if queue.current.is_some() || queue.ready.is_some() {
        return BuildOutcome::Busy;
    }
    if !requirements_met(&def.requires, owned) {
        return BuildOutcome::RequirementsNotMet;
    }
    let credits = get_player_credits(player_id, players);
    if credits < def.cost {
        return BuildOutcome::NotEnoughCredits;
    }
    proof {
        let di = spec_find(spec_building_ids(definitions.buildings@), building_id@);
        crate::defs::lemma_find(spec_building_ids(definitions.buildings@), building_id@);
        assert(definitions.buildings@[di].cost != 0x8000_0000);
    }
    let cost: u32 = def.cost;
    assert(cost != 0x8000_0000u32 ==> (cost as i32) != i32::MIN) by (bit_vector);
    let signed: i32 = cost as i32;
    change_player_credits(player_id, -signed, players);
    queue.current = Some(BuildingQueueEntry {
        building_id: building_id.to_string(),
        progress_ms: 0,
        build_time_ms: def.build_time_ms,
    });
    BuildOutcome::Started
}


/// A cost as the signed credit change that refunds it.
pub open spec fn spec_refund(cost: u32) -> i32 {
    cost as i32
}

/// Refunding a cost that fits a signed balance change gives back exactly
/// what paying it took.
pub proof fn law_cancel_refunds_build(credits: u32, cost: u32)
    requires
        cost <= i32::MAX,
        cost <= credits,
    ensures
        spec_changed_credits(spec_changed_credits(credits, spec_charge(cost)), spec_refund(cost)) == credits,
{
}

/// Cancels a building that is under way, or else one waiting to be
/// placed, when it is the named one, and refunds its cost. Returns whether
/// something was cancelled.
pub fn handle_cancel_build_command(
    queue: &mut BuildingQueue,
    players: &mut Players,
    definitions: &Definitions,
    player_id: usize,
    building_id: &str,
) -> (r: bool)
    requires
        spec_find(spec_building_ids(definitions.buildings@), building_id@) >= 0 ==>
            definitions.buildings@[spec_find(spec_building_ids(definitions.buildings@), building_id@)].cost != 0x8000_0000,
    ensures
        old(players).wf() ==> final(players).wf(),
        ({
            let di = spec_find(spec_building_ids(definitions.buildings@), building_id@);
            let def = definitions.buildings@[di];
            let cancels_current = (old(queue).current matches Some(e) && e.building_id@ == building_id@);
            let cancels_ready = old(queue).current is None && (old(queue).ready matches Some(id) && id@ == building_id@);
            &&& r == (di >= 0 && (cancels_current || cancels_ready))
            &&& !r ==> *final(queue) == *old(queue) && final(players).players@ == old(players).players@
            &&& r ==> final(players).players@ == spec_after_credit_change(old(players).players@, player_id, spec_refund(def.cost))
            &&& r && cancels_current ==> final(queue).current is None && final(queue).ready == old(queue).ready
            &&& r && cancels_ready ==> final(queue).ready is None && final(queue).current is None
        }),
{
    let def = match definitions.building(building_id) {
        None => return false,
        Some(d) => d,
    };
    proof {
        let di = spec_find(spec_building_ids(definitions.buildings@), building_id@);
        crate::defs::lemma_find(spec_building_ids(definitions.buildings@), building_id@);
        assert(definitions.buildings@[di].cost != 0x8000_0000);
    }
    let cost: u32 = def.cost;
    assert(cost != 0x8000_0000u32 ==> (cost as i32) != i32::MIN) by (bit_vector);
    let matches_current = match &queue.current {
        Some(entry) => Some(str_equals(entry.building_id.as_str(), building_id)),
        None => None,
    };
    match matches_current {
        Some(true) => {
            change_player_credits(player_id, cost as i32, players);
            queue.current = None;
            true
        },
        Some(false) => false,
        None => {
            let matches_ready = match &queue.ready {
                Some(id) => str_equals(id.as_str(), building_id),
                None => false,
            };
            if matches_ready {
                change_player_credits(player_id, cost as i32, players);
                queue.ready = None;
                true
            } else {
                false
            }
        },
    }
}

/// Empties the ready slot when it holds the named building.
pub fn handle_consume_ready_command(queue: &mut BuildingQueue, building_id: &str)
    ensures
        (old(queue).ready matches Some(id) && id@ == building_id@) ==> final(queue).ready is None,
        !(old(queue).ready matches Some(id) && id@ == building_id@) ==> final(queue).ready == old(queue).ready,
        final(queue).current == old(queue).current,
{
    let matches_ready = match &queue.ready {
        Some(id) => str_equals(id.as_str(), building_id),
        None => false,
    };
    if matches_ready {
        queue.ready = None;
    }
}

/// What became of an order to place a building.
#[derive(Clone, Copy, Debug, PartialEq, Eq, Structural)]
pub enum PlaceOutcome {
    UnknownBuilding,
    Blocked,
    Placed,
}

/// Places a building centred at `position`, unless its footprint is
/// blocked or covers a unit or an ore field: the player's ready building of
/// that id is consumed, the local player's power balance counts it, and its
/// footprint becomes blocked.
pub fn handle_place_building_command(
    grid: &mut Grid,
    queue: &mut BuildingQueue,
    power: &mut PowerSystem,
    definitions: &Definitions,
    units: &Vec<(i32, i32)>,
    ores: &Vec<(i32, i32)>,
    player_id: usize,
    local_player_id: usize,
    building_id: &str,
    position: crate::geometry::Pos,
) -> (r: PlaceOutcome)
    requires
        old(grid).wf(),
        ({
            let di = spec_find(spec_building_ids(definitions.buildings@), building_id@);
            di >= 0 && player_id == local_player_id ==> {
                &&& i32::MIN <= old(power).produced + definitions.buildings@[di].power_produced <= i32::MAX
                &&& i32::MIN <= old(power).consumed + definitions.buildings@[di].power_consumed <= i32::MAX
            }
        }),
    ensures
        final(grid).wf(),
        ({
            let di = spec_find(spec_building_ids(definitions.buildings@), building_id@);
            let def = definitions.buildings@[di];
            let m = crate::placement::spec_footprint_min(position, def.size);
            let min = (m.0 as i32, m.1 as i32);
            let outcome = if di < 0 {
                PlaceOutcome::UnknownBuilding
            } else if !spec_footprint_clear(*old(grid), min, def.size, units@, ores@) {
                PlaceOutcome::Blocked
            } else {
                PlaceOutcome::Placed
            };
            &&& r == outcome
            &&& r != PlaceOutcome::Placed ==> *final(grid) == *old(grid) && *final(queue) == *old(queue) && *final(power) == *old(power)
            &&& r == PlaceOutcome::Placed ==> {
                &&& final(queue).current == old(queue).current
                &&& (old(queue).ready matches Some(id) && id@ == building_id@) ==> final(queue).ready is None
                &&& !(old(queue).ready matches Some(id) && id@ == building_id@) ==> final(queue).ready == old(queue).ready
                &&& player_id == local_player_id ==> final(power).produced == old(power).produced + def.power_produced
                    && final(power).consumed == old(power).consumed + def.power_consumed
                &&& player_id != local_player_id ==> *final(power) == *old(power)
                &&& forall|x: int, z: int| old(grid).spec_in_bounds(x, z) ==> #[trigger] final(grid).cell_blocked(x, z) ==
                    if min.0 <= x < min.0 + def.size.0 && min.1 <= z < min.1 + def.size.1 { true } else { old(grid).cell_blocked(x, z) }
                &&& forall|x: int, z: int| old(grid).spec_in_bounds(x, z) ==> #[trigger] final(grid).cell_static_blocked(x, z) ==
                    if min.0 <= x < min.0 + def.size.0 && min.1 <= z < min.1 + def.size.1 { true } else { old(grid).cell_static_blocked(x, z) }
                &&& forall|x: int, z: int| old(grid).spec_in_bounds(x, z) ==> #[trigger] final(grid).cell_cost(x, z) == old(grid).cell_cost(x, z)
                &&& final(grid).spec_width() == old(grid).spec_width()
                &&& final(grid).spec_height() == old(grid).spec_height()
                &&& final(grid).spec_screen_width() == old(grid).spec_screen_width()
                &&& final(grid).spec_screen_height() == old(grid).spec_screen_height()
            }
        }),
{
    let def = match definitions.building(building_id) {
        None => return PlaceOutcome::UnknownBuilding,
        Some(d) => d,
    };
    let min = crate::placement::footprint_min(position, def.size);
    if !footprint_clear(grid, min, def.size, units, ores) {
        return PlaceOutcome::Blocked;
    }
    handle_consume_ready_command(queue, building_id);
    if player_id == local_player_id {
        power.add_building(def.power_produced, def.power_consumed);
    }
    set_footprint_blocked(grid, min, def.size, true);
    PlaceOutcome::Placed
}

/// Why a training order was or was not queued.
#[derive(Clone, Copy, Debug, PartialEq, Eq, Structural)]
pub enum TrainOutcome {
    UnknownUnit,
    WrongOwner,
    CannotProduce,
    RequirementsNotMet,
    NotEnoughCredits,
    Queued,
}

/// Queues a unit at a factory (owned by `building_owner`, of kind
/// `building_id`) for a player owning the buildings `owned`: refused when
/// the unit is unknown, the factory belongs to someone else, it cannot
/// produce the unit, a prerequisite is missing, or the player cannot pay;
/// otherwise the cost is charged and the unit joins the end of the queue.
pub fn handle_train_unit_command(
    queue: &mut ProductionQueue,
    building_owner: usize,
    building_id: &str,
    players: &mut Players,
    definitions: &Definitions,
    owned: &Vec<String>,
    player_id: usize,
    unit_id: &str,
) -> (r: TrainOutcome)
    requires
        spec_find(spec_unit_ids(definitions.units@), unit_id@) >= 0 ==>
            definitions.units@[spec_find(spec_unit_ids(definitions.units@), unit_id@)].cost != 0x8000_0000,
    ensures
        old(players).wf() ==> final(players).wf(),
        ({
            let ui = spec_find(spec_unit_ids(definitions.units@), unit_id@);
            let def = definitions.units@[ui];
            let credits = spec_player_credits(old(players).players@, player_id);
            let outcome = if ui < 0 {
                TrainOutcome::UnknownUnit
            } else if building_owner != player_id {
                TrainOutcome::WrongOwner
            } else if !spec_has_name(def.produced_by@, building_id@) {
                TrainOutcome::CannotProduce
            } else if !spec_requirements_met(def.requires, owned@) {
                TrainOutcome::RequirementsNotMet
            } else if credits < def.cost {
                TrainOutcome::NotEnoughCredits
            } else {
                TrainOutcome::Queued
            };
            &&& r == outcome
            &&& r != TrainOutcome::Queued ==> final(queue).queue@ == old(queue).queue@ && final(players).players@ == old(players).players@
            &&& r == TrainOutcome::Queued ==> {
                &&& final(players).players@ == spec_after_credit_change(old(players).players@, player_id, spec_charge(def.cost))
                &&& final(queue).queue@.len() == old(queue).queue@.len() + 1
                &&& final(queue).queue@.drop_last() == old(queue).queue@
                &&& final(queue).queue@.last()@ == unit_id@
            }
            &&& final(queue).progress_ms == old(queue).progress_ms
        }),
{
    let def = match definitions.unit(unit_id) {
        None => return TrainOutcome::UnknownUnit,
        Some(d) => d,
    };
    if building_owner != player_id {
        return TrainOutcome::WrongOwner;
    }
    if !contains_name(&def.produced_by, building_id) {
        return TrainOutcome::CannotProduce;
    }
    if !requirements_met(&def.requires, owned) {
        return TrainOutcome::RequirementsNotMet;
    }
    let credits = get_player_credits(player_id, players);
    if credits < def.cost {
        return TrainOutcome::NotEnoughCredits;
    }
    proof {
        let ui = spec_find(spec_unit_ids(definitions.units@), unit_id@);
        crate::defs::lemma_find(spec_unit_ids(definitions.units@), unit_id@);
        assert(definitions.units@[ui].cost != 0x8000_0000);
    }
    let cost: u32 = def.cost;
    assert(cost != 0x8000_0000u32 ==> (cost as i32) != i32::MIN) by (bit_vector);
    let signed: i32 = cost as i32;
    change_player_credits(player_id, -signed, players);
    queue.queue.push(unit_id.to_string());
    proof {
        assert(queue.queue@.drop_last() =~= old(queue).queue@);
    }
    TrainOutcome::Queued
}

/// The last index of `queue` holding `id`, or -1.
pub open spec fn spec_last_index(queue: Seq<String>, id: Seq<char>) -> int
    decreases queue.len(),
{
    if queue.len() == 0 {
        -1
    } else if queue.last()@ == id {
        queue.len() - 1
    } else {
        spec_last_index(queue.drop_last(), id)
    }
}

proof fn lemma_last_index(queue: Seq<String>, id: Seq<char>)
    ensures
        -1 <= spec_last_index(queue, id) < queue.len(),
        spec_last_index(queue, id) >= 0 ==> queue[spec_last_index(queue, id)]@ == id,
        forall|j: int| spec_last_index(queue, id) < j < queue.len() ==> (#[trigger] queue[j])@ != id,
    decreases queue.len(),
{
    if queue.len() > 0 && queue.last()@ != id {
        lemma_last_index(queue.drop_last(), id);
        assert forall|j: int| spec_last_index(queue, id) < j < queue.len() implies (#[trigger] queue[j])@ != id by {
            if j < queue.len() - 1 {
                assert(queue[j] == queue.drop_last()[j]);
            }
        }
    }
}

/// Cancels the most recently queued unit of the named kind at a factory
/// owned by the player, and refunds its cost. Returns whether one was
/// cancelled.
pub fn handle_cancel_unit_command(
    queue: &mut ProductionQueue,
    building_owner: usize,
    players: &mut Players,
    definitions: &Definitions,
    player_id: usize,
    unit_id: &str,
) -> (r: bool)
    requires
        spec_find(spec_unit_ids(definitions.units@), unit_id@) >= 0 ==>
            definitions.units@[spec_find(spec_unit_ids(definitions.units@), unit_id@)].cost != 0x8000_0000,
    ensures
        old(players).wf() ==> final(players).wf(),
        ({
            let ui = spec_find(spec_unit_ids(definitions.units@), unit_id@);
            let k = spec_last_index(old(queue).queue@, unit_id@);
            &&& r == (ui >= 0 && building_owner == player_id && k >= 0)
            &&& !r ==> final(queue).queue@ == old(queue).queue@ && final(players).players@ == old(players).players@
            &&& r ==> final(queue).queue@ == old(queue).queue@.remove(k)
                && final(players).players@ == spec_after_credit_change(old(players).players@, player_id, spec_refund(definitions.units@[ui].cost))
            &&& final(queue).progress_ms == old(queue).progress_ms
        }),
{
    let def = match definitions.unit(unit_id) {
        None => return false,
        Some(d) => d,
    };
    if building_owner != player_id {
        return false;
    }
    proof {
        lemma_last_index(queue.queue@, unit_id@);
        let ui = spec_find(spec_unit_ids(definitions.units@), unit_id@);
        crate::defs::lemma_find(spec_unit_ids(definitions.units@), unit_id@);
        assert(definitions.units@[ui].cost != 0x8000_0000);
    }
    let mut k: usize = queue.queue.len();
    while k > 0
        invariant
            k <= queue.queue@.len(),
            queue.queue@ == old(queue).queue@,
            forall|j: int| k <= j < queue.queue@.len() ==> (#[trigger] queue.queue@[j])@ != unit_id@,
        ensures
            k <= queue.queue@.len(),
            queue.queue@ == old(queue).queue@,
            forall|j: int| k <= j < queue.queue@.len() ==> (#[trigger] queue.queue@[j])@ != unit_id@,
            k == 0 || queue.queue@[k - 1]@ == unit_id@,
        decreases k,
    {
        if str_equals(queue.queue[k - 1].as_str(), unit_id) {
            break;
        }
        k = k - 1;
    }
    if k == 0 {
        proof {
            lemma_last_index(queue.queue@, unit_id@);
        }
        return false;
    }
    let pos = k - 1;
    proof {
        lemma_last_index(queue.queue@, unit_id@);
        let idx = spec_last_index(queue.queue@, unit_id@);
        assert(queue.queue@[pos as int]@ == unit_id@);
        if idx < pos {
            assert(queue.queue@[pos as int]@ != unit_id@);
        }
        if idx > pos {
            assert(queue.queue@[idx]@ != unit_id@);
        }
        assert(idx == pos);
    }
    queue.queue.remove(pos);
    let cost: u32 = def.cost;
    assert(cost != 0x8000_0000u32 ==> (cost as i32) != i32::MIN) by (bit_vector);
    change_player_credits(player_id, cost as i32, players);
    true
}

/// Sells a building owned by the player: half its cost (rounded down) is
/// refunded, its footprint is freed, and the local player's power balance
/// stops counting it. Returns whether it was sold.
pub fn handle_sell_building_command(
    grid: &mut Grid,
    players: &mut Players,
    power: &mut PowerSystem,
    definitions: &Definitions,
    building_owner: usize,
    building_id: &str,
    building_pos: crate::geometry::Pos,
    player_id: usize,
    local_player_id: usize,
) -> (r: bool)
    requires
        old(grid).wf(),
        ({
            let di = spec_find(spec_building_ids(definitions.buildings@), building_id@);
            di >= 0 && building_owner == local_player_id ==> {
                &&& i32::MIN <= old(power).produced - definitions.buildings@[di].power_produced <= i32::MAX
                &&& i32::MIN <= old(power).consumed - definitions.buildings@[di].power_consumed <= i32::MAX
            }
        }),
    ensures
        old(players).wf() ==> final(players).wf(),
        final(grid).wf(),
        ({
            let di = spec_find(spec_building_ids(definitions.buildings@), building_id@);
            let def = definitions.buildings@[di];
            let m = crate::placement::spec_footprint_min(building_pos, def.size);
            let min = (m.0 as i32, m.1 as i32);
            &&& r == (building_owner == player_id && di >= 0)
            &&& !r ==> *final(grid) == *old(grid) && final(players).players@ == old(players).players@ && *final(power) == *old(power)
            &&& r ==> {
                &&& final(players).players@ == spec_after_credit_change(old(players).players@, player_id, (def.cost / 2) as i32)
                &&& building_owner == local_player_id ==> final(power).produced == old(power).produced - def.power_produced
                    && final(power).consumed == old(power).consumed - def.power_consumed
                &&& building_owner != local_player_id ==> *final(power) == *old(power)
                &&& forall|x: int, z: int| old(grid).spec_in_bounds(x, z) ==> #[trigger] final(grid).cell_blocked(x, z) ==
                    if min.0 <= x < min.0 + def.size.0 && min.1 <= z < min.1 + def.size.1 { false } else { old(grid).cell_blocked(x, z) }
                &&& forall|x: int, z: int| old(grid).spec_in_bounds(x, z) ==> #[trigger] final(grid).cell_static_blocked(x, z) ==
                    if min.0 <= x < min.0 + def.size.0 && min.1 <= z < min.1 + def.size.1 { false } else { old(grid).cell_static_blocked(x, z) }
                &&& forall|x: int, z: int| old(grid).spec_in_bounds(x, z) ==> #[trigger] final(grid).cell_cost(x, z) == old(grid).cell_cost(x, z)
                &&& final(grid).spec_width() == old(grid).spec_width()
                &&& final(grid).spec_height() == old(grid).spec_height()
                &&& final(grid).spec_screen_width() == old(grid).spec_screen_width()
                &&& final(grid).spec_screen_height() == old(grid).spec_screen_height()
            }
        }),
{
    if building_owner != player_id {
        return false;
    }
    let def = match definitions.building(building_id) {
        None => return false,
        Some(d) => d,
    };
    let refund: u32 = def.cost / 2;
    change_player_credits(player_id, refund as i32, players);
    let min = crate::placement::footprint_min(building_pos, def.size);
    set_footprint_blocked(grid, min, def.size, false);
    if building_owner == local_player_id {
        power.remove_building(def.power_produced, def.power_consumed);
    }
    true
}


/// Clears away a destroyed building: its footprint is freed and, when it
/// belonged to the local player, the power balance stops counting it.
/// Nothing changes for a building without a definition. Returns whether
/// the building was known.
pub fn remove_destroyed_building(
    grid: &mut Grid,
    power: &mut PowerSystem,
    definitions: &Definitions,
    building_id: &str,
    building_pos: crate::geometry::Pos,
    building_owner: usize,
    local_player_id: usize,
) -> (r: bool)
    requires
        old(grid).wf(),
        ({
            let di = spec_find(spec_building_ids(definitions.buildings@), building_id@);
            di >= 0 && building_owner == local_player_id ==> {
                &&& i32::MIN <= old(power).produced - definitions.buildings@[di].power_produced <= i32::MAX
                &&& i32::MIN <= old(power).consumed - definitions.buildings@[di].power_consumed <= i32::MAX
            }
        }),
    ensures
        final(grid).wf(),
        ({
            let di = spec_find(spec_building_ids(definitions.buildings@), building_id@);
            let def = definitions.buildings@[di];
            let m = crate::placement::spec_footprint_min(building_pos, def.size);
            let min = (m.0 as i32, m.1 as i32);
            &&& r == (di >= 0)
            &&& !r ==> *final(grid) == *old(grid) && *final(power) == *old(power)
            &&& r ==> {
                &&& building_owner == local_player_id ==> final(power).produced == old(power).produced - def.power_produced
                    && final(power).consumed == old(power).consumed - def.power_consumed
                &&& building_owner != local_player_id ==> *final(power) == *old(power)
                &&& forall|x: int, z: int| old(grid).spec_in_bounds(x, z) ==> #[trigger] final(grid).cell_blocked(x, z) ==
                    if min.0 <= x < min.0 + def.size.0 && min.1 <= z < min.1 + def.size.1 { false } else { old(grid).cell_blocked(x, z) }
                &&& forall|x: int, z: int| old(grid).spec_in_bounds(x, z) ==> #[trigger] final(grid).cell_static_blocked(x, z) ==
                    if min.0 <= x < min.0 + def.size.0 && min.1 <= z < min.1 + def.size.1 { false } else { old(grid).cell_static_blocked(x, z) }
                &&& forall|x: int, z: int| old(grid).spec_in_bounds(x, z) ==> #[trigger] final(grid).cell_cost(x, z) == old(grid).cell_cost(x, z)
                &&& final(grid).spec_width() == old(grid).spec_width()
                &&& final(grid).spec_height() == old(grid).spec_height()
                &&& final(grid).spec_screen_width() == old(grid).spec_screen_width()
                &&& final(grid).spec_screen_height() == old(grid).spec_screen_height()
            }
        }),
{
    let def = match definitions.building(building_id) {
        None => return false,
        Some(d) => d,
    };
    let min = crate::placement::footprint_min(building_pos, def.size);
    set_footprint_blocked(grid, min, def.size, false);
    if building_owner == local_player_id {
        power.remove_building(def.power_produced, def.power_consumed);
    }
    true
}

} // verus!
