use vstd::prelude::*;
use crate::defs::{
    BuildingRole, UnitRole, Definitions, spec_find, spec_building_ids, spec_faction_ids,
    spec_count_name, spec_requirements_met, count_name, requirements_met,
};
use crate::player::Player;
use crate::buildings::BuildingQueue;
use crate::geometry::Pos;
use crate::economy::{Spot, spec_dist3_sq};
use crate::grid::Grid;
use crate::placement::BuildingExtent;
use crate::army::spec_pos_in_world;
use crate::siting::{spec_world, spec_site_choice, choose_site};

verus! {

/// How many opponent ticks (about a second each) a sighting is remembered.
pub const INTEL_TTL_TICKS: u8 = 20;

/// What one computer player has observed about its enemies. Sightings decay
/// rather than being wiped every tick, so a momentary loss of sight does not
/// make its priorities flicker.
#[derive(Clone, Copy, Debug)]
pub struct EnemyIntel {
    pub has_infantry: bool,
    pub has_vehicle: bool,
    pub has_air: bool,
    infantry_ttl: u8,
    vehicle_ttl: u8,
    air_ttl: u8,
}

/// One kind of sighting.
#[derive(Clone, Copy, Debug, PartialEq, Eq, Structural)]
pub enum SightingKind {
    Infantry,
    Vehicle,
    Air,
}

impl EnemyIntel {
    /// Whether enemies of a kind are currently believed to exist.
    pub closed spec fn spec_has(self, kind: SightingKind) -> bool {
        match kind {
            SightingKind::Infantry => self.has_infantry,
            SightingKind::Vehicle => self.has_vehicle,
            SightingKind::Air => self.has_air,
        }
    }

    /// How many more decays a sighting of a kind survives unrefreshed.
    pub closed spec fn spec_memory(self, kind: SightingKind) -> nat {
        match kind {
            SightingKind::Infantry => self.infantry_ttl as nat,
            SightingKind::Vehicle => self.vehicle_ttl as nat,
            SightingKind::Air => self.air_ttl as nat,
        }
    }

    /// The intel after one tick without a fresh sighting.
    pub closed spec fn spec_decay(self) -> EnemyIntel {
        EnemyIntel {
            has_infantry: if self.infantry_ttl > 0 { self.has_infantry } else { false },
            has_vehicle: if self.vehicle_ttl > 0 { self.has_vehicle } else { false },
            has_air: if self.air_ttl > 0 { self.has_air } else { false },
            infantry_ttl: if self.infantry_ttl > 0 { (self.infantry_ttl - 1) as u8 } else { 0 },
            vehicle_ttl: if self.vehicle_ttl > 0 { (self.vehicle_ttl - 1) as u8 } else { 0 },
            air_ttl: if self.air_ttl > 0 { (self.air_ttl - 1) as u8 } else { 0 },
        }
    }

    /// The intel after a sighting of a kind.
    pub closed spec fn spec_see(self, kind: SightingKind) -> EnemyIntel {
        match kind {
            SightingKind::Infantry => EnemyIntel { has_infantry: true, infantry_ttl: INTEL_TTL_TICKS, ..self },
            SightingKind::Vehicle => EnemyIntel { has_vehicle: true, vehicle_ttl: INTEL_TTL_TICKS, ..self },
            SightingKind::Air => EnemyIntel { has_air: true, air_ttl: INTEL_TTL_TICKS, ..self },
        }
    }

    /// No sighting at all.
    pub fn new() -> (r: EnemyIntel)
        ensures
            !r.spec_has(SightingKind::Infantry),
            !r.spec_has(SightingKind::Vehicle),
            !r.spec_has(SightingKind::Air),
            r.spec_memory(SightingKind::Infantry) == 0,
            r.spec_memory(SightingKind::Vehicle) == 0,
            r.spec_memory(SightingKind::Air) == 0,
    {
        EnemyIntel {
            has_infantry: false,
            has_vehicle: false,
            has_air: false,
            infantry_ttl: 0,
            vehicle_ttl: 0,
            air_ttl: 0,
        }
    }

    /// Ages every sighting by one tick; one whose memory has run out is
    /// forgotten.
    pub fn decay(&mut self)
        ensures
            *final(self) == old(self).spec_decay(),
    {
        if self.infantry_ttl > 0 {
            self.infantry_ttl = self.infantry_ttl - 1;
        } else {
            self.has_infantry = false;
        }
        if self.vehicle_ttl > 0 {
            self.vehicle_ttl = self.vehicle_ttl - 1;
        } else {
            self.has_vehicle = false;
        }
        if self.air_ttl > 0 {
            self.air_ttl = self.air_ttl - 1;
        } else {
            self.has_air = false;
        }
    }

    /// Records a sighting of enemy infantry.
    pub fn see_infantry(&mut self)
        ensures
            *final(self) == old(self).spec_see(SightingKind::Infantry),
    {
        self.has_infantry = true;
        self.infantry_ttl = INTEL_TTL_TICKS;
    }

    /// Records a sighting of an enemy vehicle.
    pub fn see_vehicle(&mut self)
        ensures
            *final(self) == old(self).spec_see(SightingKind::Vehicle),
    {
        self.has_vehicle = true;
        self.vehicle_ttl = INTEL_TTL_TICKS;
    }

    /// Records a sighting of an enemy aircraft.
    pub fn see_air(&mut self)
        ensures
            *final(self) == old(self).spec_see(SightingKind::Air),
    {
        self.has_air = true;
        self.air_ttl = INTEL_TTL_TICKS;
    }

    /// Records an enemy unit of the given role: infantry of either kind,
    /// vehicles (tanks among them) and aircraft are noted; other roles are not.
    pub fn observe(&mut self, role: UnitRole)
        ensures
            *final(self) == match spec_sighting_of(role) {
                Some(kind) => old(self).spec_see(kind),
                None => *old(self),
            },
    {
        match role {
            UnitRole::Infantry | UnitRole::AntiInfantry => self.see_infantry(),
            UnitRole::Tank | UnitRole::Vehicle => self.see_vehicle(),
            UnitRole::Air => self.see_air(),
            _ => {},
        }
    }
}

impl Default for EnemyIntel {
    fn default() -> (r: EnemyIntel)
        ensures
            !r.spec_has(SightingKind::Infantry),
            !r.spec_has(SightingKind::Vehicle),
            !r.spec_has(SightingKind::Air),
            r.spec_memory(SightingKind::Infantry) == 0,
            r.spec_memory(SightingKind::Vehicle) == 0,
            r.spec_memory(SightingKind::Air) == 0,
    {
        EnemyIntel::new()
    }
}

/// The kind of sighting an enemy unit of a role counts as.
pub open spec fn spec_sighting_of(role: UnitRole) -> Option<SightingKind> {
    match role {
        UnitRole::Infantry | UnitRole::AntiInfantry => Some(SightingKind::Infantry),
        UnitRole::Tank | UnitRole::Vehicle => Some(SightingKind::Vehicle),
        UnitRole::Air => Some(SightingKind::Air),
        _ => None,
    }
}

/// The intel after `n` ticks without a fresh sighting.
pub open spec fn spec_decay_n(intel: EnemyIntel, n: nat) -> EnemyIntel
    decreases n,
{
    if n == 0 {
        intel
    } else {
        spec_decay_n(intel, (n - 1) as nat).spec_decay()
    }
}

proof fn lemma_decay_after_sighting(intel: EnemyIntel, kind: SightingKind, n: nat)
    ensures
        spec_decay_n(intel.spec_see(kind), n).spec_memory(kind)
            == if n <= INTEL_TTL_TICKS { (INTEL_TTL_TICKS - n) as nat } else { 0 },
        spec_decay_n(intel.spec_see(kind), n).spec_has(kind) == (n <= INTEL_TTL_TICKS),
    decreases n,
{
    if n > 0 {
        lemma_decay_after_sighting(intel, kind, (n - 1) as nat);
    }
}

/// A sighting is remembered for exactly `INTEL_TTL_TICKS` ticks: after it,
/// the enemies of that kind are believed in through that many decays without
/// a fresh sighting, and forgotten at the next one.
pub proof fn law_sighting_lasts_ttl(intel: EnemyIntel, kind: SightingKind, n: nat)
    ensures
        n <= INTEL_TTL_TICKS ==> spec_decay_n(intel.spec_see(kind), n).spec_has(kind),
        n > INTEL_TTL_TICKS ==> !spec_decay_n(intel.spec_see(kind), n).spec_has(kind),
{
    lemma_decay_after_sighting(intel, kind, n);
}

/// A sighting of one kind leaves what is believed of the other kinds alone.
pub proof fn law_sighting_is_per_kind(intel: EnemyIntel, kind: SightingKind, other: SightingKind)
    requires
        kind != other,
    ensures
        intel.spec_see(kind).spec_has(other) == intel.spec_has(other),
        intel.spec_see(kind).spec_memory(other) == intel.spec_memory(other),
        intel.spec_see(kind).spec_has(kind),
{
}

/// Decay ages each kind of sighting on its own: what is believed of a kind
/// afterwards depends only on what was believed of that kind before. A
/// sighting with memory left is kept with one tick less; one without is
/// forgotten.
pub proof fn law_decay_is_per_kind(intel: EnemyIntel, other: EnemyIntel, kind: SightingKind)
    requires
        intel.spec_has(kind) == other.spec_has(kind),
        intel.spec_memory(kind) == other.spec_memory(kind),
    ensures
        intel.spec_decay().spec_has(kind) == other.spec_decay().spec_has(kind),
        intel.spec_decay().spec_memory(kind) == other.spec_decay().spec_memory(kind),
        intel.spec_decay().spec_has(kind) == (intel.spec_has(kind) && intel.spec_memory(kind) > 0),
        intel.spec_decay().spec_memory(kind) == if intel.spec_memory(kind) > 0 { (intel.spec_memory(kind) - 1) as nat } else { 0 },
{
}

/// How eagerly an enemy building of a role is attacked.
pub open spec fn spec_building_target_priority(role: BuildingRole) -> i32 {
    match role {
        BuildingRole::ConstructionYard => 100,
        BuildingRole::Turret | BuildingRole::Defense => 75,
        _ => 50,
    }
}

/// How eagerly an enemy unit is attacked, whatever its role.
pub const UNIT_TARGET_PRIORITY: i32 = 10;

/// How eagerly an enemy building of a role is attacked: the construction
/// yard first, then defences, then everything else.
pub fn building_target_priority(role: BuildingRole) -> (r: i32)
    ensures
        r == spec_building_target_priority(role),
{
    match role {
        BuildingRole::ConstructionYard => 100,
        BuildingRole::Turret | BuildingRole::Defense => 75,
        _ => 50,
    }
}


/// How many buildings of a role a computer player builds at most.
pub open spec fn spec_max_building_count(role: BuildingRole) -> nat {
    match role {
        BuildingRole::Power => 3,
        BuildingRole::Refinery => 4,
        BuildingRole::Barracks => 1,
        BuildingRole::WarFactory => 2,
        _ => 1,
    }
}

/// How urgent (in halves of a priority point) another building of a role
/// is when `count` are already standing and it can be paid for: power and
/// refineries grow less urgent with each one built, the first war factory
/// and barracks are the most urgent, and a second barracks matters only
/// against enemy infantry.
pub open spec fn spec_base_priority(role: BuildingRole, count: nat, has_infantry: bool) -> int {
    match role {
        BuildingRole::Power => 100 - 20 * count,
        BuildingRole::Refinery => 160 - 40 * count,
        BuildingRole::Barracks => if count == 0 { 170 } else if has_infantry { 120 } else { 40 },
        BuildingRole::WarFactory => if count == 0 { 180 } else { 40 },
        _ => 0,
    }
}

/// The urgency of a building, halved when it cannot be paid for yet.
pub open spec fn spec_building_priority(role: BuildingRole, count: nat, has_infantry: bool, affordable: bool) -> int {
    if affordable {
        spec_base_priority(role, count, has_infantry)
    } else {
        spec_base_priority(role, count, has_infantry) / 2
    }
}

/// The urgency of the `k`th building of a faction's list, or `None` when it
/// is no candidate: it has no definition, its prerequisites are missing, the
/// most of it are built, or it is a refinery on a map without ore.
pub open spec fn spec_building_candidate(
    definitions: Definitions,
    faction_buildings: Seq<String>,
    owned: Seq<String>,
    credits: u32,
    has_infantry: bool,
    resources_available: bool,
    k: int,
) -> Option<int> {
    let id = faction_buildings[k]@;
    let di = spec_find(spec_building_ids(definitions.buildings@), id);
    if di < 0 {
        None
    } else {
        let def = definitions.buildings@[di];
        let count = spec_count_name(owned, id);
        if !spec_requirements_met(def.requires, owned) || count >= spec_max_building_count(def.role)
            || (def.role == BuildingRole::Refinery && !resources_available) {
            None
        } else {
            Some(spec_building_priority(def.role, count, has_infantry, credits >= def.cost))
        }
    }
}

/// The `k`th building of the list is the most urgent candidate, and the
/// first listed among equally urgent ones.
pub open spec fn spec_best_building(
    definitions: Definitions,
    faction_buildings: Seq<String>,
    owned: Seq<String>,
    credits: u32,
    has_infantry: bool,
    resources_available: bool,
    k: int,
) -> bool {
    &&& 0 <= k < faction_buildings.len()
    &&& spec_building_candidate(definitions, faction_buildings, owned, credits, has_infantry, resources_available, k) is Some
    &&& forall|j: int| 0 <= j < faction_buildings.len() &&
        (#[trigger] spec_building_candidate(definitions, faction_buildings, owned, credits, has_infantry, resources_available, j)) is Some ==> {
        let pj = spec_building_candidate(definitions, faction_buildings, owned, credits, has_infantry, resources_available, j)->0;
        let pk = spec_building_candidate(definitions, faction_buildings, owned, credits, has_infantry, resources_available, k)->0;
        &&& pj <= pk
        &&& (j < k ==> pj < pk)
    }
}

/// What the `k`th building of a faction's list would be worth, computed.
fn building_candidate(
    definitions: &Definitions,
    faction_buildings: &Vec<String>,
    owned: &Vec<String>,
    credits: u32,
    has_infantry: bool,
    resources_available: bool,
    k: usize,
) -> (r: Option<i64>)
    requires
        k < faction_buildings@.len(),
    ensures
        match r {
            Some(v) => spec_building_candidate(*definitions, faction_buildings@, owned@, credits, has_infantry, resources_available, k as int) == Some(v as int),
            None => spec_building_candidate(*definitions, faction_buildings@, owned@, credits, has_infantry, resources_available, k as int) is None,
        },
{
    let id = faction_buildings[k].as_str();
    let def = match definitions.building(id) {
        Some(d) => d,
        None => return None,
    };
    if !requirements_met(&def.requires, owned) {
        return None;
    }
    let count = count_name(owned, id);
    let max_count: usize = match def.role {
        BuildingRole::Power => 3,
        BuildingRole::Refinery => 4,
        BuildingRole::Barracks => 1,
        BuildingRole::WarFactory => 2,
        _ => 1,
    };
    if count >= max_count {
        return None;
    }
    if def.role == BuildingRole::Refinery && !resources_available {
        return None;
    }
    let c: i64 = count as i64;
    let base: i64 = match def.role {
        BuildingRole::Power => 100 - 20 * c,
        BuildingRole::Refinery => 160 - 40 * c,
        BuildingRole::Barracks => if count == 0 { 170 } else if has_infantry { 120 } else { 40 },
        BuildingRole::WarFactory => if count == 0 { 180 } else { 40 },
        _ => 0,
    };
    if credits < def.cost {
        Some(base / 2)
    } else {
        Some(base)
    }
}

/// Which building a computer player should queue next: among its faction's
/// buildings whose prerequisites it owns, of which it has fewer than its
/// limit, and (while ore remains) including refineries, the most urgent one;
/// the first listed among equally urgent ones. `None` when its faction is
/// unknown or nothing qualifies.
pub fn next_building_priority(
    _ai_id: usize,
    ai_buildings: &Vec<String>,
    player: &Player,
    definitions: &Definitions,
    enemy_intel: &EnemyIntel,
    resources_available: bool,
) -> (r: Option<String>)
    ensures
        ({
            let fi = spec_find(spec_faction_ids(definitions.factions@), player.faction@);
            let list = definitions.factions@[fi].buildings@;
            let has_infantry = enemy_intel.spec_has(SightingKind::Infantry);
            &&& fi < 0 ==> r is None
            &&& fi >= 0 ==> (r is None <==> forall|k: int| 0 <= k < list.len() ==>
                (#[trigger] spec_building_candidate(*definitions, list, ai_buildings@, player.credits, has_infantry, resources_available, k)) is None)
            &&& fi >= 0 ==> (r matches Some(id) ==> exists|k: int|
                #[trigger] spec_best_building(*definitions, list, ai_buildings@, player.credits, has_infantry, resources_available, k)
                && id@ == list[k]@)
        }),
{
    let faction = match definitions.faction(player.faction.as_str()) {
        Some(f) => f,
        None => return None,
    };
    let ghost list = faction.buildings@;
    let has_infantry = enemy_intel.has_infantry;
    assert(has_infantry == enemy_intel.spec_has(SightingKind::Infantry));
    let mut best: Option<usize> = None;
    let mut best_priority: i64 = 0;
    let mut k: usize = 0;
    while k < faction.buildings.len()
        invariant
            k <= faction.buildings@.len(),
            list == faction.buildings@,
            best is None ==> forall|j: int| 0 <= j < k ==>
                (#[trigger] spec_building_candidate(*definitions, list, ai_buildings@, player.credits, has_infantry, resources_available, j)) is None,
            best matches Some(b) ==> {
                &&& b < k
                &&& spec_building_candidate(*definitions, list, ai_buildings@, player.credits, has_infantry, resources_available, b as int) == Some(best_priority as int)
                &&& forall|j: int| 0 <= j < k &&
                    (#[trigger] spec_building_candidate(*definitions, list, ai_buildings@, player.credits, has_infantry, resources_available, j)) is Some ==> {
                    let pj = spec_building_candidate(*definitions, list, ai_buildings@, player.credits, has_infantry, resources_available, j)->0;
                    &&& pj <= best_priority
                    &&& (j < b ==> pj < best_priority)
                }
            },
        decreases faction.buildings@.len() - k,
    {
        match building_candidate(definitions, &faction.buildings, ai_buildings, player.credits, has_infantry, resources_available, k) {
            Some(p) => {
                let better = match best {
                    None => true,
                    Some(_) => p > best_priority,
                };
                if better {
                    best = Some(k);
                    best_priority = p;
                }
            },
            None => {},
        }
        k = k + 1;
    }
    match best {
        None => None,
        Some(b) => {
            assert(spec_best_building(*definitions, list, ai_buildings@, player.credits, has_infantry, resources_available, b as int));
            Some(faction.buildings[b].clone())
        },
    }
}


/// The `k`th building of a list has a definition whose role is power.
pub open spec fn spec_is_power_building(definitions: Definitions, list: Seq<String>, k: int) -> bool {
    let di = spec_find(spec_building_ids(definitions.buildings@), list[k]@);
    di >= 0 && definitions.buildings@[di].role == BuildingRole::Power
}

/// The first power building of a list.
fn first_power_building(definitions: &Definitions, list: &Vec<String>) -> (r: Option<usize>)
    ensures
        r is None <==> forall|k: int| 0 <= k < list@.len() ==> !#[trigger] spec_is_power_building(*definitions, list@, k),
        r matches Some(k) ==> k < list@.len() && spec_is_power_building(*definitions, list@, k as int)
            && forall|j: int| 0 <= j < k ==> !#[trigger] spec_is_power_building(*definitions, list@, j),
{
    let mut k: usize = 0;
    while k < list.len()
        invariant
            k <= list@.len(),
            forall|j: int| 0 <= j < k ==> !#[trigger] spec_is_power_building(*definitions, list@, j),
        decreases list@.len() - k,
    {
        match definitions.building(list[k].as_str()) {
            Some(def) => {
                if def.role == BuildingRole::Power {
                    assert(spec_is_power_building(*definitions, list@, k as int));
                    return Some(k);
                }
            },
            None => {},
        }
        k = k + 1;
    }
    None
}

/// What a computer player's economy does on one tick.
#[derive(Clone, Debug, PartialEq, Eq)]
pub enum EconomyAction {
    Idle,
    /// Place the finished building at a position.
    Place { building_id: String, position: Pos },
    /// Start building something.
    Build { building_id: String },
}

/// The cost of the definition of a building id (zero when it has none).
pub open spec fn spec_building_cost(definitions: Definitions, id: Seq<char>) -> u32 {
    let di = spec_find(spec_building_ids(definitions.buildings@), id);
    if di < 0 { 0 } else { definitions.buildings@[di].cost }
}

/// The most urgent building (see `next_building_priority`), when it can
/// be paid for now.
fn affordable_next_building(
    ai_id: usize,
    player: &Player,
    definitions: &Definitions,
    ai_buildings: &Vec<String>,
    enemy_intel: &EnemyIntel,
    resources_available: bool,
) -> (r: Option<String>)
    ensures
        ({
            let fi = spec_find(spec_faction_ids(definitions.factions@), player.faction@);
            let list = definitions.factions@[fi].buildings@;
            let has_infantry = enemy_intel.spec_has(SightingKind::Infantry);
            &&& r matches Some(b) ==> fi >= 0
                && player.credits >= spec_building_cost(*definitions, b@)
                && exists|k: int| #[trigger] spec_best_building(*definitions, list, ai_buildings@, player.credits, has_infantry, resources_available, k)
                    && b@ == list[k]@
            &&& r is None && fi >= 0 ==> forall|k: int|
                #[trigger] spec_best_building(*definitions, list, ai_buildings@, player.credits, has_infantry, resources_available, k)
                ==> player.credits < spec_building_cost(*definitions, list[k]@)
        }),
{
    let ghost fi = spec_find(spec_faction_ids(definitions.factions@), player.faction@);
    let ghost list = definitions.factions@[fi].buildings@;
    let ghost has_infantry = enemy_intel.spec_has(SightingKind::Infantry);
    let next = next_building_priority(ai_id, ai_buildings, player, definitions, enemy_intel, resources_available);
    match next {
        None => {
            assert forall|k: int| fi >= 0 && #[trigger] spec_best_building(*definitions, list, ai_buildings@, player.credits, has_infantry, resources_available, k)
                implies player.credits < spec_building_cost(*definitions, list[k]@) by {
                assert(spec_building_candidate(*definitions, list, ai_buildings@, player.credits, has_infantry, resources_available, k) is None);
            }
            None
        },
        Some(b_id) => {
            let ghost k = choose|k: int| #[trigger] spec_best_building(*definitions, list, ai_buildings@, player.credits, has_infantry, resources_available, k)
                && b_id@ == list[k]@;
            proof {
                assert forall|k2: int| #[trigger] spec_best_building(*definitions, list, ai_buildings@, player.credits, has_infantry, resources_available, k2)
                    implies list[k2]@ == b_id@ by {
                    lemma_best_building_unique(*definitions, list, ai_buildings@, player.credits, has_infantry, resources_available, k, k2);
                }
            }
            match definitions.building(b_id.as_str()) {
                None => {
                    assert(spec_building_candidate(*definitions, list, ai_buildings@, player.credits, has_infantry, resources_available, k) is Some);
                    None
                },
                Some(def) => {
                    if player.credits >= def.cost {
                        Some(b_id)
                    } else {
                        None
                    }
                },
            }
        },
    }
}

/// What an idle construction queue leads to: nothing while a building is
/// under way; otherwise the most urgent building when it can be paid for,
/// and nothing when it cannot (or nothing qualifies).
pub open spec fn spec_queue_idle_decision(
    definitions: Definitions,
    player: Player,
    q: BuildingQueue,
    owned: Seq<String>,
    has_infantry: bool,
    resources_available: bool,
    r: EconomyAction,
) -> bool {
    let fi = spec_find(spec_faction_ids(definitions.factions@), player.faction@);
    let list = definitions.factions@[fi].buildings@;
    &&& q.current is Some ==> r is Idle
    &&& r !is Place
    &&& r matches EconomyAction::Build { building_id } ==> q.current is None && fi >= 0
        && player.credits >= spec_building_cost(definitions, building_id@)
        && exists|k: int| #[trigger] spec_best_building(definitions, list, owned, player.credits, has_infantry, resources_available, k)
            && building_id@ == list[k]@
    &&& r is Idle && q.current is None && fi >= 0 ==> forall|k: int|
        #[trigger] spec_best_building(definitions, list, owned, player.credits, has_infantry, resources_available, k)
        ==> player.credits < spec_building_cost(definitions, list[k]@)
}

/// One tick of a computer player's economy. With a finished building
/// waiting, it is placed at its preferred site or, failing that, the first
/// valid site around the base. With nothing under way, the most urgent
/// building (see `next_building_priority`) is started if it can be paid
/// for. A player who has never built starts with its faction's first power
/// plant.
pub fn economy_decision(
    ai_id: usize,
    player: &Player,
    definitions: &Definitions,
    queue: Option<&BuildingQueue>,
    ai_buildings: &Vec<String>,
    base_pos: Pos,
    grid: &Grid,
    unit_positions: &Vec<(i32, i32)>,
    resource_positions: &Vec<(i32, i32)>,
    building_extents: &Vec<BuildingExtent>,
    enemy_intel: &EnemyIntel,
) -> (r: EconomyAction)
    requires
        grid.wf(),
        spec_pos_in_world(base_pos),
    ensures
        queue is None ==> ({
            let fi = spec_find(spec_faction_ids(definitions.factions@), player.faction@);
            let list = definitions.factions@[fi].buildings@;
            &&& (fi < 0 || forall|k: int| 0 <= k < list.len() ==> !#[trigger] spec_is_power_building(*definitions, list, k))
                ==> r is Idle
            &&& (fi >= 0 && exists|k: int| 0 <= k < list.len() && #[trigger] spec_is_power_building(*definitions, list, k))
                ==> r is Build
            &&& r matches EconomyAction::Build { building_id } ==> fi >= 0 && exists|k: int| 0 <= k < list.len()
                && #[trigger] spec_is_power_building(*definitions, list, k)
                && (forall|j: int| 0 <= j < k ==> !#[trigger] spec_is_power_building(*definitions, list, j))
                && building_id@ == list[k]@
            &&& r !is Place
        }),
        queue matches Some(q) && q.ready is Some ==> ({
            let ready = queue->0.ready->0;
            let w = spec_world(*grid, unit_positions@, resource_positions@, building_extents@);
            let di = spec_find(spec_building_ids(definitions.buildings@), ready@);
            let def = definitions.buildings@[di];
            &&& di < 0 ==> r is Idle
            &&& di >= 0 ==> exists|res: Option<Pos>| #[trigger] spec_site_choice(w, base_pos, def.size, def.role, res) && match res {
                None => r is Idle,
                Some(p) => r matches EconomyAction::Place { building_id, position } && building_id@ == ready@ && position == p,
            }
        }),
        queue matches Some(q) && q.ready is None ==> spec_queue_idle_decision(*definitions, *player, *queue->0, ai_buildings@,
            enemy_intel.spec_has(SightingKind::Infantry), resource_positions@.len() > 0, r),
{
    let ghost w = spec_world(*grid, unit_positions@, resource_positions@, building_extents@);
    match queue {
        Some(q) => {
            match &q.ready {
                Some(ready_id) => {
                    let def = match definitions.building(ready_id.as_str()) {
                        None => return EconomyAction::Idle,
                        Some(d) => d,
                    };
                    let res = choose_site(def.role, base_pos, def.size, grid, unit_positions, resource_positions, building_extents);
                    match res {
                        None => EconomyAction::Idle,
                        Some(p) => EconomyAction::Place { building_id: ready_id.clone(), position: p },
                    }
                },
                None => {
                    if q.current.is_some() {
                        return EconomyAction::Idle;
                    }
                    let resources_available = resource_positions.len() > 0;
                    let next = affordable_next_building(ai_id, player, definitions, ai_buildings, enemy_intel, resources_available);
                    proof {
                        let fi = spec_find(spec_faction_ids(definitions.factions@), player.faction@);
                        let list = definitions.factions@[fi].buildings@;
                        let has_infantry = enemy_intel.spec_has(SightingKind::Infantry);
                        let x = resource_positions@.len() > 0;
                        assert(resources_available == x);
                        assert forall|k: int| next is None && fi >= 0
                            && #[trigger] spec_best_building(*definitions, list, ai_buildings@, player.credits, has_infantry, x, k)
                            implies player.credits < spec_building_cost(*definitions, list[k]@) by {
                            assert(spec_best_building(*definitions, list, ai_buildings@, player.credits, has_infantry, resources_available, k));
                        }
                        if next is Some {
                            let k = choose|k: int| #[trigger] spec_best_building(*definitions, list, ai_buildings@, player.credits, has_infantry, resources_available, k)
                                && next->0@ == list[k]@;
                            assert(spec_best_building(*definitions, list, ai_buildings@, player.credits, has_infantry, x, k));
                        }
                    }
                    let r = match next {
                        None => EconomyAction::Idle,
                        Some(b_id) => EconomyAction::Build { building_id: b_id },
                    };
                    assert(spec_queue_idle_decision(*definitions, *player, *q, ai_buildings@,
                        enemy_intel.spec_has(SightingKind::Infantry), resource_positions@.len() > 0, r));
                    r
                },
            }
        },
        None => {
            let faction = match definitions.faction(player.faction.as_str()) {
                None => return EconomyAction::Idle,
                Some(f) => f,
            };
            match first_power_building(definitions, &faction.buildings) {
                None => EconomyAction::Idle,
                Some(k) => EconomyAction::Build { building_id: faction.buildings[k].clone() },
            }
        },
    }
}

proof fn lemma_best_building_unique(
    definitions: Definitions,
    list: Seq<String>,
    owned: Seq<String>,
    credits: u32,
    has_infantry: bool,
    resources_available: bool,
    k1: int,
    k2: int,
)
    requires
        spec_best_building(definitions, list, owned, credits, has_infantry, resources_available, k1),
        spec_best_building(definitions, list, owned, credits, has_infantry, resources_available, k2),
    ensures
        k1 == k2,
{
    let p1 = spec_building_candidate(definitions, list, owned, credits, has_infantry, resources_available, k1);
    let p2 = spec_building_candidate(definitions, list, owned, credits, has_infantry, resources_available, k2);
}


/// A scout closer than this (in thousandths of a cell) to its destination
/// has arrived.
pub const SCOUT_ARRIVAL_MILLI: i64 = 6000;

/// The smallest coordinate of a scouting destination (thousandths of a cell).
pub const SCOUT_AREA_MIN: i32 = 20000;

/// The bound (exclusive) of the coordinates of a scouting destination.
pub const SCOUT_AREA_MAX: i32 = 220000;

/// A value drawn by `rand::random_range` from `lo..hi`. The drawn value
/// lies in the range; which one it is depends on the thread's random
/// generator, and nothing more is said of it. The range must not be empty,
/// where `rand` panics.
#[verifier::external_body]
fn random_in(lo: i32, hi: i32) -> (r: i32)
    requires
        lo < hi,
    ensures
        lo <= r < hi,
{
    rand::random_range(lo..hi)
}

/// A scout needs a destination when it has none or has arrived.
pub open spec fn spec_scout_needs_target(pos: Spot, target: Option<Spot>) -> bool {
    match target {
        None => true,
        Some(t) => spec_dist3_sq(pos, t) < SCOUT_ARRIVAL_MILLI * SCOUT_ARRIVAL_MILLI,
    }
}

/// A scout's tick: when it needs a destination it gets a random point on
/// the ground of the scouting area; otherwise it keeps going.
pub fn scout_step(pos: Spot, target: Option<Spot>) -> (r: Option<Spot>)
    ensures
        spec_scout_needs_target(pos, target) ==> (r matches Some(t) && SCOUT_AREA_MIN <= t.pos.x < SCOUT_AREA_MAX
            && SCOUT_AREA_MIN <= t.pos.z < SCOUT_AREA_MAX && t.height == 0),
        !spec_scout_needs_target(pos, target) ==> r is None,
{
    let needs = match target {
        None => true,
        Some(t) => pos.dist3_sq(&t) < 36_000_000,
    };
    if !needs {
        return None;
    }
    let x = random_in(SCOUT_AREA_MIN, SCOUT_AREA_MAX);
    let z = random_in(SCOUT_AREA_MIN, SCOUT_AREA_MAX);
    Some(Spot { pos: Pos { x, z }, height: 0 })
}

} // verus!
