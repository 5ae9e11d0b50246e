use vstd::prelude::*;
use vstd::string::*;
use crate::data::ArmorType;

verus! {

/// Whether two strings hold the same characters.
pub fn str_equals(a: &str, b: &str) -> (r: bool)
    ensures
        r == (a@ == b@),
{
    let n = a.unicode_len();
    if n != b.unicode_len() {
        return false;
    }
    let mut i: usize = 0;
    while i < n
        invariant
            i <= n,
            n == a@.len(),
            n == b@.len(),
            forall|j: int| 0 <= j < i ==> a@[j] == b@[j],
        decreases n - i,
    {
        if a.get_char(i) != b.get_char(i) {
            return false;
        }
        i = i + 1;
    }
    assert(a@ =~= b@);
    true
}

/// What a building is for, as its definition names it.
#[derive(Clone, Copy, Debug, PartialEq, Eq, Structural)]
pub enum BuildingRole {
    ConstructionYard,
    Power,
    Refinery,
    Barracks,
    WarFactory,
    Turret,
    Defense,
    Other,
}

/// The building role a definition names.
pub open spec fn spec_building_role(name: Seq<char>) -> BuildingRole {
    if name == "construction_yard"@ {
        BuildingRole::ConstructionYard
    } else if name == "power"@ {
        BuildingRole::Power
    } else if name == "refinery"@ {
        BuildingRole::Refinery
    } else if name == "barracks"@ {
        BuildingRole::Barracks
    } else if name == "war_factory"@ {
        BuildingRole::WarFactory
    } else if name == "turret"@ {
        BuildingRole::Turret
    } else if name == "defense"@ {
        BuildingRole::Defense
    } else {
        BuildingRole::Other
    }
}

impl BuildingRole {
    /// The role named by a definition; a missing or unknown name is `Other`.
    pub fn from_name(name: Option<&str>) -> (r: BuildingRole)
        ensures
            r == match name {
                Some(n) => spec_building_role(n@),
                None => BuildingRole::Other,
            },
    {
        match name {
            None => BuildingRole::Other,
            Some(n) => {
                if str_equals(n, "construction_yard") {
                    BuildingRole::ConstructionYard
                } else if str_equals(n, "power") {
                    BuildingRole::Power
                } else if str_equals(n, "refinery") {
                    BuildingRole::Refinery
                } else if str_equals(n, "barracks") {
                    BuildingRole::Barracks
                } else if str_equals(n, "war_factory") {
                    BuildingRole::WarFactory
                } else if str_equals(n, "turret") {
                    BuildingRole::Turret
                } else if str_equals(n, "defense") {
                    BuildingRole::Defense
                } else {
                    BuildingRole::Other
                }
            },
        }
    }
}

/// What a unit is for, as its definition names it.
#[derive(Clone, Copy, Debug, PartialEq, Eq, Structural)]
pub enum UnitRole {
    Infantry,
    AntiInfantry,
    Tank,
    Artillery,
    Vehicle,
    Air,
    Harvester,
    Scout,
    Other,
    Unspecified,
}

/// The unit role a definition names.
pub open spec fn spec_unit_role(name: Seq<char>) -> UnitRole {
    if name == "infantry"@ {
        UnitRole::Infantry
    } else if name == "anti_infantry"@ {
        UnitRole::AntiInfantry
    } else if name == "tank"@ {
        UnitRole::Tank
    } else if name == "artillery"@ {
        UnitRole::Artillery
    } else if name == "vehicle"@ {
        UnitRole::Vehicle
    } else if name == "air"@ {
        UnitRole::Air
    } else if name == "harvester"@ {
        UnitRole::Harvester
    } else if name == "scout"@ {
        UnitRole::Scout
    } else {
        UnitRole::Other
    }
}

impl UnitRole {
    /// The role named by a definition; `Unspecified` when none is named.
    pub fn from_name(name: Option<&str>) -> (r: UnitRole)
        ensures
            r == match name {
                Some(n) => spec_unit_role(n@),
                None => UnitRole::Unspecified,
            },
    {
        match name {
            None => UnitRole::Unspecified,
            Some(n) => {
                if str_equals(n, "infantry") {
                    UnitRole::Infantry
                } else if str_equals(n, "anti_infantry") {
                    UnitRole::AntiInfantry
                } else if str_equals(n, "tank") {
                    UnitRole::Tank
                } else if str_equals(n, "artillery") {
                    UnitRole::Artillery
                } else if str_equals(n, "vehicle") {
                    UnitRole::Vehicle
                } else if str_equals(n, "air") {
                    UnitRole::Air
                } else if str_equals(n, "harvester") {
                    UnitRole::Harvester
                } else if str_equals(n, "scout") {
                    UnitRole::Scout
                } else {
                    UnitRole::Other
                }
            },
        }
    }
}

/// Whether a unit role counts as a combat unit eligible for garrison or
/// strike duty.
pub open spec fn spec_is_combat_role(role: UnitRole) -> bool {
    role == UnitRole::Tank || role == UnitRole::Infantry || role == UnitRole::AntiInfantry || role == UnitRole::Artillery
}

/// Whether a unit role counts as a combat unit.
pub fn is_combat_role(role: UnitRole) -> (r: bool)
    ensures
        r == spec_is_combat_role(role),
{
    match role {
        UnitRole::Tank | UnitRole::Infantry | UnitRole::AntiInfantry | UnitRole::Artillery => true,
        _ => false,
    }
}

/// What the rules read of a building definition.
#[derive(Debug)]
pub struct BuildingDefinition {
    pub id: String,
    pub name: String,
    pub cost: u32,
    pub size: (i32, i32),
    pub power_produced: i32,
    pub power_consumed: i32,
    pub requires: Option<Vec<String>>,
    pub role: BuildingRole,
    pub armor: Option<ArmorType>,
    pub influence_radius: u32,
    /// How long it takes to build, in milliseconds.
    pub build_time_ms: u64,
}

/// What the rules read of a unit definition.
#[derive(Clone, Debug)]
pub struct UnitDefinition {
    pub id: String,
    pub name: String,
    pub cost: u32,
    pub produced_by: Vec<String>,
    pub requires: Option<Vec<String>>,
    pub role: UnitRole,
    pub armor: Option<ArmorType>,
    /// How long it takes to train, in milliseconds.
    pub build_time_ms: u64,
}

/// A faction: the buildings and units it can make, in order of preference.
#[derive(Clone, Debug)]
pub struct FactionDefinition {
    pub id: String,
    pub name: String,
    pub buildings: Vec<String>,
    pub units: Vec<String>,
}

/// Hit points a building has when its definition says nothing.
pub fn default_building_health() -> (r: u32)
    ensures
        r == 1000,
{
    1000
}

/// Armor a building has when its definition says nothing.
pub fn default_building_armor() -> (r: Option<ArmorType>)
    ensures
        r == Some(ArmorType::Wood),
{
    Some(ArmorType::Wood)
}

/// How far from a building, in cells, new buildings may be placed when its
/// definition says nothing.
pub fn default_influence_radius() -> (r: u32)
    ensures
        r == 4,
{
    4
}

/// The game's definitions, each kind in a list searched by id.
pub struct Definitions {
    pub units: Vec<UnitDefinition>,
    pub buildings: Vec<BuildingDefinition>,
    pub factions: Vec<FactionDefinition>,
}

/// The first entry of `ids` equal to `id`, or -1.
pub open spec fn spec_find(ids: Seq<Seq<char>>, id: Seq<char>) -> int
    decreases ids.len(),
{
    if ids.len() == 0 {
        -1
    } else if ids[0] == id {
        0
    } else {
        let r = spec_find(ids.subrange(1, ids.len() as int), id);
        if r < 0 { -1 } else { r + 1 }
    }
}

/// The ids of a list of building definitions.
pub open spec fn spec_building_ids(defs: Seq<BuildingDefinition>) -> Seq<Seq<char>> {
    defs.map_values(|d: BuildingDefinition| d.id@)
}

/// The ids of a list of unit definitions.
pub open spec fn spec_unit_ids(defs: Seq<UnitDefinition>) -> Seq<Seq<char>> {
    defs.map_values(|d: UnitDefinition| d.id@)
}

/// The ids of a list of faction definitions.
pub open spec fn spec_faction_ids(defs: Seq<FactionDefinition>) -> Seq<Seq<char>> {
    defs.map_values(|d: FactionDefinition| d.id@)
}

/// `spec_find` gives the first index of the id, or -1 when it is absent.
pub proof fn lemma_find(ids: Seq<Seq<char>>, id: Seq<char>)
    ensures
        -1 <= spec_find(ids, id) < ids.len(),
        spec_find(ids, id) >= 0 ==> ids[spec_find(ids, id)] == id,
        forall|j: int| 0 <= j < ids.len() && (spec_find(ids, id) < 0 || j < spec_find(ids, id)) ==> ids[j] != id,
    decreases ids.len(),
{
    if ids.len() > 0 && ids[0] != id {
        let rest = ids.subrange(1, ids.len() as int);
        lemma_find(rest, id);
        assert forall|j: int| 0 <= j < ids.len() && (spec_find(ids, id) < 0 || j < spec_find(ids, id)) implies ids[j] != id by {
            if j > 0 {
                assert(ids[j] == rest[j - 1]);
            }
        }
    }
}

impl Definitions {
    /// The building definition with the given id.
    pub fn building(&self, id: &str) -> (r: Option<&BuildingDefinition>)
        ensures
            spec_find(spec_building_ids(self.buildings@), id@) < 0 ==> r is None,
            spec_find(spec_building_ids(self.buildings@), id@) >= 0 ==> r == Some(&self.buildings@[spec_find(spec_building_ids(self.buildings@), id@)]),
    {
        let ghost ids = spec_building_ids(self.buildings@);
        proof { lemma_find(ids, id@); }
        let mut i: usize = 0;
        while i < self.buildings.len()
            invariant
                i <= self.buildings.len(),
                ids == spec_building_ids(self.buildings@),
                ids.len() == self.buildings.len(),
                forall|j: int| 0 <= j < i ==> ids[j] != id@,
            decreases self.buildings.len() - i,
        {
            if str_equals(self.buildings[i].id.as_str(), id) {
                assert(ids[i as int] == id@);
                proof { lemma_find(ids, id@); }
                return Some(&self.buildings[i]);
            }
            i = i + 1;
        }
        proof { lemma_find(ids, id@); }
        None
    }

    /// The unit definition with the given id.
    pub fn unit(&self, id: &str) -> (r: Option<&UnitDefinition>)
        ensures
            spec_find(spec_unit_ids(self.units@), id@) < 0 ==> r is None,
            spec_find(spec_unit_ids(self.units@), id@) >= 0 ==> r == Some(&self.units@[spec_find(spec_unit_ids(self.units@), id@)]),
    {
        let ghost ids = spec_unit_ids(self.units@);
        proof { lemma_find(ids, id@); }
        let mut i: usize = 0;
        while i < self.units.len()
            invariant
                i <= self.units.len(),
                ids == spec_unit_ids(self.units@),
                ids.len() == self.units.len(),
                forall|j: int| 0 <= j < i ==> ids[j] != id@,
            decreases self.units.len() - i,
        {
            if str_equals(self.units[i].id.as_str(), id) {
                assert(ids[i as int] == id@);
                proof { lemma_find(ids, id@); }
                return Some(&self.units[i]);
            }
            i = i + 1;
        }
        proof { lemma_find(ids, id@); }
        None
    }

    /// The faction definition with the given id.
    pub fn faction(&self, id: &str) -> (r: Option<&FactionDefinition>)
        ensures
            spec_find(spec_faction_ids(self.factions@), id@) < 0 ==> r is None,
            spec_find(spec_faction_ids(self.factions@), id@) >= 0 ==> r == Some(&self.factions@[spec_find(spec_faction_ids(self.factions@), id@)]),
    {
        let ghost ids = spec_faction_ids(self.factions@);
        proof { lemma_find(ids, id@); }
        let mut i: usize = 0;
        while i < self.factions.len()
            invariant
                i <= self.factions.len(),
                ids == spec_faction_ids(self.factions@),
                ids.len() == self.factions.len(),
                forall|j: int| 0 <= j < i ==> ids[j] != id@,
            decreases self.factions.len() - i,
        {
            if str_equals(self.factions[i].id.as_str(), id) {
                assert(ids[i as int] == id@);
                proof { lemma_find(ids, id@); }
                return Some(&self.factions[i]);
            }
            i = i + 1;
        }
        proof { lemma_find(ids, id@); }
        None
    }
}

/// Some entry of `names` equals `name`.
pub open spec fn spec_has_name(names: Seq<String>, name: Seq<char>) -> bool {
    exists|i: int| 0 <= i < names.len() && (#[trigger] names[i])@ == name
}

/// Whether a list of names holds the given name.
pub fn contains_name(names: &Vec<String>, name: &str) -> (r: bool)
    ensures
        r == spec_has_name(names@, name@),
{
    let mut i: usize = 0;
    while i < names.len()
        invariant
            i <= names.len(),
            forall|j: int| 0 <= j < i ==> (#[trigger] names@[j])@ != name@,
        decreases names.len() - i,
    {
        if str_equals(names[i].as_str(), name) {
            return true;
        }
        i = i + 1;
    }
    false
}

/// The number of entries of `names` equal to `name`.
pub open spec fn spec_count_name(names: Seq<String>, name: Seq<char>) -> nat
    decreases names.len(),
{
    if names.len() == 0 {
        0
    } else {
        spec_count_name(names.drop_last(), name) + if names.last()@ == name { 1nat } else { 0nat }
    }
}

/// How many entries of a list of names equal the given name.
pub fn count_name(names: &Vec<String>, name: &str) -> (r: usize)
    ensures
        r == spec_count_name(names@, name@),
{
    let mut count: usize = 0;
    let mut i: usize = 0;
    while i < names.len()
        invariant
            i <= names.len(),
            count == spec_count_name(names@.subrange(0, i as int), name@),
            count <= i,
        decreases names.len() - i,
    {
        assert(names@.subrange(0, i + 1).drop_last() == names@.subrange(0, i as int));
        if str_equals(names[i].as_str(), name) {
            count = count + 1;
        }
        i = i + 1;
    }
    assert(names@.subrange(0, names.len() as int) == names@);
    count
}

/// Every name of `names` is among `owned`.
pub open spec fn spec_all_present(names: Seq<String>, owned: Seq<String>) -> bool {
    forall|i: int| 0 <= i < names.len() ==> spec_has_name(owned, (#[trigger] names[i])@)
}

/// Every required name is among `owned`.
pub open spec fn spec_requirements_met(required: Option<Vec<String>>, owned: Seq<String>) -> bool {
    match required {
        None => true,
        Some(reqs) => spec_all_present(reqs@, owned),
    }
}

/// Whether every requirement is among the owned building ids.
pub fn requirements_met(required: &Option<Vec<String>>, owned: &Vec<String>) -> (r: bool)
    ensures
        r == spec_requirements_met(*required, owned@),
{
    if required.is_none() {
        return true;
    }
    let reqs = required.as_ref().unwrap();
    assert(spec_requirements_met(*required, owned@) == spec_all_present(reqs@, owned@));
    let mut i: usize = 0;
    while i < reqs.len()
        invariant
            i <= reqs.len(),
            *required == Some(*reqs),
            forall|k: int| 0 <= k < i ==> spec_has_name(owned@, (#[trigger] reqs@[k])@),
        decreases reqs.len() - i,
    {
        if !contains_name(owned, reqs[i].as_str()) {
            assert(!spec_has_name(owned@, reqs@[i as int]@));
            assert(!spec_all_present(reqs@, owned@));
            return false;
        }
        i = i + 1;
    }
    true
}


/// The `k`th unit of a list has a definition of the given role.
pub open spec fn spec_unit_of_role(definitions: Definitions, list: Seq<String>, k: int, role: UnitRole) -> bool {
    let di = spec_find(spec_unit_ids(definitions.units@), list[k]@);
    di >= 0 && definitions.units@[di].role == role
}

/// The `k`th building of a list has a definition of the given role.
pub open spec fn spec_building_of_role(definitions: Definitions, list: Seq<String>, k: int, role: BuildingRole) -> bool {
    let di = spec_find(spec_building_ids(definitions.buildings@), list[k]@);
    di >= 0 && definitions.buildings@[di].role == role
}

/// The first unit of a faction's list whose definition has the given role;
/// `None` when the faction is unknown or no unit qualifies.
pub fn faction_unit_with_role(definitions: &Definitions, faction_id: &str, role: UnitRole) -> (r: Option<String>)
    ensures
        ({
            let fi = spec_find(spec_faction_ids(definitions.factions@), faction_id@);
            let list = definitions.factions@[fi].units@;
            &&& fi < 0 ==> r is None
            &&& fi >= 0 && r is None ==> forall|k: int| 0 <= k < list.len() ==> !#[trigger] spec_unit_of_role(*definitions, list, k, role)
            &&& r matches Some(id) ==> fi >= 0 && exists|k: int| 0 <= k < list.len() && #[trigger] spec_unit_of_role(*definitions, list, k, role)
                && (forall|j: int| 0 <= j < k ==> !#[trigger] spec_unit_of_role(*definitions, list, j, role)) && id@ == list[k]@
        }),
{
    let faction = match definitions.faction(faction_id) {
        None => return None,
        Some(f) => f,
    };
    let list = &faction.units;
    let mut k: usize = 0;
    while k < list.len()
        invariant
            k <= list@.len(),
            spec_find(spec_faction_ids(definitions.factions@), faction_id@) >= 0,
            list@ == definitions.factions@[spec_find(spec_faction_ids(definitions.factions@), faction_id@)].units@,
            forall|j: int| 0 <= j < k ==> !#[trigger] spec_unit_of_role(*definitions, list@, j, role),
        decreases list@.len() - k,
    {
        match definitions.unit(list[k].as_str()) {
            Some(def) => {
                if def.role == role {
                    let found = list[k].clone();
                    assert(spec_unit_of_role(*definitions, list@, k as int, role)
                        && (forall|j: int| 0 <= j < k ==> !#[trigger] spec_unit_of_role(*definitions, list@, j, role))
                        && found@ == list@[k as int]@);
                    return Some(found);
                }
            },
            None => {},
        }
        k = k + 1;
    }
    None
}

/// The first building of a faction's list whose definition has the given
/// role; `None` when the faction is unknown or no building qualifies.
pub fn faction_building_with_role(definitions: &Definitions, faction_id: &str, role: BuildingRole) -> (r: Option<String>)
    ensures
        ({
            let fi = spec_find(spec_faction_ids(definitions.factions@), faction_id@);
            let list = definitions.factions@[fi].buildings@;
            &&& fi < 0 ==> r is None
            &&& fi >= 0 && r is None ==> forall|k: int| 0 <= k < list.len() ==> !#[trigger] spec_building_of_role(*definitions, list, k, role)
            &&& r matches Some(id) ==> fi >= 0 && exists|k: int| 0 <= k < list.len() && #[trigger] spec_building_of_role(*definitions, list, k, role)
                && (forall|j: int| 0 <= j < k ==> !#[trigger] spec_building_of_role(*definitions, list, j, role)) && id@ == list[k]@
        }),
{
    let faction = match definitions.faction(faction_id) {
        None => return None,
        Some(f) => f,
    };
    let list = &faction.buildings;
    let mut k: usize = 0;
    while k < list.len()
        invariant
            k <= list@.len(),
            spec_find(spec_faction_ids(definitions.factions@), faction_id@) >= 0,
            list@ == definitions.factions@[spec_find(spec_faction_ids(definitions.factions@), faction_id@)].buildings@,
            forall|j: int| 0 <= j < k ==> !#[trigger] spec_building_of_role(*definitions, list@, j, role),
        decreases list@.len() - k,
    {
        match definitions.building(list[k].as_str()) {
            Some(def) => {
                if def.role == role {
                    let found = list[k].clone();
                    assert(spec_building_of_role(*definitions, list@, k as int, role)
                        && (forall|j: int| 0 <= j < k ==> !#[trigger] spec_building_of_role(*definitions, list@, j, role))
                        && found@ == list@[k as int]@);
                    return Some(found);
                }
            },
            None => {},
        }
        k = k + 1;
    }
    None
}

} // verus!
