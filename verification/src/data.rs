use vstd::prelude::*;

verus! {

/// The eleven armor classes.
#[derive(Clone, Copy, Debug, PartialEq, Eq, Hash, Structural)]
pub enum ArmorType {
    /// Unarmored infantry.
    NoArmor,
    /// Lightly armored soldiers.
    Flak,
    /// Heavily armored infantry.
    Plate,
    /// Fast, lightly plated vehicles and aircraft.
    Light,
    /// Standard armored vehicles.
    Medium,
    /// Massive, durable vehicles.
    Heavy,
    /// Ordinary buildings.
    Wood,
    /// Base defenses.
    Steel,
    /// Critical infrastructure.
    Concrete,
    /// Small robotic units.
    Special1,
    /// Destructible projectiles.
    Special2,
}

impl Default for ArmorType {
    fn default() -> (r: Self)
        ensures
            r == ArmorType::NoArmor,
    {
        ArmorType::NoArmor
    }
}

/// The kinds of damage a weapon deals.
#[derive(Clone, Copy, Debug, PartialEq, Eq, Hash, Structural)]
pub enum WarheadType {
    /// Small arms: machine guns, rifles.
    SA,
    /// Armor piercing: tank cannons.
    AP,
    /// High explosive: artillery, rockets, grenades.
    HE,
    /// Fire.
    Fire,
    /// Electric.
    Electric,
    /// Hollow point: sniper weapons.
    HollowPoint,
    /// Full damage against everything.
    Super,
}

impl Default for WarheadType {
    fn default() -> (r: Self)
        ensures
            r == WarheadType::SA,
    {
        WarheadType::SA
    }
}

/// Column of an armor class in the table.
pub open spec fn spec_armor_index(a: ArmorType) -> int {
    match a {
        ArmorType::NoArmor => 0,
        ArmorType::Flak => 1,
        ArmorType::Plate => 2,
        ArmorType::Light => 3,
        ArmorType::Medium => 4,
        ArmorType::Heavy => 5,
        ArmorType::Wood => 6,
        ArmorType::Steel => 7,
        ArmorType::Concrete => 8,
        ArmorType::Special1 => 9,
        ArmorType::Special2 => 10,
    }
}

/// Row of a warhead in the table.
pub open spec fn spec_warhead_index(w: WarheadType) -> int {
    match w {
        WarheadType::SA => 0,
        WarheadType::AP => 1,
        WarheadType::HE => 2,
        WarheadType::Fire => 3,
        WarheadType::Electric => 4,
        WarheadType::HollowPoint => 5,
        WarheadType::Super => 6,
    }
}

/// Damage dealt by a warhead to an armor class, in percent of the weapon's
/// damage, by armor: None, Flak, Plate, Light, Medium, Heavy, Wood, Steel,
/// Concrete, Special1, Special2.
pub open spec fn spec_warhead_row(w: WarheadType) -> Seq<u32> {
    match w {
        WarheadType::SA => seq![100, 100, 100, 2, 2, 2, 2, 2, 2, 50, 0],
        WarheadType::AP => seq![25, 50, 75, 100, 45, 100, 50, 40, 30, 60, 0],
        WarheadType::HE => seq![150, 100, 50, 60, 10, 10, 25, 20, 15, 80, 0],
        WarheadType::Fire => seq![150, 100, 0, 50, 25, 10, 75, 50, 25, 0, 0],
        WarheadType::Electric => seq![100, 100, 50, 80, 80, 60, 50, 40, 30, 80, 0],
        WarheadType::HollowPoint => seq![200, 100, 100, 1, 1, 1, 1, 1, 1, 50, 0],
        WarheadType::Super => seq![100, 100, 100, 100, 100, 100, 100, 100, 100, 100, 100],
    }
}

/// The damage multiplier, in percent, of a warhead against an armor class.
pub open spec fn spec_modifier(w: WarheadType, a: ArmorType) -> u32 {
    spec_warhead_row(w)[spec_armor_index(a)]
}

pub fn armor_index(a: ArmorType) -> (r: usize)
    ensures
        r as int == spec_armor_index(a),
        r < 11,
{
    match a {
        ArmorType::NoArmor => 0,
        ArmorType::Flak => 1,
        ArmorType::Plate => 2,
        ArmorType::Light => 3,
        ArmorType::Medium => 4,
        ArmorType::Heavy => 5,
        ArmorType::Wood => 6,
        ArmorType::Steel => 7,
        ArmorType::Concrete => 8,
        ArmorType::Special1 => 9,
        ArmorType::Special2 => 10,
    }
}

pub fn warhead_index(w: WarheadType) -> (r: usize)
    ensures
        r as int == spec_warhead_index(w),
        r < 7,
{
    match w {
        WarheadType::SA => 0,
        WarheadType::AP => 1,
        WarheadType::HE => 2,
        WarheadType::Fire => 3,
        WarheadType::Electric => 4,
        WarheadType::HollowPoint => 5,
        WarheadType::Super => 6,
    }
}

/// The table of damage multipliers, one row per warhead and one column per
/// armor class, in percent.
pub struct WarheadTable {
    modifiers: Vec<u32>,
}

impl WarheadTable {
    /// Every table holds the multipliers of `spec_modifier`.
    pub closed spec fn wf(self) -> bool {
        &&& self.modifiers.len() == 77
        &&& forall|w: WarheadType, a: ArmorType| #[trigger] self.modifiers@[spec_warhead_index(w) * 11 + spec_armor_index(a)] == spec_modifier(w, a)
    }

    fn push_row(m: &mut Vec<u32>, values: [u32; 11])
        ensures
            final(m)@ == old(m)@ + values@,
    {
        let mut i: usize = 0;
        while i < 11
            invariant
                i <= 11,
                m@ == old(m)@ + values@.subrange(0, i as int),
            decreases 11 - i,
        {
            m.push(values[i]);
            assert(values@.subrange(0, i + 1) == values@.subrange(0, i as int).push(values@[i as int]));
            i = i + 1;
        }
        assert(values@.subrange(0, 11) == values@);
    }

    /// The full table of multipliers.
    pub fn new() -> (t: WarheadTable)
        ensures
            t.wf(),
    {
        let mut m: Vec<u32> = Vec::new();
        Self::push_row(&mut m, [100, 100, 100, 2, 2, 2, 2, 2, 2, 50, 0]);
        Self::push_row(&mut m, [25, 50, 75, 100, 45, 100, 50, 40, 30, 60, 0]);
        Self::push_row(&mut m, [150, 100, 50, 60, 10, 10, 25, 20, 15, 80, 0]);
        Self::push_row(&mut m, [150, 100, 0, 50, 25, 10, 75, 50, 25, 0, 0]);
        Self::push_row(&mut m, [100, 100, 50, 80, 80, 60, 50, 40, 30, 80, 0]);
        Self::push_row(&mut m, [200, 100, 100, 1, 1, 1, 1, 1, 1, 50, 0]);
        Self::push_row(&mut m, [100, 100, 100, 100, 100, 100, 100, 100, 100, 100, 100]);
        let t = WarheadTable { modifiers: m };
        proof {
            assert forall|w: WarheadType, a: ArmorType| #[trigger] t.modifiers@[spec_warhead_index(w) * 11 + spec_armor_index(a)] == spec_modifier(w, a) by {
                assert(t.modifiers@[spec_warhead_index(w) * 11 + spec_armor_index(a)] == spec_warhead_row(w)[spec_armor_index(a)]);
            }
        }
        t
    }

    /// The damage multiplier, in percent, of a warhead hitting an armor class.
    pub fn get_modifier(&self, warhead: WarheadType, armor: ArmorType) -> (r: u32)
        requires
            self.wf(),
        ensures
            r == spec_modifier(warhead, armor),
    {
        let i = warhead_index(warhead) * 11 + armor_index(armor);
        let r = self.modifiers[i];
        assert(self.modifiers@[spec_warhead_index(warhead) * 11 + spec_armor_index(armor)] == spec_modifier(warhead, armor));
        r
    }
}

impl Default for WarheadTable {
    fn default() -> (t: Self)
        ensures
            t.wf(),
    {
        Self::new()
    }
}

/// A super warhead deals full damage to every armor class.
pub proof fn law_super_hits_everything_fully(a: ArmorType)
    ensures
        spec_modifier(WarheadType::Super, a) == 100,
{
}

/// Only a super warhead damages destructible projectiles.
pub proof fn law_only_super_harms_projectiles(w: WarheadType)
    ensures
        (spec_modifier(w, ArmorType::Special2) > 0) == (w == WarheadType::Super),
{
}

} // verus!
