use vstd::prelude::*;
use crate::economy::{Spot, spec_dist3_sq};

verus! {

/// How close (squared, in millionths of a squared cell: 1.5 cells) a click
/// must land to an enemy unit or an ore field to pick it.
pub const PICK_REACH_SQ: i128 = 2_250_000;
/// How close (squared: 3 cells) a click must land to a refinery to pick it.
pub const REFINERY_PICK_REACH_SQ: i128 = 9_000_000;

/// A unit as a right click sees it.
#[derive(Clone, Copy, Debug, PartialEq, Eq, Structural)]
pub struct ClickableUnit {
    pub entity: u64,
    pub spot: Spot,
    pub owner: usize,
    pub visible: bool,
}

/// Unit `u` is an enemy of the local player that is shown and lies within
/// picking reach of the click.
pub open spec fn spec_enemy_picked(u: ClickableUnit, click: Spot, local: usize) -> bool {
    u.owner != local && u.visible && spec_dist3_sq(u.spot, click) < PICK_REACH_SQ
}

/// The first enemy unit picked by the click.
pub open spec fn spec_clicked_enemy(units: Seq<ClickableUnit>, click: Spot, local: usize) -> Option<u64> {
    if exists|i: int| 0 <= i < units.len() && #[trigger] spec_enemy_picked(units[i], click, local) {
        let i = choose|i: int| 0 <= i < units.len() && #[trigger] spec_enemy_picked(units[i], click, local)
            && forall|j: int| 0 <= j < i ==> !#[trigger] spec_enemy_picked(units[j], click, local);
        Some(units[i].entity)
    } else {
        None
    }
}

/// The first ore field within picking reach of the click.
pub open spec fn spec_clicked_ore(ores: Seq<(u64, Spot)>, click: Spot) -> Option<u64> {
    if exists|i: int| 0 <= i < ores.len() && spec_dist3_sq((#[trigger] ores[i]).1, click) < PICK_REACH_SQ {
        let i = choose|i: int| 0 <= i < ores.len() && spec_dist3_sq((#[trigger] ores[i]).1, click) < PICK_REACH_SQ
            && forall|j: int| 0 <= j < i ==> spec_dist3_sq((#[trigger] ores[j]).1, click) >= PICK_REACH_SQ;
        Some(ores[i].0)
    } else {
        None
    }
}

/// Refinery `r` belongs to the local player and lies within picking reach.
pub open spec fn spec_refinery_picked(r: (u64, Spot, usize), click: Spot, local: usize) -> bool {
    r.2 == local && spec_dist3_sq(r.1, click) < REFINERY_PICK_REACH_SQ
}

/// The first of the local player's refineries picked by the click.
pub open spec fn spec_clicked_refinery(refineries: Seq<(u64, Spot, usize)>, click: Spot, local: usize) -> Option<u64> {
    if exists|i: int| 0 <= i < refineries.len() && #[trigger] spec_refinery_picked(refineries[i], click, local) {
        let i = choose|i: int| 0 <= i < refineries.len() && #[trigger] spec_refinery_picked(refineries[i], click, local)
            && forall|j: int| 0 <= j < i ==> !#[trigger] spec_refinery_picked(refineries[j], click, local);
        Some(refineries[i].0)
    } else {
        None
    }
}

/// The enemy a click picks.
pub fn clicked_enemy(units: &Vec<ClickableUnit>, click: Spot, local: usize) -> (r: Option<u64>)
    ensures
        r == spec_clicked_enemy(units@, click, local),
{
    let mut i: usize = 0;
    while i < units.len()
        invariant
            i <= units@.len(),
            forall|j: int| 0 <= j < i ==> !#[trigger] spec_enemy_picked(units@[j], click, local),
        decreases units@.len() - i,
    {
        let u = units[i];
        if u.owner != local && u.visible && u.spot.dist3_sq(&click) < PICK_REACH_SQ {
            proof {
                assert(spec_enemy_picked(units@[i as int], click, local));
                let c = choose|c: int| 0 <= c < units@.len() && #[trigger] spec_enemy_picked(units@[c], click, local)
                    && forall|j: int| 0 <= j < c ==> !#[trigger] spec_enemy_picked(units@[j], click, local);
                if c < i {
                    assert(!spec_enemy_picked(units@[c], click, local));
                }
                if c > i {
                    assert(!spec_enemy_picked(units@[i as int], click, local));
                }
            }
            return Some(u.entity);
        }
        i = i + 1;
    }
    None
}

/// The ore field a click picks.
pub fn clicked_ore(ores: &Vec<(u64, Spot)>, click: Spot) -> (r: Option<u64>)
    ensures
        r == spec_clicked_ore(ores@, click),
{
    let mut i: usize = 0;
    while i < ores.len()
        invariant
            i <= ores@.len(),
            forall|j: int| 0 <= j < i ==> spec_dist3_sq((#[trigger] ores@[j]).1, click) >= PICK_REACH_SQ,
        decreases ores@.len() - i,
    {
        let o = ores[i];
        if o.1.dist3_sq(&click) < PICK_REACH_SQ {
            proof {
                let c = choose|c: int| 0 <= c < ores@.len() && spec_dist3_sq((#[trigger] ores@[c]).1, click) < PICK_REACH_SQ
                    && forall|j: int| 0 <= j < c ==> spec_dist3_sq((#[trigger] ores@[j]).1, click) >= PICK_REACH_SQ;
                if c < i {
                    assert(spec_dist3_sq(ores@[c].1, click) >= PICK_REACH_SQ);
                }
                if c > i {
                    assert(spec_dist3_sq(ores@[i as int].1, click) >= PICK_REACH_SQ);
                }
            }
            return Some(o.0);
        }
        i = i + 1;
    }
    None
}

/// The refinery a click picks.
pub fn clicked_refinery(refineries: &Vec<(u64, Spot, usize)>, click: Spot, local: usize) -> (r: Option<u64>)
    ensures
        r == spec_clicked_refinery(refineries@, click, local),
{
    let mut i: usize = 0;
    while i < refineries.len()
        invariant
            i <= refineries@.len(),
            forall|j: int| 0 <= j < i ==> !#[trigger] spec_refinery_picked(refineries@[j], click, local),
        decreases refineries@.len() - i,
    {
        let r = refineries[i];
        if r.2 == local && r.1.dist3_sq(&click) < REFINERY_PICK_REACH_SQ {
            proof {
                assert(spec_refinery_picked(refineries@[i as int], click, local));
                let c = choose|c: int| 0 <= c < refineries@.len() && #[trigger] spec_refinery_picked(refineries@[c], click, local)
                    && forall|j: int| 0 <= j < c ==> !#[trigger] spec_refinery_picked(refineries@[j], click, local);
                if c < i {
                    assert(!spec_refinery_picked(refineries@[c], click, local));
                }
                if c > i {
                    assert(!spec_refinery_picked(refineries@[i as int], click, local));
                }
            }
            return Some(r.0);
        }
        i = i + 1;
    }
    None
}

/// The orders a right click gives the local player's selection.
#[derive(Clone, Debug)]
pub struct RightClickOrders {
    /// Selected buildings whose rally point moves to the click.
    pub rally_buildings: Vec<u64>,
    /// Harvesters sent to harvest a field.
    pub harvest: Option<(Vec<u64>, u64)>,
    /// Harvesters sent back to a refinery.
    pub return_to_refinery: Option<(Vec<u64>, u64)>,
    /// Units sent to attack an enemy.
    pub attack: Option<(Vec<u64>, u64)>,
    /// Units sent to the click point.
    pub movement: Option<Vec<u64>>,
}

/// The entities of the selected units owned by the local player that the
/// filter keeps, in order: `Some(true)` keeps harvesters, `Some(false)` the
/// others, `None` all.
pub open spec fn spec_own_units(selected: Seq<(u64, usize, bool)>, local: usize, harvesters: Option<bool>) -> Seq<u64>
    decreases selected.len(),
{
    if selected.len() == 0 {
        Seq::empty()
    } else {
        let rest = spec_own_units(selected.drop_last(), local, harvesters);
        let s = selected.last();
        let kept = s.1 == local && match harvesters {
            Some(h) => s.2 == h,
            None => true,
        };
        if kept { rest.push(s.0) } else { rest }
    }
}

/// The entities of the selected buildings owned by the local player.
pub open spec fn spec_own_buildings(selected: Seq<(u64, usize)>, local: usize) -> Seq<u64>
    decreases selected.len(),
{
    if selected.len() == 0 {
        Seq::empty()
    } else {
        let rest = spec_own_buildings(selected.drop_last(), local);
        if selected.last().1 == local { rest.push(selected.last().0) } else { rest }
    }
}

fn own_units(selected: &Vec<(u64, usize, bool)>, local: usize, harvesters: Option<bool>) -> (r: Vec<u64>)
    ensures
        r@ == spec_own_units(selected@, local, harvesters),
{
    let mut out: Vec<u64> = Vec::new();
    let mut i: usize = 0;
    while i < selected.len()
        invariant
            i <= selected@.len(),
            out@ == spec_own_units(selected@.subrange(0, i as int), local, harvesters),
        decreases selected@.len() - i,
    {
        assert(selected@.subrange(0, i + 1).drop_last() =~= selected@.subrange(0, i as int));
        let s = selected[i];
        let kept = s.1 == local && match harvesters {
            Some(h) => s.2 == h,
            None => true,
        };
        if kept {
            out.push(s.0);
        }
        i = i + 1;
    }
    assert(selected@.subrange(0, selected@.len() as int) =~= selected@);
    out
}

fn own_buildings(selected: &Vec<(u64, usize)>, local: usize) -> (r: Vec<u64>)
    ensures
        r@ == spec_own_buildings(selected@, local),
{
    let mut out: Vec<u64> = Vec::new();
    let mut i: usize = 0;
    while i < selected.len()
        invariant
            i <= selected@.len(),
            out@ == spec_own_buildings(selected@.subrange(0, i as int), local),
        decreases selected@.len() - i,
    {
        assert(selected@.subrange(0, i + 1).drop_last() =~= selected@.subrange(0, i as int));
        if selected[i].1 == local {
            out.push(selected[i].0);
        }
        i = i + 1;
    }
    assert(selected@.subrange(0, selected@.len() as int) =~= selected@);
    out
}

/// The view of an optional group order.
pub open spec fn spec_group_view(o: Option<(Vec<u64>, u64)>) -> Option<(Seq<u64>, u64)> {
    match o {
        Some((units, target)) => Some((units@, target)),
        None => None,
    }
}

/// Orders for a right click at `click` given the local player's selection:
/// selected buildings move their rally point there; then, with units
/// selected, a click on an ore field sends harvesters to harvest it (the
/// others move there), a click on one of the player's refineries sends
/// harvesters back to it (the others move there), a click on a shown enemy
/// attacks it with every selected unit, and any other click moves them all
/// there. Ore is checked before refineries, and refineries before enemies.
pub fn right_click_orders(
    click: Spot,
    local_player: usize,
    units: &Vec<ClickableUnit>,
    ores: &Vec<(u64, Spot)>,
    refineries: &Vec<(u64, Spot, usize)>,
    selected_units: &Vec<(u64, usize, bool)>,
    selected_buildings: &Vec<(u64, usize)>,
) -> (r: RightClickOrders)
    ensures
        ({
            let all = spec_own_units(selected_units@, local_player, None);
            let harvesters = spec_own_units(selected_units@, local_player, Some(true));
            let others = spec_own_units(selected_units@, local_player, Some(false));
            let ore = spec_clicked_ore(ores@, click);
            let refinery = spec_clicked_refinery(refineries@, click, local_player);
            let enemy = spec_clicked_enemy(units@, click, local_player);
            let unit_orders = all.len() > 0;
            &&& r.rally_buildings@ == spec_own_buildings(selected_buildings@, local_player)
            &&& spec_group_view(r.harvest) == if unit_orders && ore is Some && harvesters.len() > 0 {
                Some((harvesters, ore->0))
            } else {
                None
            }
            &&& spec_group_view(r.return_to_refinery) == if unit_orders && ore is None && refinery is Some && harvesters.len() > 0 {
                Some((harvesters, refinery->0))
            } else {
                None
            }
            &&& spec_group_view(r.attack) == if unit_orders && ore is None && refinery is None && enemy is Some {
                Some((all, enemy->0))
            } else {
                None
            }
            &&& match r.movement {
                Some(m) => unit_orders && if ore is Some || refinery is Some {
                    others.len() > 0 && m@ == others
                } else {
                    enemy is None && m@ == all
                },
                None => !unit_orders || ((ore is Some || refinery is Some) && others.len() == 0)
                    || (ore is None && refinery is None && enemy is Some),
            }
        }),
{
    let rally_buildings = own_buildings(selected_buildings, local_player);
    let all = own_units(selected_units, local_player, None);
    let harvesters = own_units(selected_units, local_player, Some(true));
    let others = own_units(selected_units, local_player, Some(false));
    let mut orders = RightClickOrders { rally_buildings, harvest: None, return_to_refinery: None, attack: None, movement: None };
    if all.len() == 0 {
        return orders;
    }
    let enemy = clicked_enemy(units, click, local_player);
    let ore = clicked_ore(ores, click);
    let refinery = clicked_refinery(refineries, click, local_player);
    match ore {
        Some(o) => {
            if harvesters.len() > 0 {
                orders.harvest = Some((harvesters, o));
            }
            if others.len() > 0 {
                orders.movement = Some(others);
            }
        },
        None => match refinery {
            Some(f) => {
                if harvesters.len() > 0 {
                    orders.return_to_refinery = Some((harvesters, f));
                }
                if others.len() > 0 {
                    orders.movement = Some(others);
                }
            },
            None => match enemy {
                Some(e) => orders.attack = Some((all, e)),
                None => orders.movement = Some(all),
            },
        },
    }
    orders
}

} // verus!
