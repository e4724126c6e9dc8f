//! Inventory handling: picking up, dropping, equipping and using items,
//! and the spell-like item effects.

use vstd::prelude::*;

use crate::PLAYER_ID;
use crate::color::Color;
use crate::fov::Fov;
use crate::game::CONFUSE_NUM_TURNS;
use crate::game::FIREBALL_DAMAGE;
use crate::game::FIREBALL_RADIUS;
use crate::game::Game;
use crate::game::HEAL_AMOUNT;
use crate::game::LIGHTNING_DAMAGE;
use crate::game::LIGHTNING_RANGE;
use crate::game::MAX_INV_SPACE;
use crate::game::Messages;
use crate::objects::DisplayObj;
use crate::objects::Equipment;
use crate::objects::Slot;
use crate::objects::cant_dequip_equipment_msg;
use crate::objects::cant_dequip_item_msg;
use crate::objects::damage_xp;
use crate::objects::damaged_obj_rel;
use crate::objects::death_msgs;
use crate::objects::dequipped_msg;
use crate::objects::lemma_take_damage_decompose;
use crate::objects::spec_dist_sq;
use crate::objects::with_xp;
use crate::text::dec_seq;

verus! {

/// Entry `i` of the inventory is an equipped piece in `slot`.
pub open spec fn equipped_at(inv: Seq<DisplayObj>, slot: Slot, i: int) -> bool {
    &&& 0 <= i < inv.len()
    &&& inv[i].equipment matches Some(e) && e.equipped && e.slot == slot
}

/// The first inventory entry at or after `i` that is equipped in `slot`.
pub open spec fn first_equipped_from(inv: Seq<DisplayObj>, slot: Slot, i: int) -> Option<int>
    decreases inv.len() - i,
{
    if i < 0 || i >= inv.len() {
        None
    } else if equipped_at(inv, slot, i) {
        Some(i)
    } else {
        first_equipped_from(inv, slot, i + 1)
    }
}

/// The object is a piece of equipment that is currently worn.
pub open spec fn is_equipped(o: DisplayObj) -> bool {
    o.equipment matches Some(e) && e.equipped
}

/// The slot of an object's equipment facet.
pub open spec fn eq_slot(o: DisplayObj) -> Slot {
    o.equipment->0.slot
}

/// No two inventory entries are equipped in the same slot.
pub open spec fn slot_unique(inv: Seq<DisplayObj>) -> bool {
    forall|i: int, j: int|
        0 <= i < inv.len() && 0 <= j < inv.len() && i != j && is_equipped(#[trigger] inv[i])
            && is_equipped(#[trigger] inv[j]) ==> eq_slot(inv[i]) != eq_slot(inv[j])
}

/// The index of the item currently equipped in `slot`, scanning the
/// inventory front to back.
pub fn get_equipped_in_slot(slot: Slot, inventory: &Vec<DisplayObj>) -> (r: Option<usize>)
    ensures
        match r {
            Some(i) => i < inventory@.len() && first_equipped_from(inventory@, slot, 0) == Some(
                i as int,
            ),
            None => first_equipped_from(inventory@, slot, 0) is None,
        },
{
    let mut i: usize = 0;
    while i < inventory.len()
        invariant
            0 <= i <= inventory@.len(),
            first_equipped_from(inventory@, slot, 0) == first_equipped_from(
                inventory@,
                slot,
                i as int,
            ),
        decreases inventory@.len() - i,
    {
        let matched = match &inventory[i].equipment {
            Some(e) => e.equipped && e.slot == slot,
            None => false,
        };
        if matched {
            return Some(i);
        }
        i = i + 1;
    }
    None
}

pub open spec fn inventory_full_msg(o: DisplayObj) -> Seq<char> {
    "Inventory full, cannot pick up "@ + o.name@ + "."@
}

pub open spec fn picked_up_msg(o: DisplayObj) -> Seq<char> {
    "You picked up a "@ + o.name@ + "!"@
}

/// What `swap_remove` leaves of the object list.
pub open spec fn swap_removed(s: Seq<DisplayObj>, i: int) -> Seq<DisplayObj> {
    s.update(i, s.last()).drop_last()
}

/// What picking one floor object up does: refused with a log line at
/// capacity; otherwise the object moves into the inventory and is
/// equipped when it is a piece of equipment whose slot is free.
pub open spec fn pick_rel(
    object_id: int,
    objs0: Seq<DisplayObj>,
    objs1: Seq<DisplayObj>,
    inv0: Seq<DisplayObj>,
    inv1: Seq<DisplayObj>,
    m0: Seq<(Seq<char>, Color)>,
    m1: Seq<(Seq<char>, Color)>,
) -> bool {
    let item = objs0[object_id];
    if inv0.len() >= MAX_INV_SPACE {
        &&& m1 == m0.push((inventory_full_msg(item), crate::color::red_spec()))
        &&& objs1 == objs0
        &&& inv1 == inv0
    } else {
        let inv_p = inv0.push(item);
        let m_p = m0.push((picked_up_msg(item), crate::color::green_spec()));
        &&& objs1 == swap_removed(objs0, object_id)
        &&& match item.equipment {
            Some(e) => if first_equipped_from(inv_p, e.slot, 0) is None {
                if item.item is Some {
                    &&& inv1 == inv_p.update(
                        inv0.len() as int,
                        DisplayObj { equipment: Some(Equipment { equipped: true, ..e }), ..item },
                    )
                    &&& m1 == m_p.push(
                        (crate::objects::equipped_msg(item, e), crate::color::light_green_spec()),
                    )
                } else {
                    &&& inv1 == inv_p
                    &&& m1 == m_p.push(
                        (crate::objects::cant_equip_item_msg(item), crate::color::red_spec()),
                    )
                }
            } else {
                &&& inv1 == inv_p
                &&& m1 == m_p
            },
            None => {
                &&& inv1 == inv_p
                &&& m1 == m_p
            },
        }
    }
}

/// Move a floor object into the inventory, refusing when the inventory
/// is at capacity.  A piece of equipment is equipped on pickup when its
/// slot is free.  Picking up never leaves two items equipped in the same
/// slot, provided the list was consistent when the item arrived.
pub fn pick_item_up(object_id: usize, game: &mut Game, objects: &mut Vec<DisplayObj>)
    requires
        object_id < old(objects)@.len(),
    ensures
        *final(game) == (Game {
            messages: final(game).messages,
            inventory: final(game).inventory,
            ..*old(game)
        }),
        pick_rel(
            object_id as int,
            old(objects)@,
            final(objects)@,
            old(game).inventory@,
            final(game).inventory@,
            old(game).messages@,
            final(game).messages@,
        ),
        slot_unique(old(game).inventory@.push(old(objects)@[object_id as int])) ==> slot_unique(
            final(game).inventory@,
        ),
{
    if game.inventory.len() >= MAX_INV_SPACE {
        let msg = "Inventory full, cannot pick up ".to_owned().concat(
            objects[object_id].name.as_str(),
        ).concat(".");
        game.messages.add(msg, crate::color::red());
    } else {
        let item = objects.swap_remove(object_id);
        let msg = "You picked up a ".to_owned().concat(item.name.as_str()).concat("!");
        game.messages.add(msg, crate::color::green());
        let index = game.inventory.len();
        let slot = match &item.equipment {
            Some(e) => Some(e.slot),
            None => None,
        };
        let ghost item_g = item;
        game.inventory.push(item);
        let ghost inv1 = game.inventory@;

        match slot {
            Some(s) => {
                if get_equipped_in_slot(s, &game.inventory).is_none() {
                    proof {
                        lemma_first_equipped_none(inv1, s, 0);
                        assert(!equipped_at(inv1, s, index as int));
                    }
                    let mut entry = DisplayObj::new(0, 0, ' ', "", crate::color::white(), false);
                    game.inventory.set_and_swap(index, &mut entry);
                    entry.equip(&mut game.messages);
                    game.inventory.set_and_swap(index, &mut entry);
                    proof {
                        if item_g.item is Some {
                            let it2 = DisplayObj {
                                equipment: Some(
                                    Equipment { equipped: true, ..item_g.equipment->0 },
                                ),
                                ..item_g
                            };
                            let inv2 = inv1.update(index as int, it2);
                            assert(game.inventory@ =~= inv2);
                            if slot_unique(inv1) {
                                assert forall|i: int, j: int|
                                    0 <= i < inv2.len() && 0 <= j < inv2.len() && i != j
                                        && is_equipped(inv2[i]) && is_equipped(
                                        inv2[j],
                                    ) implies eq_slot(inv2[i]) != eq_slot(inv2[j]) by {
                                    if i == index {
                                        assert(inv2[j] == inv1[j]);
                                        assert(!equipped_at(inv1, s, j));
                                    } else if j == index {
                                        assert(inv2[i] == inv1[i]);
                                        assert(!equipped_at(inv1, s, i));
                                    } else {
                                        assert(inv2[i] == inv1[i] && inv2[j] == inv1[j]);
                                    }
                                }
                                assert(slot_unique(inv2));
                            }
                        } else {
                            assert(game.inventory@ =~= inv1);
                        }
                    }
                }
            },
            None => {},
        }
    }
    proof {
        if slot_unique(old(game).inventory@.push(old(objects)@[object_id as int]))
            && game.inventory@ == old(game).inventory@ {
            let inv0 = old(game).inventory@;
            let inv1 = inv0.push(old(objects)@[object_id as int]);
            assert forall|i: int, j: int|
                0 <= i < inv0.len() && 0 <= j < inv0.len() && i != j && is_equipped(inv0[i])
                    && is_equipped(inv0[j]) implies eq_slot(inv0[i]) != eq_slot(inv0[j]) by {
                assert(inv1[i] == inv0[i]);
                assert(inv1[j] == inv0[j]);
            }
            assert(slot_unique(inv0));
        }
    }
}

/// After `first_equipped_from` comes back empty, no entry at or past the
/// start is equipped in that slot.
proof fn lemma_first_equipped_none(inv: Seq<DisplayObj>, slot: Slot, i: int)
    requires
        0 <= i,
        first_equipped_from(inv, slot, i) is None,
    ensures
        forall|k: int| i <= k < inv.len() ==> !equipped_at(inv, slot, k),
    decreases inv.len() - i,
{
    if i < inv.len() {
        lemma_first_equipped_none(inv, slot, i + 1);
    }
}

pub open spec fn dropped_msg(o: DisplayObj) -> Seq<char> {
    "You dropped a "@ + o.name@ + "."@
}

/// Remove an item from the inventory and place it at the player's feet,
/// taking it off first when it was equipped.
pub fn drop_item(inventory_id: usize, game: &mut Game, objects: &mut Vec<DisplayObj>)
    requires
        inventory_id < old(game).inventory@.len(),
        old(objects)@.len() >= 1,
    ensures
        final(game).inventory@ == old(game).inventory@.remove(inventory_id as int),
        *final(game) == (Game {
            messages: final(game).messages,
            inventory: final(game).inventory,
            ..*old(game)
        }),
        ({
            let it0 = old(game).inventory@[inventory_id as int];
            let p = old(objects)@[PLAYER_ID as int];
            let dq = (if it0.equipment is Some {
                dequip_outcome(it0)
            } else {
                (it0, Seq::<(Seq<char>, Color)>::empty())
            });
            let it1 = DisplayObj { x: p.x, y: p.y, ..dq.0 };
            &&& final(objects)@ == old(objects)@.push(it1)
            &&& final(game).messages@ == old(game).messages@ + dq.1 + seq![
                (dropped_msg(it0), crate::color::yellow_spec()),
            ]
        }),
{
    let mut item = game.inventory.remove(inventory_id);
    if item.equipment.is_some() {
        item.dequip(&mut game.messages);
    }
    item.set_pos(objects[PLAYER_ID].x, objects[PLAYER_ID].y);
    let msg = "You dropped a ".to_owned().concat(item.name.as_str()).concat(".");
    game.messages.add(msg, crate::color::yellow());
    objects.push(item);
    proof {
        let it0 = old(game).inventory@[inventory_id as int];
        let dq1 = (if it0.equipment is Some {
            dequip_outcome(it0)
        } else {
            (it0, Seq::<(Seq<char>, Color)>::empty())
        }).1;
        assert(game.messages@ =~= old(game).messages@ + dq1 + seq![
            (dropped_msg(it0), crate::color::yellow_spec()),
        ]);
    }
}

/// What taking an object off does to it, and the log entries it writes:
/// used when an object leaves the inventory.
pub open spec fn dequip_outcome(o: DisplayObj) -> (DisplayObj, Seq<(Seq<char>, Color)>) {
    if o.item is None {
        (o, seq![(cant_dequip_item_msg(o), crate::color::red_spec())])
    } else {
        match o.equipment {
            Some(e) => {
                if e.equipped {
                    (
                        DisplayObj { equipment: Some(Equipment { equipped: false, ..e }), ..o },
                        seq![(dequipped_msg(o, e), crate::color::light_yellow_spec())],
                    )
                } else {
                    (o, Seq::empty())
                }
            },
            None => (o, seq![(cant_dequip_equipment_msg(o), crate::color::red_spec())]),
        }
    }
}


/// Outcome of using an item.
#[derive(Clone, Copy, Debug, PartialEq, Eq, Structural)]
pub enum UseResult {
    UsedUp,
    Cancelled,
    UsedAndKept,
}

/// What putting an object on does to it, with the log entries written:
/// the counterpart of `dequip_outcome`.
pub open spec fn equip_outcome(o: DisplayObj) -> (DisplayObj, Seq<(Seq<char>, Color)>) {
    if o.item is None {
        (o, seq![(crate::objects::cant_equip_item_msg(o), crate::color::red_spec())])
    } else {
        match o.equipment {
            Some(e) => {
                if !e.equipped {
                    (
                        DisplayObj { equipment: Some(Equipment { equipped: true, ..e }), ..o },
                        seq![
                            (
                                crate::objects::equipped_msg(o, e),
                                crate::color::light_green_spec(),
                            ),
                        ],
                    )
                } else {
                    (o, Seq::empty())
                }
            },
            None => (
                o,
                seq![
                    (crate::objects::cant_equip_equipment_msg(o), crate::color::red_spec()),
                ],
            ),
        }
    }
}

/// Take an inventory entry out, run `dequip` on it, and put it back.
fn dequip_entry(inv: &mut Vec<DisplayObj>, i: usize, messages: &mut Messages)
    requires
        i < old(inv)@.len(),
    ensures
        final(inv)@ == old(inv)@.update(i as int, dequip_outcome(old(inv)@[i as int]).0),
        final(messages)@ == old(messages)@ + dequip_outcome(old(inv)@[i as int]).1,
{
    let mut entry = DisplayObj::new(0, 0, ' ', "", crate::color::white(), false);
    inv.set_and_swap(i, &mut entry);
    entry.dequip(messages);
    inv.set_and_swap(i, &mut entry);
    proof {
        assert(inv@ =~= old(inv)@.update(i as int, dequip_outcome(old(inv)@[i as int]).0));
        assert(messages@ =~= old(messages)@ + dequip_outcome(old(inv)@[i as int]).1);
    }
}

/// Take an inventory entry out, run `equip` on it, and put it back.
fn equip_entry(inv: &mut Vec<DisplayObj>, i: usize, messages: &mut Messages)
    requires
        i < old(inv)@.len(),
    ensures
        final(inv)@ == old(inv)@.update(i as int, equip_outcome(old(inv)@[i as int]).0),
        final(messages)@ == old(messages)@ + equip_outcome(old(inv)@[i as int]).1,
{
    let mut entry = DisplayObj::new(0, 0, ' ', "", crate::color::white(), false);
    inv.set_and_swap(i, &mut entry);
    entry.equip(messages);
    inv.set_and_swap(i, &mut entry);
    proof {
        assert(inv@ =~= old(inv)@.update(i as int, equip_outcome(old(inv)@[i as int]).0));
        assert(messages@ =~= old(messages)@ + equip_outcome(old(inv)@[i as int]).1);
    }
}

/// What toggling an equipment item does: whatever currently occupies the
/// slot is taken off first, then the item itself is toggled by its state
/// at entry.
pub open spec fn toggle_rel(
    iid: int,
    inv0: Seq<DisplayObj>,
    inv1: Seq<DisplayObj>,
    m0: Seq<(Seq<char>, Color)>,
    m1: Seq<(Seq<char>, Color)>,
    r: UseResult,
) -> bool {
    match inv0[iid].equipment {
        None => r == UseResult::Cancelled && inv1 == inv0 && m1 == m0,
        Some(e) => {
            let (inv_a, m_a) = (match first_equipped_from(inv0, e.slot, 0) {
                Some(c) => (
                    inv0.update(c, dequip_outcome(inv0[c]).0),
                    m0 + dequip_outcome(inv0[c]).1,
                ),
                None => (inv0, m0),
            });
            &&& r == UseResult::UsedAndKept
            &&& if e.equipped {
                inv1 == inv_a.update(iid, dequip_outcome(inv_a[iid]).0) && m1 == m_a
                    + dequip_outcome(inv_a[iid]).1
            } else {
                inv1 == inv_a.update(iid, equip_outcome(inv_a[iid]).0) && m1 == m_a
                    + equip_outcome(inv_a[iid]).1
            }
        },
    }
}

/// Equip or take off one inventory item, freeing its slot first.
pub fn toggle_equipment(inventory_id: usize, game: &mut Game) -> (r: UseResult)
    requires
        inventory_id < old(game).inventory@.len(),
    ensures
        *final(game) == (Game {
            messages: final(game).messages,
            inventory: final(game).inventory,
            ..*old(game)
        }),
        toggle_rel(
            inventory_id as int,
            old(game).inventory@,
            final(game).inventory@,
            old(game).messages@,
            final(game).messages@,
            r,
        ),
{
    let equipment = match &game.inventory[inventory_id].equipment {
        Some(e) => *e,
        None => {
            return UseResult::Cancelled;
        },
    };
    match get_equipped_in_slot(equipment.slot, &game.inventory) {
        Some(current) => {
            dequip_entry(&mut game.inventory, current, &mut game.messages);
        },
        None => {},
    }
    if equipment.equipped {
        dequip_entry(&mut game.inventory, inventory_id, &mut game.messages);
    } else {
        equip_entry(&mut game.inventory, inventory_id, &mut game.messages);
    }
    UseResult::UsedAndKept
}

pub open spec fn full_health_msg() -> (Seq<char>, Color) {
    ("You are already at full health."@, crate::color::red_spec())
}

pub open spec fn heal_cast_msg() -> (Seq<char>, Color) {
    ("Your wounds start to feel better!"@, crate::color::light_violet_spec())
}

/// What drinking the healing potion does: cancelled at full health, else
/// a fixed heal clamped to the maximum.
pub open spec fn heal_rel(
    objs0: Seq<DisplayObj>,
    objs1: Seq<DisplayObj>,
    inv: Seq<DisplayObj>,
    m0: Seq<(Seq<char>, Color)>,
    m1: Seq<(Seq<char>, Color)>,
    r: UseResult,
) -> bool {
    let p = objs0[PLAYER_ID as int];
    match p.fighter {
        Some(f) => {
            let m = crate::objects::spec_max_hp(p, inv);
            if f.hp == m {
                &&& r == UseResult::Cancelled
                &&& objs1 == objs0
                &&& m1 == m0.push(full_health_msg())
            } else {
                let hp1 = if f.hp + HEAL_AMOUNT > m {
                    m
                } else {
                    f.hp + HEAL_AMOUNT as int
                };
                &&& r == UseResult::UsedUp
                &&& objs1 == objs0.update(
                    PLAYER_ID as int,
                    DisplayObj {
                        fighter: Some(crate::objects::Fighter { hp: hp1 as i32, ..f }),
                        ..p
                    },
                )
                &&& m1 == m0.push(heal_cast_msg())
            }
        },
        None => r == UseResult::Cancelled && objs1 == objs0 && m1 == m0,
    }
}

/// Heal the player, unless already at full health.
pub fn cast_heal(game: &mut Game, objects: &mut Vec<DisplayObj>) -> (r: UseResult)
    requires
        old(objects)@.len() >= 1,
        old(game).inventory@.len() <= MAX_INV_SPACE,
    ensures
        *final(game) == (Game { messages: final(game).messages, ..*old(game) }),
        heal_rel(
            old(objects)@,
            final(objects)@,
            old(game).inventory@,
            old(game).messages@,
            final(game).messages@,
            r,
        ),
{
    let has_fighter = objects[PLAYER_ID].fighter.is_some();
    if !has_fighter {
        return UseResult::Cancelled;
    }
    let max_hp = objects[PLAYER_ID].max_hp(game);
    let hp = match &objects[PLAYER_ID].fighter {
        Some(f) => f.hp,
        None => 0,
    };
    if hp == max_hp {
        game.messages.add("You are already at full health.".to_owned(), crate::color::red());
        return UseResult::Cancelled;
    }
    game.messages.add("Your wounds start to feel better!".to_owned(), crate::color::light_violet());
    let ghost objs0 = objects@;
    let mut player = DisplayObj::new(0, 0, ' ', "", crate::color::white(), false);
    objects.set_and_swap(PLAYER_ID, &mut player);
    player.heal(HEAL_AMOUNT, game);
    objects.set_and_swap(PLAYER_ID, &mut player);
    proof {
        let p = objs0[PLAYER_ID as int];
        let f = p.fighter->0;
        let m = crate::objects::spec_max_hp(p, old(game).inventory@);
        let hp1 = if f.hp + HEAL_AMOUNT > m {
            m
        } else {
            f.hp + HEAL_AMOUNT as int
        };
        assert(objects@ =~= objs0.update(
            PLAYER_ID as int,
            DisplayObj { fighter: Some(crate::objects::Fighter { hp: hp1 as i32, ..f }), ..p },
        ));
    }
    UseResult::UsedUp
}

pub open spec fn no_enemy_msg() -> (Seq<char>, Color) {
    ("No enemy is close enough to strike."@, crate::color::red_spec())
}

pub open spec fn confuse_msg(o: DisplayObj) -> Seq<char> {
    "The eyes of "@ + o.name@ + " look vacant, as he starts to stumble around!"@
}

/// What casting confusion on a chosen monster does: its behaviour is
/// wrapped for a fixed number of turns; with no target the cast is
/// cancelled.
pub open spec fn confuse_rel(
    target: Option<usize>,
    objs0: Seq<DisplayObj>,
    objs1: Seq<DisplayObj>,
    m0: Seq<(Seq<char>, Color)>,
    m1: Seq<(Seq<char>, Color)>,
    r: UseResult,
) -> bool {
    match target {
        Some(id) => {
            let o = objs0[id as int];
            let prev = match o.ai {
                Some(a) => a,
                None => crate::objects::Ai::Basic,
            };
            &&& r == UseResult::UsedUp
            &&& objs1.len() == objs0.len()
            &&& forall|j: int| 0 <= j < objs0.len() && j != id ==> objs1[j] == #[trigger] objs0[j]
            &&& objs1[id as int].ai matches Some(
                crate::objects::Ai::Confused { previous_ai, num_turns },
            ) && *previous_ai == prev && num_turns == CONFUSE_NUM_TURNS
            &&& objs1[id as int] == (DisplayObj { ai: objs1[id as int].ai, ..o })
            &&& m1 == m0.push((confuse_msg(o), crate::color::light_green_spec()))
        },
        None => {
            &&& r == UseResult::Cancelled
            &&& objs1 == objs0
            &&& m1 == m0.push(no_enemy_msg())
        },
    }
}

/// Wrap the chosen monster's behaviour in confusion for a fixed number
/// of turns.
pub fn cast_confuse(
    target: Option<usize>,
    game: &mut Game,
    objects: &mut Vec<DisplayObj>,
) -> (r: UseResult)
    requires
        target matches Some(id) ==> id < old(objects)@.len(),
    ensures
        *final(game) == (Game { messages: final(game).messages, ..*old(game) }),
        confuse_rel(
            target,
            old(objects)@,
            final(objects)@,
            old(game).messages@,
            final(game).messages@,
            r,
        ),
{
    match target {
        Some(monster_id) => {
            let mut entry = DisplayObj::new(0, 0, ' ', "", crate::color::white(), false);
            objects.set_and_swap(monster_id, &mut entry);
            let old_ai = match entry.ai.take() {
                Some(a) => a,
                None => crate::objects::Ai::Basic,
            };
            entry.ai = Some(
                crate::objects::Ai::Confused {
                    previous_ai: Box::new(old_ai),
                    num_turns: CONFUSE_NUM_TURNS,
                },
            );
            let msg = "The eyes of ".to_owned().concat(entry.name.as_str()).concat(
                " look vacant, as he starts to stumble around!",
            );
            game.messages.add(msg, crate::color::light_green());
            objects.set_and_swap(monster_id, &mut entry);
        },
        None => {
            game.messages.add(
                "No enemy is close enough to strike.".to_owned(),
                crate::color::red(),
            );
            return UseResult::Cancelled;
        },
    }
    UseResult::UsedUp
}


/// Credit experience to an object's fighter, saturating at the top of
/// the `u32` range.
fn add_xp(objects: &mut Vec<DisplayObj>, id: usize, amount: u32)
    requires
        id < old(objects)@.len(),
        old(objects)@[id as int].fighter is Some,
    ensures
        final(objects)@ == old(objects)@.update(
            id as int,
            with_xp(old(objects)@[id as int], amount as int),
        ),
{
    let ghost objs0 = objects@;
    let mut entry = DisplayObj::new(0, 0, ' ', "", crate::color::white(), false);
    objects.set_and_swap(id, &mut entry);
    let f = entry.fighter.unwrap();
    let nx: u32 = if amount > u32::MAX - f.xp {
        u32::MAX
    } else {
        f.xp + amount
    };
    entry.fighter = Some(crate::objects::Fighter { xp: nx, ..f });
    objects.set_and_swap(id, &mut entry);
    proof {
        assert(objects@ =~= objs0.update(id as int, with_xp(objs0[id as int], amount as int)));
    }
}

/// A monster the lightning bolt may strike: not the player, able to
/// fight, driven by an AI, and in sight.
pub open spec fn lightning_candidate(objs: Seq<DisplayObj>, fov: Fov, k: int) -> bool {
    &&& 0 <= k < objs.len()
    &&& k != PLAYER_ID
    &&& objs[k].fighter is Some
    &&& objs[k].ai is Some
    &&& fov.spec_vis(objs[k].x as int, objs[k].y as int)
}

/// Squared distance from the player to object `k`.
pub open spec fn player_dist_sq(objs: Seq<DisplayObj>, k: int) -> int {
    spec_dist_sq(
        objs[PLAYER_ID as int].x as int,
        objs[PLAYER_ID as int].y as int,
        objs[k].x as int,
        objs[k].y as int,
    )
}

/// `id` is the monster the bolt strikes: a candidate within range, with
/// no closer candidate, and the earliest of those at its distance.
pub open spec fn closest_pick(objs: Seq<DisplayObj>, fov: Fov, range: int, id: int) -> bool {
    &&& lightning_candidate(objs, fov, id)
    &&& player_dist_sq(objs, id) < (range + 1) * (range + 1)
    &&& forall|m: int|
        #[trigger] lightning_candidate(objs, fov, m) ==> player_dist_sq(objs, m) > player_dist_sq(
            objs,
            id,
        ) || (player_dist_sq(objs, m) == player_dist_sq(objs, id) && m >= id)
}

/// Find the closest in-sight monster within `max_range` of the player.
pub fn closest_monster(fov: &Fov, objects: &Vec<DisplayObj>, max_range: i32) -> (r: Option<usize>)
    requires
        objects@.len() >= 1,
        0 <= max_range,
    ensures
        match r {
            Some(id) => id < objects@.len() && closest_pick(
                objects@,
                *fov,
                max_range as int,
                id as int,
            ),
            None => forall|m: int|
                #[trigger] lightning_candidate(objects@, *fov, m) ==> player_dist_sq(objects@, m)
                    >= (max_range + 1) * (max_range + 1),
        },
{
    let mut closest_enemy: Option<usize> = None;
    let r1: i128 = max_range as i128 + 1;
    proof {
        assert(0 <= r1 * r1 <= 0x4000000000000000) by (nonlinear_arith)
            requires
                1 <= r1 <= 0x80000000,
        ;
    }
    let mut closest_dist: i128 = r1 * r1;
    let px = objects[PLAYER_ID].x;
    let py = objects[PLAYER_ID].y;

    let mut id: usize = 0;
    while id < objects.len()
        invariant
            0 <= id <= objects@.len(),
            objects@.len() >= 1,
            px == objects@[PLAYER_ID as int].x,
            py == objects@[PLAYER_ID as int].y,
            0 <= max_range,
            closest_dist <= (max_range + 1) * (max_range + 1),
            match closest_enemy {
                Some(b) => {
                    &&& b < id
                    &&& lightning_candidate(objects@, *fov, b as int)
                    &&& closest_dist < (max_range + 1) * (max_range + 1)
                    &&& closest_dist == player_dist_sq(objects@, b as int)
                    &&& forall|m: int|
                        0 <= m < id && #[trigger] lightning_candidate(objects@, *fov, m)
                            ==> player_dist_sq(objects@, m) > closest_dist || (player_dist_sq(
                            objects@,
                            m,
                        ) == closest_dist && m >= b)
                },
                None => {
                    &&& closest_dist == (max_range + 1) * (max_range + 1)
                    &&& forall|m: int|
                        0 <= m < id && #[trigger] lightning_candidate(objects@, *fov, m)
                            ==> player_dist_sq(objects@, m) >= closest_dist
                },
            },
        decreases objects@.len() - id,
    {
        let is_candidate = id != PLAYER_ID && objects[id].fighter.is_some()
            && objects[id].ai.is_some() && fov.is_in_fov(objects[id].x, objects[id].y);
        if is_candidate {
            let dist = objects[PLAYER_ID].distance_sq(objects[id].x, objects[id].y);
            if dist < closest_dist {
                closest_enemy = Some(id);
                closest_dist = dist;
            }
        }
        id = id + 1;
    }
    closest_enemy
}

pub open spec fn lightning_msg(o: DisplayObj) -> Seq<char> {
    "A lightning bolt strikes the "@ + o.name@ + " with a loud thunder! The damage is "@ + dec_seq(
        LIGHTNING_DAMAGE as nat,
    ) + " hit points."@
}

/// What the lightning scroll does: it strikes the closest in-sight
/// monster within its range for a fixed amount, crediting the player
/// with the kill; with no monster in range it is cancelled.
pub open spec fn lightning_rel(
    fov: Fov,
    objs0: Seq<DisplayObj>,
    objs1: Seq<DisplayObj>,
    m0: Seq<(Seq<char>, Color)>,
    m1: Seq<(Seq<char>, Color)>,
    r: UseResult,
) -> bool {
    if exists|k: int|
        #[trigger] lightning_candidate(objs0, fov, k) && player_dist_sq(objs0, k) < (
        LIGHTNING_RANGE + 1) * (LIGHTNING_RANGE + 1) {
        exists|id: int|
            {
                let mm = m0.push((lightning_msg(objs0[id]), crate::color::light_blue_spec()));
                &&& #[trigger] closest_pick(objs0, fov, LIGHTNING_RANGE as int, id)
                &&& r == UseResult::UsedUp
                &&& objs1.len() == objs0.len()
                &&& forall|j: int|
                    0 <= j < objs0.len() && j != id && j != PLAYER_ID ==> objs1[j]
                        == #[trigger] objs0[j]
                &&& damaged_obj_rel(objs0[id], LIGHTNING_DAMAGE as int, objs1[id])
                &&& m1 == mm + death_msgs(objs0[id], LIGHTNING_DAMAGE as int)
                &&& objs1[PLAYER_ID as int] == (match damage_xp(
                    objs0[id],
                    LIGHTNING_DAMAGE as int,
                ) {
                    Some(x) => with_xp(objs0[PLAYER_ID as int], x as int),
                    None => objs0[PLAYER_ID as int],
                })
            }
    } else {
        &&& r == UseResult::Cancelled
        &&& objs1 == objs0
        &&& m1 == m0.push(no_enemy_msg())
    }
}

/// Strike the closest monster in sight with a lightning bolt.
pub fn cast_lightning(fov: &Fov, game: &mut Game, objects: &mut Vec<DisplayObj>) -> (r: UseResult)
    requires
        old(objects)@.len() >= 1,
        old(objects)@[PLAYER_ID as int].fighter is Some,
    ensures
        *final(game) == (Game { messages: final(game).messages, ..*old(game) }),
        lightning_rel(
            *fov,
            old(objects)@,
            final(objects)@,
            old(game).messages@,
            final(game).messages@,
            r,
        ),
{
    let ghost objs0 = objects@;
    match closest_monster(fov, objects, LIGHTNING_RANGE) {
        Some(monster_id) => {
            let msg = "A lightning bolt strikes the ".to_owned().concat(
                objects[monster_id].name.as_str(),
            ).concat(" with a loud thunder! The damage is ").concat(
                crate::text::u32_string(LIGHTNING_DAMAGE as u32).as_str(),
            ).concat(" hit points.");
            game.messages.add(msg, crate::color::light_blue());
            let ghost mm = game.messages@;
            let mut entry = DisplayObj::new(0, 0, ' ', "", crate::color::white(), false);
            objects.set_and_swap(monster_id, &mut entry);
            let reward = entry.take_damage(LIGHTNING_DAMAGE, game);
            objects.set_and_swap(monster_id, &mut entry);
            proof {
                lemma_take_damage_decompose(
                    objs0[monster_id as int],
                    LIGHTNING_DAMAGE as int,
                    objects@[monster_id as int],
                    mm,
                    game.messages@,
                );
            }
            match reward {
                Some(x) => {
                    add_xp(objects, PLAYER_ID, x);
                },
                None => {},
            }
            proof {
                assert(closest_pick(objs0, *fov, LIGHTNING_RANGE as int, monster_id as int));
            }
            UseResult::UsedUp
        },
        None => {
            game.messages.add(
                "No enemy is close enough to strike.".to_owned(),
                crate::color::red(),
            );
            UseResult::Cancelled
        },
    }
}


/// The blast catches an object: a fighter within the fireball radius of
/// the chosen tile.
pub open spec fn in_blast(o: DisplayObj, cx: int, cy: int) -> bool {
    &&& spec_dist_sq(o.x as int, o.y as int, cx, cy) <= FIREBALL_RADIUS * FIREBALL_RADIUS
    &&& o.fighter is Some
}

pub open spec fn explosion_msg() -> Seq<char> {
    "The fireball explodes, burning everything within "@ + dec_seq(FIREBALL_RADIUS as nat)
        + " tiles"@
}

pub open spec fn burn_msg(o: DisplayObj) -> Seq<char> {
    "The "@ + o.name@ + " gets burned for "@ + dec_seq(FIREBALL_DAMAGE as nat) + " hit points"@
}

/// The log entries the blast writes, in object order: a burn line for
/// each caught object, followed by its death announcement if it dies.
pub open spec fn fireball_trace(objs: Seq<DisplayObj>, cx: int, cy: int) -> Seq<
    (Seq<char>, Color),
>
    decreases objs.len(),
{
    if objs.len() == 0 {
        Seq::empty()
    } else {
        fireball_trace(objs.drop_last(), cx, cy) + (if in_blast(objs.last(), cx, cy) {
            seq![(burn_msg(objs.last()), crate::color::orange_spec())] + death_msgs(
                objs.last(),
                FIREBALL_DAMAGE as int,
            )
        } else {
            Seq::empty()
        })
    }
}

/// The experience the blast yields to the player: the rewards of all
/// non-player kills.
pub open spec fn fireball_xp(objs: Seq<DisplayObj>, cx: int, cy: int) -> int
    decreases objs.len(),
{
    if objs.len() == 0 {
        0
    } else {
        fireball_xp(objs.drop_last(), cx, cy) + ({
            let k = objs.len() - 1;
            if k != PLAYER_ID && in_blast(objs.last(), cx, cy) && damage_xp(
                objs.last(),
                FIREBALL_DAMAGE as int,
            ) is Some {
                damage_xp(objs.last(), FIREBALL_DAMAGE as int)->0 as int
            } else {
                0
            }
        })
    }
}

/// What the fireball scroll does with a chosen tile: every fighter
/// within the radius, the player included, takes the blast damage, and
/// the player is credited with the non-player kills' experience alone.
/// Without a tile the cast is cancelled silently.
pub open spec fn fireball_rel(
    target: Option<(i32, i32)>,
    objs0: Seq<DisplayObj>,
    objs1: Seq<DisplayObj>,
    m0: Seq<(Seq<char>, Color)>,
    m1: Seq<(Seq<char>, Color)>,
    r: UseResult,
) -> bool {
    match target {
        None => r == UseResult::Cancelled && objs1 == objs0 && m1 == m0,
        Some((cx, cy)) => {
            let p = objs0[PLAYER_ID as int];
            let total = fireball_xp(objs0, cx as int, cy as int);
            &&& r == UseResult::UsedUp
            &&& objs1.len() == objs0.len()
            &&& m1 == m0 + seq![(explosion_msg(), crate::color::orange_spec())] + fireball_trace(
                objs0,
                cx as int,
                cy as int,
            )
            &&& forall|j: int|
                0 < j < objs0.len() ==> (if in_blast(#[trigger] objs0[j], cx as int, cy as int) {
                    damaged_obj_rel(objs0[j], FIREBALL_DAMAGE as int, objs1[j])
                } else {
                    objs1[j] == objs0[j]
                })
            &&& if in_blast(p, cx as int, cy as int) {
                exists|pm: DisplayObj|
                    #[trigger] damaged_obj_rel(p, FIREBALL_DAMAGE as int, pm) && pm.fighter is Some
                        && objs1[PLAYER_ID as int] == with_xp(pm, total)
            } else {
                objs1[PLAYER_ID as int] == with_xp(p, total)
            }
        },
    }
}

/// Burn everything around the chosen tile.
pub fn cast_fireball(
    target: Option<(i32, i32)>,
    game: &mut Game,
    objects: &mut Vec<DisplayObj>,
) -> (r: UseResult)
    requires
        old(objects)@.len() >= 1,
        old(objects)@.len() <= 0x100000000,
        target is Some ==> (old(objects)@[PLAYER_ID as int].fighter matches Some(f)
            && f.on_death == crate::objects::DeathCallback::Player),
    ensures
        *final(game) == (Game { messages: final(game).messages, ..*old(game) }),
        fireball_rel(
            target,
            old(objects)@,
            final(objects)@,
            old(game).messages@,
            final(game).messages@,
            r,
        ),
{
    let (x, y) = match target {
        Some(tile_pos) => tile_pos,
        None => {
            return UseResult::Cancelled;
        },
    };
    let msg = "The fireball explodes, burning everything within ".to_owned().concat(
        crate::text::u32_string(FIREBALL_RADIUS as u32).as_str(),
    ).concat(" tiles");
    game.messages.add(msg, crate::color::orange());
    proof {
        assert(game.messages@ =~= old(game).messages@ + seq![
            (explosion_msg(), crate::color::orange_spec()),
        ]);
    }

    let ghost objs0 = objects@;
    let ghost m_base = game.messages@;
    let radius_sq: i128 = (FIREBALL_RADIUS as i128) * (FIREBALL_RADIUS as i128);
    let mut xp_to_gain: u64 = 0;
    let mut id: usize = 0;
    while id < objects.len()
        invariant
            0 <= id <= objs0.len(),
            objects@.len() == objs0.len(),
            objs0.len() <= 0x100000000,
            radius_sq == FIREBALL_RADIUS * FIREBALL_RADIUS,
            objs0[PLAYER_ID as int].fighter matches Some(f) && f.on_death
                == crate::objects::DeathCallback::Player,
            *game == (Game { messages: game.messages, ..*old(game) }),
            m_base == old(game).messages@ + seq![(explosion_msg(), crate::color::orange_spec())],
            game.messages@ == m_base + fireball_trace(objs0.take(id as int), x as int, y as int),
            0 <= xp_to_gain <= (id as int) * 0xFFFFFFFF,
            xp_to_gain == fireball_xp(objs0.take(id as int), x as int, y as int),
            forall|m: int| id <= m < objs0.len() ==> objects@[m] == #[trigger] objs0[m],
            forall|j: int|
                0 < j < id ==> (if in_blast(#[trigger] objs0[j], x as int, y as int) {
                    damaged_obj_rel(objs0[j], FIREBALL_DAMAGE as int, objects@[j])
                } else {
                    objects@[j] == objs0[j]
                }),
            id > 0 ==> (if in_blast(objs0[PLAYER_ID as int], x as int, y as int) {
                damaged_obj_rel(
                    objs0[PLAYER_ID as int],
                    FIREBALL_DAMAGE as int,
                    objects@[PLAYER_ID as int],
                ) && objects@[PLAYER_ID as int].fighter is Some
            } else {
                objects@[PLAYER_ID as int] == objs0[PLAYER_ID as int]
            }),
        decreases objs0.len() - id,
    {
        let affected = objects[id].fighter.is_some() && objects[id].distance_sq(x, y) <= radius_sq;
        let ghost m_pre = game.messages@;
        if affected {
            let msg2 = "The ".to_owned().concat(objects[id].name.as_str()).concat(
                " gets burned for ",
            ).concat(crate::text::u32_string(FIREBALL_DAMAGE as u32).as_str()).concat(
                " hit points",
            );
            game.messages.add(msg2, crate::color::orange());
            let ghost m_burn = game.messages@;
            let mut entry = DisplayObj::new(0, 0, ' ', "", crate::color::white(), false);
            objects.set_and_swap(id, &mut entry);
            let reward = entry.take_damage(FIREBALL_DAMAGE, game);
            objects.set_and_swap(id, &mut entry);
            proof {
                lemma_take_damage_decompose(
                    objs0[id as int],
                    FIREBALL_DAMAGE as int,
                    objects@[id as int],
                    m_burn,
                    game.messages@,
                );
            }
            match reward {
                Some(reward_xp) => {
                    if id != PLAYER_ID {
                        xp_to_gain = xp_to_gain + reward_xp as u64;
                    }
                },
                None => {},
            }
        }
        proof {
            let s = objs0;
            assert(s.take(id as int + 1).drop_last() =~= s.take(id as int));
            assert(s.take(id as int + 1).last() == s[id as int]);
            assert(game.messages@ =~= m_base + fireball_trace(
                s.take(id as int + 1),
                x as int,
                y as int,
            ));
        }
        id = id + 1;
    }
    proof {
        assert(objs0.take(objs0.len() as int) =~= objs0);
    }
    let credit: u32 = if xp_to_gain > u32::MAX as u64 {
        u32::MAX
    } else {
        xp_to_gain as u32
    };
    let ghost p_mid = objects@[PLAYER_ID as int];
    add_xp(objects, PLAYER_ID, credit);
    proof {
        assert(objects@[PLAYER_ID as int] == with_xp(
            p_mid,
            fireball_xp(objs0, x as int, y as int),
        ));
    }
    UseResult::UsedUp
}


/// The first non-player fighter standing on `(x, y)`, from `i` on.
pub open spec fn first_monster_at_from(
    objs: Seq<DisplayObj>,
    x: i32,
    y: i32,
    i: int,
) -> Option<int>
    decreases objs.len() - i,
{
    if i < 0 || i >= objs.len() {
        None
    } else if i != PLAYER_ID && objs[i].fighter is Some && objs[i].x == x && objs[i].y == y {
        Some(i)
    } else {
        first_monster_at_from(objs, x, y, i + 1)
    }
}

/// The monster a click on `(x, y)` selects: the first non-player
/// fighter standing there.
pub fn monster_at(x: i32, y: i32, objects: &Vec<DisplayObj>) -> (r: Option<usize>)
    ensures
        match r {
            Some(id) => id < objects@.len() && first_monster_at_from(objects@, x, y, 0) == Some(
                id as int,
            ),
            None => first_monster_at_from(objects@, x, y, 0) is None,
        },
{
    let mut id: usize = 0;
    while id < objects.len()
        invariant
            0 <= id <= objects@.len(),
            first_monster_at_from(objects@, x, y, 0) == first_monster_at_from(
                objects@,
                x,
                y,
                id as int,
            ),
        decreases objects@.len() - id,
    {
        let o = &objects[id];
        if id != PLAYER_ID && o.fighter.is_some() && o.x == x && o.y == y {
            return Some(id);
        }
        id = id + 1;
    }
    None
}

pub open spec fn cannot_use_msg(o: DisplayObj) -> Seq<char> {
    "The "@ + o.name@ + " cannot be used."@
}

/// How the use result is settled: a used-up item leaves the inventory, a
/// cancelled use is logged, a kept item stays.
pub open spec fn use_epilogue(
    res: UseResult,
    iid: int,
    inv_mid: Seq<DisplayObj>,
    m_mid: Seq<(Seq<char>, Color)>,
    inv1: Seq<DisplayObj>,
    m1: Seq<(Seq<char>, Color)>,
) -> bool {
    match res {
        UseResult::UsedUp => inv1 == inv_mid.remove(iid) && m1 == m_mid,
        UseResult::UsedAndKept => inv1 == inv_mid && m1 == m_mid,
        UseResult::Cancelled => inv1 == inv_mid && m1 == m_mid.push(
            ("Cancelled"@, crate::color::white_spec()),
        ),
    }
}

/// Use one inventory item: dispatch on its kind, then remove it when it
/// was used up.  Targets for the confuse and fireball scrolls are chosen
/// by the presentation layer beforehand.
pub fn use_item(
    inventory_id: usize,
    fov: &Fov,
    target_monster: Option<usize>,
    target_tile: Option<(i32, i32)>,
    game: &mut Game,
    objects: &mut Vec<DisplayObj>,
)
    requires
        inventory_id < old(game).inventory@.len(),
        old(objects)@.len() >= 1,
        old(objects)@.len() <= 0x100000000,
        old(game).inventory@.len() <= MAX_INV_SPACE,
        old(game).inventory@[inventory_id as int].item == Some(crate::objects::Item::Lightning)
            ==> old(objects)@[PLAYER_ID as int].fighter is Some,
        old(game).inventory@[inventory_id as int].item == Some(crate::objects::Item::Fireball)
            ==> (old(objects)@[PLAYER_ID as int].fighter matches Some(f) && f.on_death
            == crate::objects::DeathCallback::Player),
        old(game).inventory@[inventory_id as int].item == Some(crate::objects::Item::Confuse)
            ==> (target_monster matches Some(id) ==> id < old(objects)@.len()),
    ensures
        *final(game) == (Game {
            messages: final(game).messages,
            inventory: final(game).inventory,
            ..*old(game)
        }),
        use_item_rel(
            inventory_id as int,
            *fov,
            target_monster,
            target_tile,
            old(game).inventory@,
            final(game).inventory@,
            old(objects)@,
            final(objects)@,
            old(game).messages@,
            final(game).messages@,
        ),
{
    let kind = game.inventory[inventory_id].item;
    match kind {
        None => {
            let msg = "The ".to_owned().concat(game.inventory[inventory_id].name.as_str()).concat(
                " cannot be used.",
            );
            game.messages.add(msg, crate::color::white());
        },
        Some(k) => {
            let result = match k {
                crate::objects::Item::Heal => cast_heal(game, objects),
                crate::objects::Item::Lightning => cast_lightning(fov, game, objects),
                crate::objects::Item::Confuse => cast_confuse(target_monster, game, objects),
                crate::objects::Item::Fireball => cast_fireball(target_tile, game, objects),
                crate::objects::Item::Sword => toggle_equipment(inventory_id, game),
                crate::objects::Item::Shield => toggle_equipment(inventory_id, game),
                crate::objects::Item::Helmet => toggle_equipment(inventory_id, game),
            };
            let ghost inv_mid = game.inventory@;
            let ghost m_mid = game.messages@;
            match result {
                UseResult::UsedUp => {
                    game.inventory.remove(inventory_id);
                },
                UseResult::UsedAndKept => {},
                UseResult::Cancelled => {
                    game.messages.add("Cancelled".to_owned(), crate::color::white());
                },
            }
            proof {
                assert(use_epilogue(
                    result,
                    inventory_id as int,
                    inv_mid,
                    m_mid,
                    game.inventory@,
                    game.messages@,
                ));
            }
        },
    }
}

/// Everything using one inventory item does, by the item's kind.
pub open spec fn use_item_rel(
    iid: int,
    fov: Fov,
    target_monster: Option<usize>,
    target_tile: Option<(i32, i32)>,
    inv0: Seq<DisplayObj>,
    inv1: Seq<DisplayObj>,
    objs0: Seq<DisplayObj>,
    objs1: Seq<DisplayObj>,
    m0: Seq<(Seq<char>, Color)>,
    m1: Seq<(Seq<char>, Color)>,
) -> bool {
    ({
            match inv0[iid].item {
                None => {
                    &&& inv1 == inv0
                    &&& objs1 == objs0
                    &&& m1 == m0.push((cannot_use_msg(inv0[iid]), crate::color::white_spec()))
                },
                Some(kind) => match kind {
                    crate::objects::Item::Heal => exists|res: UseResult, m_mid: Seq<
                        (Seq<char>, Color),
                    >|
                        #[trigger] use_epilogue(res, iid, inv0, m_mid, inv1, m1) && heal_rel(
                            objs0,
                            objs1,
                            inv0,
                            m0,
                            m_mid,
                            res,
                        ),
                    crate::objects::Item::Lightning => exists|res: UseResult, m_mid: Seq<
                        (Seq<char>, Color),
                    >|
                        #[trigger] use_epilogue(res, iid, inv0, m_mid, inv1, m1) && lightning_rel(
                            fov,
                            objs0,
                            objs1,
                            m0,
                            m_mid,
                            res,
                        ),
                    crate::objects::Item::Confuse => exists|res: UseResult, m_mid: Seq<
                        (Seq<char>, Color),
                    >|
                        #[trigger] use_epilogue(res, iid, inv0, m_mid, inv1, m1) && confuse_rel(
                            target_monster,
                            objs0,
                            objs1,
                            m0,
                            m_mid,
                            res,
                        ),
                    crate::objects::Item::Fireball => exists|res: UseResult, m_mid: Seq<
                        (Seq<char>, Color),
                    >|
                        #[trigger] use_epilogue(res, iid, inv0, m_mid, inv1, m1) && fireball_rel(
                            target_tile,
                            objs0,
                            objs1,
                            m0,
                            m_mid,
                            res,
                        ),
                    _ => exists|res: UseResult, inv_mid: Seq<DisplayObj>, m_mid: Seq<
                        (Seq<char>, Color),
                    >|
                        #[trigger] use_epilogue(res, iid, inv_mid, m_mid, inv1, m1) && toggle_rel(
                            iid,
                            inv0,
                            inv_mid,
                            m0,
                            m_mid,
                            res,
                        ) && objs1 == objs0,
                },
            }
        })
}

} // verus!
