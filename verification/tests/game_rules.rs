use roguelike_tut::color::Color;
use roguelike_tut::conf::{from_dungeon_level, Transition, TransitionTables};
use roguelike_tut::fov::Fov;
use roguelike_tut::game::{Game, GameSettings, Messages, Tile};
use roguelike_tut::items::{
    cast_confuse, cast_fireball, cast_heal, cast_lightning, get_equipped_in_slot, monster_at,
    pick_item_up, toggle_equipment, use_item, UseResult,
};
use roguelike_tut::objects::{Ai, DeathCallback, DisplayObj, Equipment, Fighter, Item, Slot};
use roguelike_tut::turn::{
    apply_level_up, handle_command, needs_level_up, new_game, Command, LevelUpChoice, PlayerAction,
};
use roguelike_tut::PLAYER_ID;

fn white() -> Color {
    Color { r: 255, g: 255, b: 255 }
}

fn open_map(w: usize, h: usize) -> Vec<Vec<Tile>> {
    vec![vec![Tile::empty(); h]; w]
}

fn test_game(w: usize, h: usize) -> Game {
    let mut settings = GameSettings::new();
    settings.map_w = w as i32;
    settings.map_h = h as i32;
    Game {
        game_settings: settings,
        map: open_map(w, h),
        messages: Messages::new(),
        inventory: Vec::new(),
        dungeon_level: 1,
    }
}

fn player_at(x: i32, y: i32) -> DisplayObj {
    let mut p = DisplayObj::new(x, y, '@', "player", white(), true);
    p.alive = true;
    p.fighter = Some(Fighter {
        base_max_hp: 100,
        hp: 100,
        base_defense: 1,
        base_power: 3,
        xp: 0,
        on_death: DeathCallback::Player,
    });
    p
}

fn monster_named(name: &str, x: i32, y: i32, hp: i32, power: i32, xp: u32) -> DisplayObj {
    let mut m = DisplayObj::new(x, y, 'o', name, white(), true);
    m.alive = true;
    m.fighter = Some(Fighter {
        base_max_hp: hp,
        hp,
        base_defense: 0,
        base_power: power,
        xp,
        on_death: DeathCallback::Monster,
    });
    m.ai = Some(Ai::Basic);
    m
}

fn full_fov(w: usize, h: usize) -> Fov {
    Fov { visible: vec![vec![true; h]; w] }
}

fn empty_tables() -> TransitionTables {
    TransitionTables::new(Vec::new(), Vec::new())
}

fn equipment_item(name: &str, slot: Slot, power_bonus: i32) -> DisplayObj {
    let mut it = DisplayObj::new(0, 0, '-', name, white(), false);
    it.item = Some(Item::Sword);
    it.equipment = Some(Equipment {
        slot,
        equipped: false,
        max_hp_bonus: 0,
        power_bonus,
        defense_bonus: 0,
    });
    it
}

// ---- transition table lookup -------------------------------------------

#[test]
fn lookup_table_levels() {
    let table = vec![
        Transition { level: 1, value: 5 },
        Transition { level: 4, value: 10 },
        Transition { level: 7, value: 2 },
    ];
    assert_eq!(from_dungeon_level(&table, 3), 5);
    assert_eq!(from_dungeon_level(&table, 4), 10);
    assert_eq!(from_dungeon_level(&table, 10), 2);
    assert_eq!(from_dungeon_level(&table, 0), 0);
}

#[test]
fn lookup_empty_table_is_zero() {
    let table: Vec<Transition> = Vec::new();
    assert_eq!(from_dungeon_level(&table, 5), 0);
}

// ---- damage and death ---------------------------------------------------

#[test]
fn take_damage_subtracts_hp() {
    let mut game = test_game(10, 10);
    let mut m = monster_named("orc", 2, 2, 10, 3, 35);
    let xp = m.take_damage(3, &mut game);
    assert_eq!(xp, None);
    assert_eq!(m.fighter.unwrap().hp, 7);
    assert!(m.alive);
}

#[test]
fn take_damage_nonpositive_is_ignored() {
    let mut game = test_game(10, 10);
    let mut m = monster_named("orc", 2, 2, 10, 3, 35);
    let xp = m.take_damage(0, &mut game);
    assert_eq!(xp, None);
    assert_eq!(m.fighter.unwrap().hp, 10);
    let xp2 = m.take_damage(-5, &mut game);
    assert_eq!(xp2, None);
    assert_eq!(m.fighter.unwrap().hp, 10);
}

#[test]
fn lethal_damage_kills_monster() {
    let mut game = test_game(10, 10);
    let mut m = monster_named("orc", 2, 2, 10, 3, 35);
    let xp = m.take_damage(10, &mut game);
    assert_eq!(xp, Some(35));
    assert!(!m.alive);
    assert!(m.fighter.is_none());
    assert!(m.ai.is_none());
    assert!(!m.blocks);
    assert_eq!(m.glyph, '%');
    assert_eq!(m.name, "remains of orc");
}

#[test]
fn attack_applies_power_minus_defense() {
    let mut game = test_game(10, 10);
    let mut attacker = monster_named("orc", 2, 2, 10, 5, 35);
    let mut target = player_at(3, 3);
    // damage = 5 - 1 = 4
    attacker.attack(&mut target, &mut game);
    assert_eq!(target.fighter.unwrap().hp, 96);
    let (msg, _) = game.messages.get(0).clone();
    assert_eq!(msg, "orc attacks player for 4 hit points.");
}

#[test]
fn attack_with_no_effect_changes_nothing() {
    let mut game = test_game(10, 10);
    let mut weak = monster_named("rat", 2, 2, 5, 1, 1);
    let mut target = player_at(3, 3);
    // damage = 1 - 1 = 0: no effect
    weak.attack(&mut target, &mut game);
    assert_eq!(target.fighter.unwrap().hp, 100);
    let (msg, _) = game.messages.get(0).clone();
    assert_eq!(msg, "rat attacks player but it has no effect!");
}

#[test]
fn attacker_is_credited_with_kill() {
    let mut game = test_game(10, 10);
    let mut player = player_at(2, 2);
    let mut victim = monster_named("orc", 3, 3, 2, 1, 35);
    // player power 3, orc defense 0 -> 3 damage kills the 2 hp orc
    player.attack(&mut victim, &mut game);
    assert_eq!(player.fighter.unwrap().xp, 35);
    assert!(victim.fighter.is_none());
}

#[test]
fn heal_clamps_at_max_hp() {
    let game = test_game(10, 10);
    let mut p = player_at(2, 2);
    if let Some(f) = p.fighter.as_mut() {
        f.hp = 95;
    }
    let mut p2 = p.clone();
    p2.heal(12, &game);
    assert_eq!(p2.fighter.unwrap().hp, 100);
    if let Some(f) = p.fighter.as_mut() {
        f.hp = 50;
    }
    p.heal(12, &game);
    assert_eq!(p.fighter.unwrap().hp, 62);
}

// ---- equipment -----------------------------------------------------------

#[test]
fn equip_is_idempotent() {
    let mut messages = Messages::new();
    let mut sword = equipment_item("sword", Slot::RightHand, 2);
    sword.equip(&mut messages);
    assert!(sword.equipment.unwrap().equipped);
    let count_after_first = messages.len();
    let snapshot = sword.clone();
    sword.equip(&mut messages);
    assert_eq!(messages.len(), count_after_first);
    assert_eq!(sword.equipment.unwrap(), snapshot.equipment.unwrap());
    assert_eq!(sword.name, snapshot.name);
}

#[test]
fn dequip_unequipped_is_noop() {
    let mut messages = Messages::new();
    let mut sword = equipment_item("sword", Slot::RightHand, 2);
    sword.dequip(&mut messages);
    assert_eq!(messages.len(), 0);
    assert!(!sword.equipment.unwrap().equipped);
}

#[test]
fn equip_without_item_facet_logs_warning() {
    let mut messages = Messages::new();
    let mut oddity = DisplayObj::new(0, 0, '?', "oddity", white(), false);
    oddity.equipment = Some(Equipment {
        slot: Slot::Head,
        equipped: false,
        max_hp_bonus: 0,
        power_bonus: 0,
        defense_bonus: 0,
    });
    oddity.equip(&mut messages);
    assert_eq!(messages.len(), 1);
    assert!(!oddity.equipment.unwrap().equipped);
}

#[test]
fn pickup_auto_equips_when_slot_free() {
    let mut game = test_game(10, 10);
    let mut objects = vec![player_at(2, 2), equipment_item("shield", Slot::LeftHand, 0)];
    objects[1].set_pos(2, 2);
    pick_item_up(1, &mut game, &mut objects);
    assert_eq!(game.inventory.len(), 1);
    assert!(game.inventory[0].equipment.unwrap().equipped);
}

#[test]
fn pickup_does_not_equip_occupied_slot() {
    let mut game = test_game(10, 10);
    let mut held = equipment_item("sword", Slot::LeftHand, 1);
    if let Some(e) = held.equipment.as_mut() {
        e.equipped = true;
    }
    game.inventory.push(held);
    let mut objects = vec![player_at(2, 2), equipment_item("shield", Slot::LeftHand, 0)];
    objects[1].set_pos(2, 2);
    pick_item_up(1, &mut game, &mut objects);
    assert_eq!(game.inventory.len(), 2);
    assert!(!game.inventory[1].equipment.unwrap().equipped);
    // never two equipped in the same slot
    let mut equipped_left = 0;
    for it in &game.inventory {
        if let Some(e) = it.equipment {
            if e.equipped && e.slot == Slot::LeftHand {
                equipped_left += 1;
            }
        }
    }
    assert_eq!(equipped_left, 1);
}

#[test]
fn pickup_refused_when_inventory_full() {
    let mut game = test_game(10, 10);
    for i in 0..26 {
        let mut filler = DisplayObj::new(0, 0, '!', "potion", white(), false);
        filler.item = Some(Item::Heal);
        filler.level = i;
        game.inventory.push(filler);
    }
    let mut objects = vec![player_at(2, 2), equipment_item("shield", Slot::LeftHand, 0)];
    let floor_before = objects.len();
    pick_item_up(1, &mut game, &mut objects);
    assert_eq!(game.inventory.len(), 26);
    assert_eq!(objects.len(), floor_before);
    let (msg, _) = game.messages.get(0).clone();
    assert_eq!(msg, "Inventory full, cannot pick up shield.");
}

#[test]
fn toggle_swaps_slot_occupant() {
    let mut game = test_game(10, 10);
    let mut sword = equipment_item("sword", Slot::LeftHand, 1);
    if let Some(e) = sword.equipment.as_mut() {
        e.equipped = true;
    }
    game.inventory.push(sword);
    game.inventory.push(equipment_item("shield", Slot::LeftHand, 0));
    let r = toggle_equipment(1, &mut game);
    assert!(matches!(r, UseResult::UsedAndKept));
    assert!(!game.inventory[0].equipment.unwrap().equipped);
    assert!(game.inventory[1].equipment.unwrap().equipped);
}

#[test]
fn equipment_bonus_counts_only_for_player() {
    let mut game = test_game(10, 10);
    let mut sword = equipment_item("sword", Slot::LeftHand, 4);
    if let Some(e) = sword.equipment.as_mut() {
        e.equipped = true;
    }
    game.inventory.push(sword);
    let p = player_at(2, 2);
    assert_eq!(p.power(&game), 7); // base 3 + bonus 4
    let m = monster_named("orc", 3, 3, 10, 5, 35);
    assert_eq!(m.power(&game), 5); // monsters get no inventory bonus
    let equipped = p.get_all_equipped(&game);
    assert_eq!(equipped.len(), 1);
    assert_eq!(equipped[0].power_bonus, 4);
    assert!(m.get_all_equipped(&game).is_empty());
}

#[test]
fn equipped_slot_lookup_finds_first() {
    let mut inv = vec![
        equipment_item("sword", Slot::LeftHand, 1),
        equipment_item("shield", Slot::LeftHand, 0),
    ];
    assert_eq!(get_equipped_in_slot(Slot::LeftHand, &inv), None);
    if let Some(e) = inv[1].equipment.as_mut() {
        e.equipped = true;
    }
    assert_eq!(get_equipped_in_slot(Slot::LeftHand, &inv), Some(1));
    assert_eq!(get_equipped_in_slot(Slot::RightHand, &inv), None);
}

// ---- leveling ------------------------------------------------------------

#[test]
fn level_up_threshold() {
    let mut p = player_at(2, 2);
    p.level = 1;
    if let Some(f) = p.fighter.as_mut() {
        f.xp = 50;
    }
    // threshold is 50 + 1 * 150 = 200, and 50 < 200
    assert!(!needs_level_up(&p));
    if let Some(f) = p.fighter.as_mut() {
        f.xp = 200;
    }
    assert!(needs_level_up(&p));
}

#[test]
fn apply_level_up_spends_xp() {
    let mut game = test_game(10, 10);
    let mut p = player_at(2, 2);
    if let Some(f) = p.fighter.as_mut() {
        f.xp = 230;
    }
    let mut objects = vec![p];
    apply_level_up(LevelUpChoice::Strength, &mut game, &mut objects);
    let f = objects[0].fighter.unwrap();
    assert_eq!(objects[0].level, 2);
    assert_eq!(f.xp, 30); // 230 - 200
    assert_eq!(f.base_power, 4);
    let (msg, _) = game.messages.get(0).clone();
    assert_eq!(msg, "Your battle skills grow stronger! You reached level 2!");
}

#[test]
fn apply_level_up_constitution() {
    let mut game = test_game(10, 10);
    let mut p = player_at(2, 2);
    if let Some(f) = p.fighter.as_mut() {
        f.xp = 200;
    }
    let mut objects = vec![p];
    apply_level_up(LevelUpChoice::Constitution, &mut game, &mut objects);
    let f = objects[0].fighter.unwrap();
    assert_eq!(f.base_max_hp, 120);
    assert_eq!(f.hp, 120);
    assert_eq!(f.xp, 0);
}

// ---- confusion -----------------------------------------------------------

#[test]
fn confusion_wraps_and_restores_basic() {
    let mut game = test_game(10, 10);
    let fov = full_fov(10, 10);
    let tables = empty_tables();
    let mut objects = vec![player_at(1, 1), monster_named("orc", 8, 8, 10, 0, 35)];

    let r = cast_confuse(Some(1), &mut game, &mut objects);
    assert!(matches!(r, UseResult::UsedUp));
    assert!(matches!(
        objects[1].ai,
        Some(Ai::Confused { num_turns: 10, .. })
    ));

    // hide the monster from the player so no counterattack interferes
    let _ = &tables;
    for _ in 0..11 {
        roguelike_tut::ai::ai_take_turn(1, &fov, &mut game, &mut objects);
    }
    // the count has run 10, 9, ..., 0: one more resolution restores the
    // wrapped behaviour
    assert!(matches!(
        objects[1].ai,
        Some(Ai::Confused { num_turns: -1, .. })
    ));
    let before = game.messages.len();
    roguelike_tut::ai::ai_take_turn(1, &fov, &mut game, &mut objects);
    assert!(matches!(objects[1].ai, Some(Ai::Basic)));
    let (msg, _) = game.messages.get(before).clone();
    assert_eq!(msg, "The orc is no longer confused!");
}

#[test]
fn confuse_without_target_is_cancelled() {
    let mut game = test_game(10, 10);
    let mut objects = vec![player_at(1, 1)];
    let r = cast_confuse(None, &mut game, &mut objects);
    assert!(matches!(r, UseResult::Cancelled));
    let (msg, _) = game.messages.get(0).clone();
    assert_eq!(msg, "No enemy is close enough to strike.");
}

// ---- spells --------------------------------------------------------------

#[test]
fn heal_cancels_at_full_health() {
    let mut game = test_game(10, 10);
    let mut objects = vec![player_at(1, 1)];
    let r = cast_heal(&mut game, &mut objects);
    assert!(matches!(r, UseResult::Cancelled));
    let (msg, _) = game.messages.get(0).clone();
    assert_eq!(msg, "You are already at full health.");
    if let Some(f) = objects[0].fighter.as_mut() {
        f.hp = 80;
    }
    let r2 = cast_heal(&mut game, &mut objects);
    assert!(matches!(r2, UseResult::UsedUp));
    assert_eq!(objects[0].fighter.unwrap().hp, 92); // 80 + 12
}

#[test]
fn lightning_strikes_closest_visible_monster() {
    let mut game = test_game(20, 20);
    let fov = full_fov(20, 20);
    let mut objects = vec![
        player_at(1, 1),
        monster_named("far orc", 5, 5, 100, 0, 35),
        monster_named("near orc", 2, 2, 100, 0, 35),
    ];
    let r = cast_lightning(&fov, &mut game, &mut objects);
    assert!(matches!(r, UseResult::UsedUp));
    assert_eq!(objects[2].fighter.unwrap().hp, 60); // 100 - 40
    assert_eq!(objects[1].fighter.unwrap().hp, 100);
}

#[test]
fn lightning_without_target_cancels() {
    let mut game = test_game(20, 20);
    let fov = full_fov(20, 20);
    // the only monster is beyond the range of 5
    let mut objects = vec![player_at(1, 1), monster_named("orc", 15, 15, 10, 0, 35)];
    let r = cast_lightning(&fov, &mut game, &mut objects);
    assert!(matches!(r, UseResult::Cancelled));
    let (msg, _) = game.messages.get(0).clone();
    assert_eq!(msg, "No enemy is close enough to strike.");
}

#[test]
fn fireball_damages_exactly_the_blast_area() {
    let mut game = test_game(30, 30);
    let mut objects = vec![
        player_at(10, 10),       // distance 0 from center: hit
        monster_named("close orc", 12, 10, 100, 0, 7), // distance 2: hit
        monster_named("edge orc", 13, 10, 100, 0, 11), // distance 3: hit
        monster_named("far orc", 14, 10, 100, 0, 13),  // distance 4: spared
        monster_named("doomed orc", 10, 12, 20, 0, 35), // distance 2, dies
    ];
    let r = cast_fireball(Some((10, 10)), &mut game, &mut objects);
    assert!(matches!(r, UseResult::UsedUp));
    assert_eq!(objects[1].fighter.unwrap().hp, 76); // 100 - 24
    assert_eq!(objects[2].fighter.unwrap().hp, 76);
    assert_eq!(objects[3].fighter.unwrap().hp, 100);
    assert!(objects[4].fighter.is_none()); // died
    let pf = objects[0].fighter.unwrap();
    assert_eq!(pf.hp, 76); // the player is caught too
    assert_eq!(pf.xp, 35); // only the non-player kill is credited
}

#[test]
fn fireball_self_kill_gives_no_xp() {
    let mut game = test_game(30, 30);
    let mut p = player_at(10, 10);
    if let Some(f) = p.fighter.as_mut() {
        f.hp = 5;
    }
    let mut objects = vec![p];
    let r = cast_fireball(Some((10, 10)), &mut game, &mut objects);
    assert!(matches!(r, UseResult::UsedUp));
    let pf = objects[0].fighter.unwrap();
    assert!(pf.hp <= 0);
    assert!(!objects[0].alive);
    assert_eq!(pf.xp, 0);
}

#[test]
fn fireball_without_target_cancels_silently() {
    let mut game = test_game(30, 30);
    let mut objects = vec![player_at(10, 10)];
    let r = cast_fireball(None, &mut game, &mut objects);
    assert!(matches!(r, UseResult::Cancelled));
    assert_eq!(game.messages.len(), 0);
}

// ---- use_item dispatch ----------------------------------------------------

#[test]
fn used_up_item_leaves_inventory() {
    let mut game = test_game(10, 10);
    let fov = full_fov(10, 10);
    let mut potion = DisplayObj::new(0, 0, '!', "healing potion", white(), false);
    potion.item = Some(Item::Heal);
    game.inventory.push(potion);
    let mut p = player_at(1, 1);
    if let Some(f) = p.fighter.as_mut() {
        f.hp = 40;
    }
    let mut objects = vec![p];
    use_item(0, &fov, None, None, &mut game, &mut objects);
    assert_eq!(game.inventory.len(), 0);
    assert_eq!(objects[0].fighter.unwrap().hp, 52);
}

#[test]
fn cancelled_use_keeps_item_and_logs() {
    let mut game = test_game(10, 10);
    let fov = full_fov(10, 10);
    let mut potion = DisplayObj::new(0, 0, '!', "healing potion", white(), false);
    potion.item = Some(Item::Heal);
    game.inventory.push(potion);
    let mut objects = vec![player_at(1, 1)]; // full health: cast cancels
    use_item(0, &fov, None, None, &mut game, &mut objects);
    assert_eq!(game.inventory.len(), 1);
    let (msg, _) = game.messages.get(1).clone();
    assert_eq!(msg, "Cancelled");
}

#[test]
fn facetless_entry_cannot_be_used() {
    let mut game = test_game(10, 10);
    let fov = full_fov(10, 10);
    game.inventory.push(DisplayObj::new(0, 0, '?', "rock", white(), false));
    let mut objects = vec![player_at(1, 1)];
    use_item(0, &fov, None, None, &mut game, &mut objects);
    assert_eq!(game.inventory.len(), 1);
    let (msg, _) = game.messages.get(0).clone();
    assert_eq!(msg, "The rock cannot be used.");
}

// ---- targeting helper ------------------------------------------------------

#[test]
fn monster_at_skips_player_and_corpses() {
    let mut corpse = DisplayObj::new(4, 4, '%', "remains of orc", white(), false);
    corpse.alive = false;
    let objects = vec![player_at(2, 2), corpse, monster_named("orc", 4, 4, 10, 0, 35)];
    assert_eq!(monster_at(2, 2, &objects), None); // only the player there
    assert_eq!(monster_at(4, 4, &objects), Some(2)); // corpse has no fighter
    assert_eq!(monster_at(9, 9, &objects), None);
}

#[test]
fn drop_places_item_at_player_and_dequips() {
    let mut game = test_game(10, 10);
    let mut sword = equipment_item("sword", Slot::LeftHand, 1);
    if let Some(e) = sword.equipment.as_mut() {
        e.equipped = true;
    }
    game.inventory.push(sword);
    let mut objects = vec![player_at(4, 6)];
    roguelike_tut::items::drop_item(0, &mut game, &mut objects);
    assert!(game.inventory.is_empty());
    let dropped = objects.last().unwrap();
    assert_eq!(dropped.get_pos(), (4, 6));
    assert!(!dropped.equipment.unwrap().equipped);
}

#[test]
fn player_move_steps_or_attacks() {
    let mut game = test_game(10, 10);
    let mut objects = vec![player_at(2, 2)];
    roguelike_tut::turn::player_move_or_attack(1, 0, &mut game, &mut objects);
    assert_eq!(objects[0].get_pos(), (3, 2));
    // a monster in the way is attacked instead of displaced
    objects.push(monster_named("orc", 4, 2, 10, 0, 35));
    roguelike_tut::turn::player_move_or_attack(1, 0, &mut game, &mut objects);
    assert_eq!(objects[0].get_pos(), (3, 2));
    assert_eq!(objects[1].fighter.unwrap().hp, 7); // power 3 - defense 0
}

#[test]
fn blocked_moves_are_refused() {
    let mut game = test_game(10, 10);
    game.map[3][2] = roguelike_tut::game::Tile::wall();
    let mut objects = vec![player_at(2, 2)];
    roguelike_tut::turn::player_move_or_attack(1, 0, &mut game, &mut objects);
    assert_eq!(objects[0].get_pos(), (2, 2));
}

#[test]
fn descend_requires_standing_on_stairs() {
    let settings = GameSettings::new();
    let tables = roguelike_tut::conf::TransitionTables::new(Vec::new(), Vec::new());
    let (mut game, mut objects) = new_game(settings, &tables);
    let fov = Fov { visible: vec![vec![false; settings.map_h as usize]; settings.map_w as usize] };
    // off the stairs: nothing happens
    let action = handle_command(Command::DescendStairs, &fov, &tables, &mut game, &mut objects);
    assert_eq!(action, PlayerAction::DidntTakeTurn);
    assert_eq!(game.dungeon_level, 1);
    // standing on them: the next floor is generated
    let stairs_pos = objects.last().unwrap().get_pos();
    objects[PLAYER_ID].set_pos(stairs_pos.0, stairs_pos.1);
    let action2 = handle_command(Command::DescendStairs, &fov, &tables, &mut game, &mut objects);
    assert_eq!(action2, PlayerAction::DidntTakeTurn);
    assert_eq!(game.dungeon_level, 2);
}
