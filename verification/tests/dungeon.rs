use roguelike_tut::conf::{ObjectConfiguration, Transition, TransitionTables};
use roguelike_tut::fov::{update_explored, Fov};
use roguelike_tut::game::{Game, GameSettings, Messages, Tile};
use roguelike_tut::mapgen::{make_map, Room};
use roguelike_tut::objects::{Ai, DeathCallback, DisplayObj, Fighter};
use roguelike_tut::text::{i32_string, u32_string};
use roguelike_tut::turn::{handle_command, monster_turns, new_game, next_level, Command, PlayerAction};
use roguelike_tut::PLAYER_ID;

fn white() -> roguelike_tut::color::Color {
    roguelike_tut::color::Color { r: 255, g: 255, b: 255 }
}

fn spawn_tables() -> TransitionTables {
    let mut tables = TransitionTables::new(
        vec![Transition { level: 1, value: 2 }],
        vec![Transition { level: 1, value: 1 }],
    );
    let orc = ObjectConfiguration::new(
        "orc".to_owned(),
        'o',
        white(),
        vec![Transition { level: 1, value: 80 }],
        Some(Fighter {
            base_max_hp: 20,
            hp: 20,
            base_defense: 0,
            base_power: 4,
            xp: 35,
            on_death: DeathCallback::Monster,
        }),
        Some(Ai::Basic),
        None,
        None,
    );
    let ghost_conf = ObjectConfiguration::new(
        "never spawned".to_owned(),
        'g',
        white(),
        vec![Transition { level: 1, value: 0 }],
        None,
        None,
        None,
        None,
    );
    tables.monsters.push(orc);
    tables.monsters.push(ghost_conf);
    tables
}

#[test]
fn rooms_never_overlap() {
    let settings = GameSettings::new();
    let tables = spawn_tables();
    let mut objects = vec![DisplayObj::new(0, 0, '@', "player", white(), true)];
    let (_map, rooms, _corridors) = make_map(&mut objects, &settings, 1, &tables);
    for i in 0..rooms.len() {
        for j in 0..rooms.len() {
            if i != j {
                assert!(!rooms[i].intersects_with(&rooms[j]));
            }
        }
    }
}

fn covered_by(rects: &[Room], x: i32, y: i32) -> bool {
    rects.iter().any(|r| r.x1 < x && x < r.x2 && r.y1 < y && y < r.y2)
}

#[test]
fn carving_touches_only_rooms_and_corridors() {
    let settings = GameSettings::new();
    let tables = spawn_tables();
    let mut objects = vec![DisplayObj::new(0, 0, '@', "player", white(), true)];
    let (map, rooms, corridors) = make_map(&mut objects, &settings, 1, &tables);
    for x in 0..settings.map_w {
        for y in 0..settings.map_h {
            let tile = map[x as usize][y as usize];
            let carved = covered_by(&rooms, x, y) || covered_by(&corridors, x, y);
            if carved {
                assert!(!tile.blocked && !tile.block_sight && !tile.explored);
            } else {
                // everything else is untouched wall
                assert!(tile.blocked && tile.block_sight && !tile.explored);
            }
        }
    }
}

#[test]
fn rooms_fit_the_map_and_size_bounds() {
    let settings = GameSettings::new();
    let tables = spawn_tables();
    let mut objects = vec![DisplayObj::new(0, 0, '@', "player", white(), true)];
    let (map, rooms, corridors) = make_map(&mut objects, &settings, 1, &tables);
    assert_eq!(map.len(), settings.map_w as usize);
    for col in &map {
        assert_eq!(col.len(), settings.map_h as usize);
    }
    for r in &rooms {
        let w = r.x2 - r.x1;
        let h = r.y2 - r.y1;
        assert!(w >= settings.room_min_size as i32 && w <= settings.room_max_size as i32);
        assert!(h >= settings.room_min_size as i32 && h <= settings.room_max_size as i32);
        assert!(r.x1 >= 0 && r.x2 < settings.map_w);
        assert!(r.y1 >= 0 && r.y2 < settings.map_h);
        // interiors are carved to open floor
        for x in (r.x1 + 1)..r.x2 {
            for y in (r.y1 + 1)..r.y2 {
                assert!(!map[x as usize][y as usize].blocked);
            }
        }
    }
}

#[test]
fn player_spawns_in_first_room_with_stairs_last() {
    let settings = GameSettings::new();
    let tables = spawn_tables();
    let mut objects = vec![DisplayObj::new(0, 0, '@', "player", white(), true)];
    let (_map, rooms, _corridors) = make_map(&mut objects, &settings, 1, &tables);
    assert!(!rooms.is_empty());
    assert_eq!(objects[PLAYER_ID].get_pos(), rooms[0].center());
    let stairs = objects.last().unwrap();
    assert_eq!(stairs.name, "stairs");
    assert!(stairs.always_visible);
    assert_eq!(stairs.get_pos(), rooms[rooms.len() - 1].center());
}

#[test]
fn spawned_monsters_come_from_the_tables() {
    let settings = GameSettings::new();
    let tables = spawn_tables();
    let mut objects = vec![DisplayObj::new(0, 0, '@', "player", white(), true)];
    let (_map, _rooms, _corridors) = make_map(&mut objects, &settings, 1, &tables);
    for (i, o) in objects.iter().enumerate() {
        if i == PLAYER_ID || o.name == "stairs" {
            continue;
        }
        // weight 80 template only; the zero-weight template never spawns
        assert_eq!(o.name, "orc");
        assert!(o.fighter.is_some());
        assert!(o.alive);
    }
}

#[test]
fn empty_tables_spawn_nothing() {
    let settings = GameSettings::new();
    let tables = TransitionTables::new(Vec::new(), Vec::new());
    let mut objects = vec![DisplayObj::new(0, 0, '@', "player", white(), true)];
    let (_map, rooms, _corridors) = make_map(&mut objects, &settings, 1, &tables);
    // only the player and, when rooms exist, the stairs remain
    let expected = if rooms.is_empty() { 1 } else { 2 };
    assert_eq!(objects.len(), expected);
}

#[test]
fn zero_rooms_leaves_player_only() {
    let mut settings = GameSettings::new();
    settings.max_rooms = 0;
    let tables = TransitionTables::new(Vec::new(), Vec::new());
    let mut objects = vec![DisplayObj::new(7, 9, '@', "player", white(), true)];
    let (_map, rooms, _corridors) = make_map(&mut objects, &settings, 1, &tables);
    assert!(rooms.is_empty());
    assert_eq!(objects.len(), 1);
    assert_eq!(objects[0].get_pos(), (7, 9));
}

#[test]
fn new_game_initial_state() {
    let settings = GameSettings::new();
    let tables = spawn_tables();
    let (game, objects) = new_game(settings, &tables);
    assert_eq!(game.dungeon_level, 1);
    let p = &objects[PLAYER_ID];
    assert_eq!(p.name, "player");
    assert!(p.alive);
    let f = p.fighter.unwrap();
    assert_eq!((f.base_max_hp, f.hp, f.base_defense, f.base_power), (100, 100, 1, 3));
    assert_eq!(game.inventory.len(), 1);
    let dagger = &game.inventory[0];
    assert_eq!(dagger.name, "dagger");
    assert!(dagger.equipment.unwrap().equipped);
    assert_eq!(dagger.equipment.unwrap().power_bonus, 1);
    let (msg, _) = game.messages.get(0).clone();
    assert_eq!(
        msg,
        "Welcome stranger! Prepare to perish in the Tombs of the Ancient Kings."
    );
}

#[test]
fn next_level_heals_and_descends() {
    let settings = GameSettings::new();
    let tables = spawn_tables();
    let (mut game, mut objects) = new_game(settings, &tables);
    if let Some(f) = objects[PLAYER_ID].fighter.as_mut() {
        f.hp = 10;
    }
    let _floor = next_level(&mut game, &mut objects, &tables);
    assert_eq!(game.dungeon_level, 2);
    // healed by half of max hp (100/2 = 50)
    assert_eq!(objects[PLAYER_ID].fighter.unwrap().hp, 60);
}

#[test]
fn exit_command_changes_nothing() {
    let settings = GameSettings::new();
    let tables = spawn_tables();
    let (mut game, mut objects) = new_game(settings, &tables);
    let fov = Fov { visible: vec![vec![false; settings.map_h as usize]; settings.map_w as usize] };
    let before_len = objects.len();
    let action = handle_command(Command::Exit, &fov, &tables, &mut game, &mut objects);
    assert_eq!(action, PlayerAction::Exit);
    assert_eq!(objects.len(), before_len);
}

#[test]
fn wait_takes_a_turn_only_alive() {
    let settings = GameSettings::new();
    let tables = spawn_tables();
    let (mut game, mut objects) = new_game(settings, &tables);
    let fov = Fov { visible: vec![vec![false; settings.map_h as usize]; settings.map_w as usize] };
    let action = handle_command(Command::Wait, &fov, &tables, &mut game, &mut objects);
    assert_eq!(action, PlayerAction::TookTurn);
    objects[PLAYER_ID].alive = false;
    let action2 = handle_command(Command::Wait, &fov, &tables, &mut game, &mut objects);
    assert_eq!(action2, PlayerAction::DidntTakeTurn);
}

#[test]
fn monsters_act_only_in_sight() {
    let mut settings = GameSettings::new();
    settings.map_w = 20;
    settings.map_h = 20;
    let mut game = Game {
        game_settings: settings,
        map: vec![vec![Tile::empty(); 20]; 20],
        messages: Messages::new(),
        inventory: Vec::new(),
        dungeon_level: 1,
    };
    let mut p = DisplayObj::new(5, 5, '@', "player", white(), true);
    p.alive = true;
    p.fighter = Some(Fighter {
        base_max_hp: 100,
        hp: 100,
        base_defense: 0,
        base_power: 3,
        xp: 0,
        on_death: DeathCallback::Player,
    });
    let mut orc = DisplayObj::new(10, 5, 'o', "orc", white(), true);
    orc.alive = true;
    orc.fighter = Some(Fighter {
        base_max_hp: 20,
        hp: 20,
        base_defense: 0,
        base_power: 4,
        xp: 35,
        on_death: DeathCallback::Monster,
    });
    orc.ai = Some(Ai::Basic);
    let mut objects = vec![p, orc];

    // out of sight: the monster holds still
    let blind = Fov { visible: vec![vec![false; 20]; 20] };
    monster_turns(&blind, &mut game, &mut objects);
    assert_eq!(objects[1].get_pos(), (10, 5));

    // in sight and far: it steps one tile toward the player
    let seeing = Fov { visible: vec![vec![true; 20]; 20] };
    monster_turns(&seeing, &mut game, &mut objects);
    assert_eq!(objects[1].get_pos(), (9, 5));

    // adjacent: it attacks instead of moving
    objects[1].set_pos(6, 5);
    monster_turns(&seeing, &mut game, &mut objects);
    assert_eq!(objects[1].get_pos(), (6, 5));
    assert_eq!(objects[0].fighter.unwrap().hp, 96); // 4 power - 0 defense
}

#[test]
fn explored_flags_follow_visibility() {
    let mut settings = GameSettings::new();
    settings.map_w = 4;
    settings.map_h = 4;
    let mut game = Game {
        game_settings: settings,
        map: vec![vec![Tile::wall(); 4]; 4],
        messages: Messages::new(),
        inventory: Vec::new(),
        dungeon_level: 1,
    };
    let mut visible = vec![vec![false; 4]; 4];
    visible[1][2] = true;
    let fov = Fov { visible };
    update_explored(&mut game, &fov);
    for x in 0..4usize {
        for y in 0..4usize {
            assert_eq!(game.map[x][y].explored, x == 1 && y == 2);
        }
    }
}

#[test]
fn simple_fov_is_a_disc() {
    let fov = Fov::within_radius(10, 10, 5, 5, 2);
    assert!(fov.is_in_fov(5, 5));
    assert!(fov.is_in_fov(7, 5));
    assert!(fov.is_in_fov(6, 6)); // distance sqrt(2)
    assert!(!fov.is_in_fov(8, 5)); // distance 3
    assert!(!fov.is_in_fov(7, 7)); // distance sqrt(8)
    assert!(!fov.is_in_fov(-1, 5));
}

#[test]
fn decimal_rendering() {
    assert_eq!(u32_string(0), "0");
    assert_eq!(u32_string(7), "7");
    assert_eq!(u32_string(40), "40");
    assert_eq!(u32_string(4294967295), "4294967295");
    assert_eq!(i32_string(-123), "-123");
    assert_eq!(i32_string(0), "0");
    assert_eq!(i32_string(-2147483648), "-2147483648");
}

#[test]
fn room_geometry() {
    let r = Room::new(2, 3, 6, 7);
    assert_eq!((r.x1, r.y1, r.x2, r.y2), (2, 3, 8, 10));
    assert_eq!(r.center(), (5, 6));
    let other = Room::new(8, 10, 4, 4);
    assert!(r.intersects_with(&other)); // boundaries touch: counted as overlap
    let far = Room::new(9, 11, 4, 4);
    assert!(!r.intersects_with(&far));
}

#[test]
fn every_room_is_reachable_from_the_spawn_room() {
    let settings = GameSettings::new();
    let tables = spawn_tables();
    let mut objects = vec![DisplayObj::new(0, 0, '@', "player", white(), true)];
    let (map, rooms, corridors) = make_map(&mut objects, &settings, 1, &tables);
    assert!(!rooms.is_empty());
    let (sx, sy) = rooms[0].center();
    let w = settings.map_w as usize;
    let h = settings.map_h as usize;

    // breadth-first flood over unblocked tiles from the spawn center
    let mut seen = vec![vec![false; h]; w];
    let mut queue = vec![(sx as usize, sy as usize)];
    seen[sx as usize][sy as usize] = true;
    while let Some((x, y)) = queue.pop() {
        let neighbours = [
            (x.wrapping_sub(1), y),
            (x + 1, y),
            (x, y.wrapping_sub(1)),
            (x, y + 1),
        ];
        for (nx, ny) in neighbours {
            if nx < w && ny < h && !seen[nx][ny] && !map[nx][ny].blocked {
                seen[nx][ny] = true;
                queue.push((nx, ny));
            }
        }
    }
    for r in &rooms {
        for x in (r.x1 + 1)..r.x2 {
            for y in (r.y1 + 1)..r.y2 {
                assert!(seen[x as usize][y as usize]);
            }
        }
    }
}

#[test]
fn monster_round_resolves_in_index_order() {
    let mut settings = GameSettings::new();
    settings.map_w = 10;
    settings.map_h = 10;
    let mut game = Game {
        game_settings: settings,
        map: vec![vec![Tile::empty(); 10]; 10],
        messages: Messages::new(),
        inventory: Vec::new(),
        dungeon_level: 1,
    };
    let mut p = DisplayObj::new(5, 5, '@', "player", white(), true);
    p.alive = true;
    p.fighter = Some(Fighter {
        base_max_hp: 100,
        hp: 100,
        base_defense: 0,
        base_power: 3,
        xp: 0,
        on_death: DeathCallback::Player,
    });
    let mut first = DisplayObj::new(4, 5, 'o', "first orc", white(), true);
    first.alive = true;
    first.fighter = Some(Fighter {
        base_max_hp: 20,
        hp: 20,
        base_defense: 0,
        base_power: 4,
        xp: 35,
        on_death: DeathCallback::Monster,
    });
    first.ai = Some(Ai::Basic);
    let mut second = DisplayObj::new(6, 5, 'o', "second orc", white(), true);
    second.alive = true;
    second.fighter = Some(Fighter {
        base_max_hp: 20,
        hp: 20,
        base_defense: 0,
        base_power: 5,
        xp: 35,
        on_death: DeathCallback::Monster,
    });
    second.ai = Some(Ai::Basic);
    let mut objects = vec![p, first, second];

    let seeing = Fov { visible: vec![vec![true; 10]; 10] };
    monster_turns(&seeing, &mut game, &mut objects);

    // both adjacent monsters strike, in index order
    assert_eq!(objects[0].fighter.unwrap().hp, 91); // 100 - 4 - 5
    let (msg0, _) = game.messages.get(0).clone();
    let (msg1, _) = game.messages.get(1).clone();
    assert_eq!(msg0, "first orc attacks player for 4 hit points.");
    assert_eq!(msg1, "second orc attacks player for 5 hit points.");
}
