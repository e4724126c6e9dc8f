use roguelike_tut::codec::{load_snapshot, save_snapshot, snapshot_roundtrip};
use roguelike_tut::conf::{ObjectConfiguration, Transition, TransitionTables};
use roguelike_tut::game::GameSettings;
use roguelike_tut::objects::{Ai, DeathCallback, DisplayObj, Fighter};
use roguelike_tut::turn::new_game;

fn white() -> roguelike_tut::color::Color {
    roguelike_tut::color::Color { r: 255, g: 255, b: 255 }
}

fn sample_state() -> (roguelike_tut::game::Game, Vec<DisplayObj>) {
    let mut tables = TransitionTables::new(
        vec![Transition { level: 1, value: 2 }],
        vec![Transition { level: 1, value: 1 }],
    );
    tables.monsters.push(ObjectConfiguration::new(
        "orc".to_owned(),
        'o',
        white(),
        vec![Transition { level: 1, value: 80 }],
        Some(Fighter {
            base_max_hp: 20,
            hp: 20,
            base_defense: 0,
            base_power: 4,
            xp: 35,
            on_death: DeathCallback::Monster,
        }),
        Some(Ai::Basic),
        None,
        None,
    ));
    let (mut game, mut objects) = new_game(GameSettings::new(), &tables);
    game.messages.add("an entry with unicode: \u{263a}".to_owned(), white());
    // a confused monster exercises the recursive behaviour encoding
    let mut odd = DisplayObj::new(3, 4, 'o', "odd orc", white(), true);
    odd.ai = Some(Ai::Confused {
        previous_ai: Box::new(Ai::Confused {
            previous_ai: Box::new(Ai::Basic),
            num_turns: -2,
        }),
        num_turns: 7,
    });
    objects.push(odd);
    (game, objects)
}

fn assert_objs_equal(a: &[DisplayObj], b: &[DisplayObj]) {
    assert_eq!(a.len(), b.len());
    for (x, y) in a.iter().zip(b.iter()) {
        assert_eq!(x.get_pos(), y.get_pos());
        assert_eq!(x.glyph, y.glyph);
        assert_eq!(x.color, y.color);
        assert_eq!(x.name, y.name);
        assert_eq!(x.blocks, y.blocks);
        assert_eq!(x.alive, y.alive);
        assert_eq!(x.always_visible, y.always_visible);
        assert_eq!(x.fighter, y.fighter);
        assert_eq!(x.item, y.item);
        assert_eq!(x.level, y.level);
        assert_eq!(x.equipment, y.equipment);
        match (&x.ai, &y.ai) {
            (None, None) => {},
            (Some(_), Some(_)) => {},
            _ => panic!("behaviour facets differ"),
        }
    }
}

#[test]
fn snapshot_roundtrip_is_identity() {
    let (game, objects) = sample_state();
    let (game2, objects2) = snapshot_roundtrip(&game, &objects).expect("round trip decodes");

    assert_eq!(game2.game_settings, game.game_settings);
    assert_eq!(game2.dungeon_level, game.dungeon_level);
    assert_eq!(game2.map.len(), game.map.len());
    for (c1, c2) in game.map.iter().zip(game2.map.iter()) {
        assert_eq!(c1, c2);
    }
    assert_eq!(game2.messages.len(), game.messages.len());
    for i in 0..game.messages.len() {
        assert_eq!(game2.messages.get(i), game.messages.get(i));
    }
    assert_objs_equal(&game.inventory, &game2.inventory);
    assert_objs_equal(&objects, &objects2);
    // the confused monster's wrapped behaviour survives
    match &objects2.last().unwrap().ai {
        Some(Ai::Confused { previous_ai, num_turns: 7 }) => match previous_ai.as_ref() {
            Ai::Confused { num_turns: -2, .. } => {},
            other => panic!("wrong inner behaviour: {:?}", other),
        },
        other => panic!("wrong behaviour: {:?}", other),
    }
}

#[test]
fn save_and_load_through_bytes() {
    let (game, objects) = sample_state();
    let bytes = save_snapshot(&game, &objects);
    let (game2, objects2) = load_snapshot(&bytes).expect("a saved snapshot loads");
    assert_eq!(game2.dungeon_level, game.dungeon_level);
    assert_objs_equal(&objects, &objects2);
    assert_eq!(game2.messages.len(), game.messages.len());
}

#[test]
fn corrupt_save_is_rejected_not_fatal() {
    let (game, objects) = sample_state();
    let mut bytes = save_snapshot(&game, &objects);
    bytes.truncate(bytes.len() / 2);
    assert!(load_snapshot(&bytes).is_none());
    let empty: Vec<u8> = Vec::new();
    assert!(load_snapshot(&empty).is_none());
}

#[test]
fn trailing_bytes_are_rejected() {
    let (game, objects) = sample_state();
    let mut bytes = save_snapshot(&game, &objects);
    bytes.push(0);
    assert!(load_snapshot(&bytes).is_none());
}
