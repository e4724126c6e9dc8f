//! The turn scheduler: player commands, the monster round that follows a
//! turn-consuming action, leveling, and floor transitions.

use vstd::prelude::*;

use crate::ai::ai_take_turn;
use crate::ai::move_by_rel;
use crate::color::Color;
use crate::conf::TransitionTables;
use crate::fov::Fov;
use crate::game::Game;
use crate::game::GameSettings;
use crate::game::Messages;
use crate::game::LEVEL_UP_BASE;
use crate::game::LEVEL_UP_FACTOR;
use crate::game::MAX_INV_SPACE;
use crate::items::drop_item;
use crate::items::pick_item_up;
use crate::items::use_item;
use crate::mapgen::make_map;
use crate::objects::attack_rel;
use crate::objects::spec_max_hp;
use crate::objects::DeathCallback;
use crate::objects::DisplayObj;
use crate::objects::Fighter;
use crate::objects::Item;
use crate::objects::Slot;
use crate::text::dec_seq;
use crate::text::u32_string;
use crate::PLAYER_ID;

verus! {

/// What resolving a player action means for the turn flow.
#[derive(Clone, Copy, Debug, PartialEq, Eq, Structural)]
pub enum PlayerAction {
    TookTurn,
    DidntTakeTurn,
    Exit,
}

/// A discrete player intent, decoded from raw input by the presentation
/// layer.
#[derive(Clone, Copy, Debug)]
pub enum Command {
    Move(i32, i32),
    Wait,
    PickUp,
    UseItem(usize, Option<usize>, Option<(i32, i32)>),
    DropItem(usize),
    DescendStairs,
    Exit,
}

/// The first object with a fighter facet standing on `(x, y)`.
pub open spec fn first_fighter_at_from(objs: Seq<DisplayObj>, x: i32, y: i32, i: int) -> Option<
    int,
>
    decreases objs.len() - i,
{
    if i < 0 || i >= objs.len() {
        None
    } else if objs[i].fighter is Some && objs[i].x == x && objs[i].y == y {
        Some(i)
    } else {
        first_fighter_at_from(objs, x, y, i + 1)
    }
}

/// What one movement intent does: attack the fighter on the destination
/// tile if there is one, else step there when it is free.
pub open spec fn move_or_attack_rel(
    dx: int,
    dy: int,
    map: Seq<Vec<crate::game::Tile>>,
    inv: Seq<DisplayObj>,
    objs0: Seq<DisplayObj>,
    objs1: Seq<DisplayObj>,
    m0: Seq<(Seq<char>, Color)>,
    m1: Seq<(Seq<char>, Color)>,
) -> bool {
    let p = objs0[PLAYER_ID as int];
    let x = (p.x + dx) as i32;
    let y = (p.y + dy) as i32;
    match first_fighter_at_from(objs0, x, y, 0) {
        Some(tid) => {
            &&& objs1.len() == objs0.len()
            &&& forall|j: int| 0 <= j < objs0.len() && j != PLAYER_ID && j != tid ==> objs1[j] == #[trigger] objs0[j]
            &&& attack_rel(p, objs0[tid], inv, objs1[PLAYER_ID as int], objs1[tid], m0, m1)
        },
        None => move_by_rel(PLAYER_ID as int, dx, dy, map, objs0, objs1) && m1 == m0,
    }
}

/// Move the player one step, attacking instead when a fighter occupies
/// the destination.
/// `first_fighter_at_from` returning an index pins down that index's
/// object.
proof fn lemma_first_fighter_at(objs: Seq<DisplayObj>, x: i32, y: i32, i: int, id: int)
    requires
        first_fighter_at_from(objs, x, y, i) == Some(id),
    ensures
        i <= id < objs.len(),
        objs[id].fighter is Some,
        objs[id].x == x,
        objs[id].y == y,
    decreases objs.len() - i,
{
    if i < 0 || i >= objs.len() {
    } else if objs[i].fighter is Some && objs[i].x == x && objs[i].y == y {
    } else {
        lemma_first_fighter_at(objs, x, y, i + 1, id);
    }
}

/// The first fighter standing on `(x, y)`.
fn find_fighter_at(x: i32, y: i32, objects: &Vec<DisplayObj>) -> (r: Option<usize>)
    ensures
        match r {
            Some(id) => id < objects@.len() && first_fighter_at_from(objects@, x, y, 0) == Some(
                id as int,
            ),
            None => first_fighter_at_from(objects@, x, y, 0) is None,
        },
{
    let mut i: usize = 0;
    while i < objects.len()
        invariant
            0 <= i <= objects@.len(),
            first_fighter_at_from(objects@, x, y, 0) == first_fighter_at_from(
                objects@,
                x,
                y,
                i as int,
            ),
        decreases objects@.len() - i,
    {
        let o = &objects[i];
        if o.fighter.is_some() && o.x == x && o.y == y {
            return Some(i);
        }
        i = i + 1;
    }
    None
}

pub fn player_move_or_attack(dx: i32, dy: i32, game: &mut Game, objects: &mut Vec<DisplayObj>)
    requires
        old(objects)@.len() >= 1,
        old(objects)@[PLAYER_ID as int].fighter is Some,
        old(game).inventory@.len() <= MAX_INV_SPACE,
        !(dx == 0 && dy == 0),
        i32::MIN <= old(objects)@[PLAYER_ID as int].x + dx <= i32::MAX,
        i32::MIN <= old(objects)@[PLAYER_ID as int].y + dy <= i32::MAX,
    ensures
        *final(game) == (Game { messages: final(game).messages, ..*old(game) }),
        move_or_attack_rel(
            dx as int,
            dy as int,
            old(game).map@,
            old(game).inventory@,
            old(objects)@,
            final(objects)@,
            old(game).messages@,
            final(game).messages@,
        ),
{
    let x = objects[PLAYER_ID].x + dx;
    let y = objects[PLAYER_ID].y + dy;

    let target_id = find_fighter_at(x, y, objects);

    match target_id {
        Some(tid) => {
            proof {
                lemma_first_fighter_at(objects@, x, y, 0, tid as int);
                assert(tid != PLAYER_ID);
            }
            let ghost objs0 = objects@;
            let mut player = DisplayObj::new(0, 0, ' ', "", crate::color::white(), false);
            let mut target = DisplayObj::new(0, 0, ' ', "", crate::color::white(), false);
            objects.set_and_swap(PLAYER_ID, &mut player);
            objects.set_and_swap(tid, &mut target);
            player.attack(&mut target, game);
            objects.set_and_swap(tid, &mut target);
            objects.set_and_swap(PLAYER_ID, &mut player);
            proof {
                assert(forall|j: int|
                    0 <= j < objs0.len() && j != PLAYER_ID && j != tid ==> objects@[j]
                        == #[trigger] objs0[j]);
            }
        },
        None => {
            crate::ai::move_by(PLAYER_ID, dx, dy, &game.map, objects);
        },
    }
}

/// The object lists and logs a full monster round can produce: from
/// index `i` on, `k` entries are visited in order, and each non-player
/// entry that carries a behaviour is resolved by `ai_turn_rel` on the
/// state the previous resolutions left behind.
pub open spec fn monster_round_rel(
    k: nat,
    i: int,
    fov: Fov,
    map: Seq<Vec<crate::game::Tile>>,
    inv: Seq<DisplayObj>,
    objs0: Seq<DisplayObj>,
    objs1: Seq<DisplayObj>,
    m0: Seq<(Seq<char>, Color)>,
    m1: Seq<(Seq<char>, Color)>,
) -> bool
    decreases k,
{
    if k == 0 {
        objs1 == objs0 && m1 == m0
    } else if 0 <= i < objs0.len() && i != PLAYER_ID && objs0[i].ai is Some {
        exists|objs_mid: Seq<DisplayObj>, m_mid: Seq<(Seq<char>, Color)>|
            #[trigger] crate::ai::ai_turn_rel(i, fov, map, inv, objs0, objs_mid, m0, m_mid)
                && monster_round_rel(
                (k - 1) as nat,
                i + 1,
                fov,
                map,
                inv,
                objs_mid,
                objs1,
                m_mid,
                m1,
            )
    } else {
        monster_round_rel((k - 1) as nat, i + 1, fov, map, inv, objs0, objs1, m0, m1)
    }
}

/// Run one turn for every AI-driven monster, in index order; the
/// scheduler calls this after the player spends a turn, while the
/// player is alive.
pub fn monster_turns(fov: &Fov, game: &mut Game, objects: &mut Vec<DisplayObj>)
    requires
        old(objects)@.len() >= 1,
        old(game).inventory@.len() <= MAX_INV_SPACE,
    ensures
        *final(game) == (Game { messages: final(game).messages, ..*old(game) }),
        final(objects)@.len() == old(objects)@.len(),
        monster_round_rel(
            old(objects)@.len() as nat,
            0,
            *fov,
            old(game).map@,
            old(game).inventory@,
            old(objects)@,
            final(objects)@,
            old(game).messages@,
            final(game).messages@,
        ),
{
    let ghost n = old(objects)@.len();
    let ghost map0 = old(game).map@;
    let ghost inv0 = old(game).inventory@;
    let ghost objs_start = old(objects)@;
    let ghost m_start = old(game).messages@;
    let mut id: usize = 0;
    while id < objects.len()
        invariant
            0 <= id <= objects@.len(),
            objects@.len() == n,
            n == objs_start.len(),
            objects@.len() >= 1,
            game.inventory@.len() <= MAX_INV_SPACE,
            *game == (Game { messages: game.messages, ..*old(game) }),
            map0 == old(game).map@,
            inv0 == old(game).inventory@,
            objs_start == old(objects)@,
            m_start == old(game).messages@,
            forall|objs_f: Seq<DisplayObj>, m_f: Seq<(Seq<char>, Color)>|
                #[trigger] monster_round_rel(
                    (n - id) as nat,
                    id as int,
                    *fov,
                    map0,
                    inv0,
                    objects@,
                    objs_f,
                    game.messages@,
                    m_f,
                ) ==> monster_round_rel(
                    n as nat,
                    0,
                    *fov,
                    map0,
                    inv0,
                    objs_start,
                    objs_f,
                    m_start,
                    m_f,
                ),
        decreases objects@.len() - id,
    {
        let ghost objs_pre = objects@;
        let ghost m_pre = game.messages@;
        let acted = id != PLAYER_ID && objects[id].ai.is_some();
        if acted {
            ai_take_turn(id, fov, game, objects);
        }
        proof {
            assert forall|objs_f: Seq<DisplayObj>, m_f: Seq<(Seq<char>, Color)>|
                #[trigger] monster_round_rel(
                    (n - id - 1) as nat,
                    id + 1,
                    *fov,
                    map0,
                    inv0,
                    objects@,
                    objs_f,
                    game.messages@,
                    m_f,
                ) implies monster_round_rel(
                (n - id) as nat,
                id as int,
                *fov,
                map0,
                inv0,
                objs_pre,
                objs_f,
                m_pre,
                m_f,
            ) by {
                if acted {
                    assert(crate::ai::ai_turn_rel(
                        id as int,
                        *fov,
                        map0,
                        inv0,
                        objs_pre,
                        objects@,
                        m_pre,
                        game.messages@,
                    ));
                } else {
                    assert(objects@ == objs_pre && game.messages@ == m_pre);
                }
            }
        }
        id = id + 1;
    }
    proof {
        assert(monster_round_rel(
            (n - id) as nat,
            id as int,
            *fov,
            map0,
            inv0,
            objects@,
            objects@,
            game.messages@,
            game.messages@,
        ));
    }
}

/// The experience needed to reach the next level.
pub fn level_up_xp(level: u32) -> (r: u64)
    ensures
        r == LEVEL_UP_BASE + level * LEVEL_UP_FACTOR,
{
    proof {
        assert((level as int) * (LEVEL_UP_FACTOR as int) <= 0xffffffff * 150) by (nonlinear_arith)
            requires
                0 <= level <= 0xffffffff,
                LEVEL_UP_FACTOR == 150u32,
        ;
    }
    LEVEL_UP_BASE as u64 + level as u64 * LEVEL_UP_FACTOR as u64
}

/// Whether the player has gathered enough experience to level up: the
/// threshold is `LEVEL_UP_BASE + level * LEVEL_UP_FACTOR`, and the
/// level-up triggers exactly when the carried experience reaches it.
pub fn needs_level_up(player: &DisplayObj) -> (b: bool)
    ensures
        b == ((match player.fighter {
            Some(f) => f.xp as int,
            None => 0,
        }) >= LEVEL_UP_BASE + player.level * LEVEL_UP_FACTOR),
{
    let xp: u32 = match &player.fighter {
        Some(f) => f.xp,
        None => 0,
    };
    xp as u64 >= level_up_xp(player.level)
}

/// The stat the player raises on a level-up.
#[derive(Clone, Copy, Debug, PartialEq, Eq, Structural)]
pub enum LevelUpChoice {
    Constitution,
    Strength,
    Agility,
}

pub open spec fn level_up_msg(new_level: u32) -> Seq<char> {
    "Your battle skills grow stronger! You reached level "@ + dec_seq(new_level as nat) + "!"@
}

/// Apply one level-up: spend the threshold experience, raise the level
/// by one, and improve the chosen stat.
pub fn apply_level_up(choice: LevelUpChoice, game: &mut Game, objects: &mut Vec<DisplayObj>)
    requires
        old(objects)@.len() >= 1,
        old(objects)@[PLAYER_ID as int].fighter matches Some(f) && f.xp >= LEVEL_UP_BASE + old(
            objects,
        )@[PLAYER_ID as int].level * LEVEL_UP_FACTOR,
        old(objects)@[PLAYER_ID as int].level < u32::MAX,
        old(objects)@[PLAYER_ID as int].fighter->0.base_max_hp + 20 <= i32::MAX,
        old(objects)@[PLAYER_ID as int].fighter->0.hp + 20 <= i32::MAX,
        old(objects)@[PLAYER_ID as int].fighter->0.base_power < i32::MAX,
        old(objects)@[PLAYER_ID as int].fighter->0.base_defense < i32::MAX,
    ensures
        *final(game) == (Game { messages: final(game).messages, ..*old(game) }),
        ({
            let p = old(objects)@[PLAYER_ID as int];
            let f = p.fighter->0;
            let req = LEVEL_UP_BASE + p.level * LEVEL_UP_FACTOR;
            let f1 = Fighter { xp: (f.xp - req) as u32, ..f };
            let f2 = match choice {
                LevelUpChoice::Constitution => Fighter {
                    base_max_hp: (f1.base_max_hp + 20) as i32,
                    hp: (f1.hp + 20) as i32,
                    ..f1
                },
                LevelUpChoice::Strength => Fighter { base_power: (f1.base_power + 1) as i32, ..f1 },
                LevelUpChoice::Agility => Fighter {
                    base_defense: (f1.base_defense + 1) as i32,
                    ..f1
                },
            };
            &&& final(objects)@ == old(objects)@.update(
                PLAYER_ID as int,
                DisplayObj { level: (p.level + 1) as u32, fighter: Some(f2), ..p },
            )
            &&& final(game).messages@ == old(game).messages@.push(
                (level_up_msg((p.level + 1) as u32), crate::color::yellow_spec()),
            )
        }),
{
    let ghost objs0 = objects@;
    let mut player = DisplayObj::new(0, 0, ' ', "", crate::color::white(), false);
    objects.set_and_swap(PLAYER_ID, &mut player);

    player.level = player.level + 1;
    let msg = "Your battle skills grow stronger! You reached level ".to_owned().concat(
        u32_string(player.level).as_str(),
    ).concat("!");
    game.messages.add(msg, crate::color::yellow());

    let f = player.fighter.unwrap();
    let req64 = level_up_xp(player.level - 1);
    let f1 = Fighter { xp: f.xp - req64 as u32, ..f };
    let f2 = match choice {
        LevelUpChoice::Constitution => Fighter {
            base_max_hp: f1.base_max_hp + 20,
            hp: f1.hp + 20,
            ..f1
        },
        LevelUpChoice::Strength => Fighter { base_power: f1.base_power + 1, ..f1 },
        LevelUpChoice::Agility => Fighter { base_defense: f1.base_defense + 1, ..f1 },
    };
    player.fighter = Some(f2);

    objects.set_and_swap(PLAYER_ID, &mut player);
    proof {
        let p = objs0[PLAYER_ID as int];
        assert(objects@ =~= objs0.update(
            PLAYER_ID as int,
            DisplayObj {
                level: (p.level + 1) as u32,
                fighter: objects@[PLAYER_ID as int].fighter,
                ..p
            },
        ));
    }
}

pub open spec fn descend_msg() -> Seq<char> {
    "You descend down further into the crypt, where will it end..."@
}

/// The player as the descent leaves them: healed by half of maximum,
/// never beyond it.
pub open spec fn healed_for_descent(p: DisplayObj, inv: Seq<DisplayObj>) -> DisplayObj {
    match p.fighter {
        Some(f) => {
            let m = spec_max_hp(p, inv);
            let amt = if m / 2 < 0 {
                0
            } else {
                m / 2
            };
            let hp1 = if f.hp + amt > m {
                m
            } else {
                f.hp + amt
            };
            DisplayObj { fighter: Some(Fighter { hp: hp1 as i32, ..f }), ..p }
        },
        None => p,
    }
}

/// Heal the player by half of maximum, then generate the next floor one
/// level deeper: the map is replaced wholesale by a freshly generated
/// floor, whose accepted rooms and corridors are handed back.
pub fn next_level(
    game: &mut Game,
    objects: &mut Vec<DisplayObj>,
    tables: &TransitionTables,
) -> (floor: (Vec<crate::mapgen::Room>, Vec<crate::mapgen::Room>))
    requires
        old(game).wf(),
        old(objects)@.len() >= 1,
        old(game).dungeon_level < u32::MAX,
        tables.monsters@.len() < 0x100000000,
        tables.items@.len() < 0x100000000,
    ensures
        final(game).wf(),
        final(game).dungeon_level == old(game).dungeon_level + 1,
        final(game).game_settings == old(game).game_settings,
        final(game).inventory@ == old(game).inventory@,
        final(game).messages@ == old(game).messages@.push(
            (descend_msg(), crate::color::red_spec()),
        ),
        crate::mapgen::generated_floor(
            final(game).map@,
            floor.0@,
            floor.1@,
            old(game).game_settings,
            (old(game).dungeon_level + 1) as u32,
            tables.monsters@,
            tables.items@,
            final(objects)@,
        ),
        ({
            let healed = healed_for_descent(
                old(objects)@[PLAYER_ID as int],
                old(game).inventory@,
            );
            &&& floor.0@.len() == 0 ==> final(objects)@ == seq![healed]
            &&& floor.0@.len() > 0 ==> crate::mapgen::moved_to(
                healed,
                floor.0@[0].spec_center(),
                final(objects)@[0],
            )
            &&& final(objects)@[PLAYER_ID as int] == (DisplayObj {
                x: final(objects)@[PLAYER_ID as int].x,
                y: final(objects)@[PLAYER_ID as int].y,
                ..healed
            })
        }),
{
    game.messages.add(
        "You descend down further into the crypt, where will it end...".to_owned(),
        crate::color::red(),
    );

    let max = objects[PLAYER_ID].max_hp(game);
    let heal_hp = if max / 2 < 0 {
        0
    } else {
        max / 2
    };
    let mut player = DisplayObj::new(0, 0, ' ', "", crate::color::white(), false);
    objects.set_and_swap(PLAYER_ID, &mut player);
    player.heal(heal_hp, game);
    objects.set_and_swap(PLAYER_ID, &mut player);

    game.dungeon_level = game.dungeon_level + 1;
    let (map, rooms, corridors) = make_map(objects, &game.game_settings, game.dungeon_level, tables);
    game.map = map;
    (rooms, corridors)
}

pub open spec fn welcome_msg() -> Seq<char> {
    "Welcome stranger! Prepare to perish in the Tombs of the Ancient Kings."@
}

/// Start a fresh game: a full-health player on a newly generated first
/// floor, a dagger already in hand.
pub fn new_game(game_settings: GameSettings, tables: &TransitionTables) -> (r: (
    Game,
    Vec<DisplayObj>,
))
    requires
        game_settings.wf(),
        tables.monsters@.len() < 0x100000000,
        tables.items@.len() < 0x100000000,
    ensures
        r.0.wf(),
        r.0.game_settings == game_settings,
        r.0.dungeon_level == 1,
        r.0.messages@.len() == 1,
        r.0.messages@[0] == (welcome_msg(), crate::color::red_spec()),
        r.1@.len() >= 1,
        ({
            let p = r.1@[PLAYER_ID as int];
            &&& p.name@ == "player"@
            &&& p.glyph == '@'
            &&& p.alive == true
            &&& p.blocks == true
            &&& p.level == 1
            &&& p.fighter == Some(
                Fighter {
                    base_max_hp: 100i32,
                    hp: 100i32,
                    base_defense: 1i32,
                    base_power: 3i32,
                    xp: 0u32,
                    on_death: DeathCallback::Player,
                },
            )
        }),
        exists|rooms: Seq<crate::mapgen::Room>, corridors: Seq<crate::mapgen::Room>|
            #[trigger] crate::mapgen::generated_floor(
                r.0.map@,
                rooms,
                corridors,
                game_settings,
                1,
                tables.monsters@,
                tables.items@,
                r.1@,
            ),
        r.0.inventory@.len() == 1,
        ({
            let d = r.0.inventory@[0];
            &&& d.name@ == "dagger"@
            &&& d.item == Some(Item::Sword)
            &&& d.equipment == Some(
                crate::objects::Equipment {
                    slot: Slot::LeftHand,
                    equipped: true,
                    max_hp_bonus: 0i32,
                    defense_bonus: 0i32,
                    power_bonus: 1i32,
                },
            )
        }),
{
    let mut player = DisplayObj::new(25, 23, '@', "player", crate::color::white(), true);
    player.alive = true;
    player.fighter = Some(
        Fighter {
            base_max_hp: 100,
            hp: 100,
            base_defense: 1,
            base_power: 3,
            xp: 0,
            on_death: DeathCallback::Player,
        },
    );

    let mut objects: Vec<DisplayObj> = Vec::new();
    objects.push(player);

    let (map, rooms, corridors) = make_map(&mut objects, &game_settings, 1, tables);

    let mut messages = Messages::new();
    messages.add(
        "Welcome stranger! Prepare to perish in the Tombs of the Ancient Kings.".to_owned(),
        crate::color::red(),
    );

    let mut dagger = DisplayObj::new(0, 0, '-', "dagger", crate::color::sky(), false);
    dagger.item = Some(Item::Sword);
    dagger.equipment = Some(
        crate::objects::Equipment {
            slot: Slot::LeftHand,
            equipped: true,
            max_hp_bonus: 0,
            defense_bonus: 0,
            power_bonus: 1,
        },
    );
    let mut inventory: Vec<DisplayObj> = Vec::new();
    inventory.push(dagger);

    let game = Game { game_settings, map, messages, inventory, dungeon_level: 1 };
    proof {
        assert(crate::mapgen::generated_floor(
            game.map@,
            rooms@,
            corridors@,
            game_settings,
            1,
            tables.monsters@,
            tables.items@,
            objects@,
        ));
    }
    (game, objects)
}


/// The first object with an item facet standing on `(x, y)`: what a
/// pick-up keystroke grabs.
pub open spec fn first_item_at_from(objs: Seq<DisplayObj>, x: i32, y: i32, i: int) -> Option<int>
    decreases objs.len() - i,
{
    if i < 0 || i >= objs.len() {
        None
    } else if objs[i].item is Some && objs[i].x == x && objs[i].y == y {
        Some(i)
    } else {
        first_item_at_from(objs, x, y, i + 1)
    }
}

fn find_item_at(x: i32, y: i32, objects: &Vec<DisplayObj>) -> (r: Option<usize>)
    ensures
        match r {
            Some(id) => id < objects@.len() && first_item_at_from(objects@, x, y, 0) == Some(
                id as int,
            ),
            None => first_item_at_from(objects@, x, y, 0) is None,
        },
{
    let mut i: usize = 0;
    while i < objects.len()
        invariant
            0 <= i <= objects@.len(),
            first_item_at_from(objects@, x, y, 0) == first_item_at_from(objects@, x, y, i as int),
        decreases objects@.len() - i,
    {
        let o = &objects[i];
        if o.item.is_some() && o.x == x && o.y == y {
            return Some(i);
        }
        i = i + 1;
    }
    None
}

/// A stairway entity stands on `(x, y)`.
pub open spec fn stairs_on(objs: Seq<DisplayObj>, x: i32, y: i32) -> bool {
    exists|k: int|
        0 <= k < objs.len() && (#[trigger] objs[k]).name@ == "stairs"@ && objs[k].x == x
            && objs[k].y == y
}

fn player_on_stairs(objects: &Vec<DisplayObj>) -> (b: bool)
    requires
        objects@.len() >= 1,
    ensures
        b == stairs_on(
            objects@,
            objects@[PLAYER_ID as int].x,
            objects@[PLAYER_ID as int].y,
        ),
{
    let px = objects[PLAYER_ID].x;
    let py = objects[PLAYER_ID].y;
    let stairs_name: String = "stairs".to_owned();
    let mut k: usize = 0;
    while k < objects.len()
        invariant
            0 <= k <= objects@.len(),
            stairs_name@ == "stairs"@,
            px == objects@[PLAYER_ID as int].x,
            py == objects@[PLAYER_ID as int].y,
            forall|m: int|
                0 <= m < k ==> !((#[trigger] objects@[m]).name@ == "stairs"@ && objects@[m].x == px
                    && objects@[m].y == py),
        decreases objects@.len() - k,
    {
        let o = &objects[k];
        if o.name == stairs_name && o.x == px && o.y == py {
            return true;
        }
        k = k + 1;
    }
    false
}

/// Resolve one decoded player command against the game state and say
/// whether it consumed a turn.  Dead players can only quit: every other
/// command is then inert.
pub fn handle_command(
    cmd: Command,
    fov: &Fov,
    tables: &TransitionTables,
    game: &mut Game,
    objects: &mut Vec<DisplayObj>,
) -> (action: PlayerAction)
    requires
        old(game).wf(),
        old(objects)@.len() >= 1,
        old(objects)@.len() <= 0x100000000,
        tables.monsters@.len() < 0x100000000,
        tables.items@.len() < 0x100000000,
        ({
            let p = old(objects)@[PLAYER_ID as int];
            let inv0 = old(game).inventory@;
            p.alive ==> match cmd {
                Command::Move(dx, dy) => {
                    &&& p.fighter is Some
                    &&& !(dx == 0 && dy == 0)
                    &&& i32::MIN <= p.x + dx <= i32::MAX
                    &&& i32::MIN <= p.y + dy <= i32::MAX
                },
                Command::UseItem(iid, tm, _tt) => {
                    &&& iid < inv0.len()
                    &&& (inv0[iid as int].item == Some(Item::Lightning) ==> p.fighter is Some)
                    &&& (inv0[iid as int].item == Some(Item::Fireball) ==> (p.fighter
                        matches Some(f) && f.on_death == DeathCallback::Player))
                    &&& (inv0[iid as int].item == Some(Item::Confuse) ==> (tm matches Some(id)
                        ==> id < old(objects)@.len()))
                },
                Command::DropItem(iid) => iid < inv0.len(),
                Command::DescendStairs => old(game).dungeon_level < u32::MAX,
                _ => true,
            }
        }),
    ensures
        ({
            let p = old(objects)@[PLAYER_ID as int];
            let alive = p.alive;
            let objs0 = old(objects)@;
            let m0 = old(game).messages@;
            let unchanged = final(objects)@ == objs0 && *final(game) == *old(game);
            match cmd {
                Command::Exit => action == PlayerAction::Exit && unchanged,
                Command::Wait => (action == (if alive {
                    PlayerAction::TookTurn
                } else {
                    PlayerAction::DidntTakeTurn
                })) && unchanged,
                Command::Move(dx, dy) => if alive {
                    &&& action == PlayerAction::TookTurn
                    &&& *final(game) == (Game { messages: final(game).messages, ..*old(game) })
                    &&& move_or_attack_rel(
                        dx as int,
                        dy as int,
                        old(game).map@,
                        old(game).inventory@,
                        objs0,
                        final(objects)@,
                        m0,
                        final(game).messages@,
                    )
                } else {
                    action == PlayerAction::DidntTakeTurn && unchanged
                },
                Command::PickUp => if alive {
                    &&& action == PlayerAction::DidntTakeTurn
                    &&& match first_item_at_from(objs0, p.x, p.y, 0) {
                        Some(iid) => {
                            &&& *final(game) == (Game {
                                messages: final(game).messages,
                                inventory: final(game).inventory,
                                ..*old(game)
                            })
                            &&& crate::items::pick_rel(
                                iid,
                                objs0,
                                final(objects)@,
                                old(game).inventory@,
                                final(game).inventory@,
                                m0,
                                final(game).messages@,
                            )
                        },
                        None => unchanged,
                    }
                } else {
                    action == PlayerAction::DidntTakeTurn && unchanged
                },
                Command::UseItem(iid, tm, tt) => if alive {
                    &&& action == PlayerAction::TookTurn
                    &&& *final(game) == (Game {
                        messages: final(game).messages,
                        inventory: final(game).inventory,
                        ..*old(game)
                    })
                    &&& crate::items::use_item_rel(
                        iid as int,
                        *fov,
                        tm,
                        tt,
                        old(game).inventory@,
                        final(game).inventory@,
                        objs0,
                        final(objects)@,
                        m0,
                        final(game).messages@,
                    )
                } else {
                    action == PlayerAction::DidntTakeTurn && unchanged
                },
                Command::DropItem(iid) => if alive {
                    &&& action == PlayerAction::DidntTakeTurn
                    &&& *final(game) == (Game {
                        messages: final(game).messages,
                        inventory: final(game).inventory,
                        ..*old(game)
                    })
                    &&& final(game).inventory@ == old(game).inventory@.remove(iid as int)
                    &&& ({
                        let it0 = old(game).inventory@[iid as int];
                        let dq = (if it0.equipment is Some {
                            crate::items::dequip_outcome(it0)
                        } else {
                            (it0, Seq::<(Seq<char>, Color)>::empty())
                        });
                        let it1 = DisplayObj { x: p.x, y: p.y, ..dq.0 };
                        &&& final(objects)@ == objs0.push(it1)
                        &&& final(game).messages@ == m0 + dq.1 + seq![
                            (crate::items::dropped_msg(it0), crate::color::yellow_spec()),
                        ]
                    })
                } else {
                    action == PlayerAction::DidntTakeTurn && unchanged
                },
                Command::DescendStairs => if alive {
                    &&& action == PlayerAction::DidntTakeTurn
                    &&& if stairs_on(objs0, p.x, p.y) {
                        let healed = healed_for_descent(p, old(game).inventory@);
                        &&& final(game).wf()
                        &&& final(game).dungeon_level == old(game).dungeon_level + 1
                        &&& final(game).game_settings == old(game).game_settings
                        &&& final(game).inventory@ == old(game).inventory@
                        &&& final(game).messages@ == m0.push(
                            (descend_msg(), crate::color::red_spec()),
                        )
                        &&& final(objects)@[PLAYER_ID as int] == (DisplayObj {
                            x: final(objects)@[PLAYER_ID as int].x,
                            y: final(objects)@[PLAYER_ID as int].y,
                            ..healed
                        })
                        &&& exists|rooms: Seq<crate::mapgen::Room>, corridors: Seq<
                            crate::mapgen::Room,
                        >|
                            #[trigger] crate::mapgen::generated_floor(
                                final(game).map@,
                                rooms,
                                corridors,
                                old(game).game_settings,
                                (old(game).dungeon_level + 1) as u32,
                                tables.monsters@,
                                tables.items@,
                                final(objects)@,
                            )
                    } else {
                        unchanged
                    }
                } else {
                    action == PlayerAction::DidntTakeTurn && unchanged
                },
            }
        }),
{
    let alive = objects[PLAYER_ID].alive;
    match cmd {
        Command::Exit => PlayerAction::Exit,
        Command::Wait => {
            if alive {
                PlayerAction::TookTurn
            } else {
                PlayerAction::DidntTakeTurn
            }
        },
        Command::Move(dx, dy) => {
            if alive {
                player_move_or_attack(dx, dy, game, objects);
                PlayerAction::TookTurn
            } else {
                PlayerAction::DidntTakeTurn
            }
        },
        Command::PickUp => {
            if alive {
                let px = objects[PLAYER_ID].x;
                let py = objects[PLAYER_ID].y;
                match find_item_at(px, py, objects) {
                    Some(item_id) => {
                        pick_item_up(item_id, game, objects);
                    },
                    None => {},
                }
            }
            PlayerAction::DidntTakeTurn
        },
        Command::UseItem(inventory_id, target_monster, target_tile) => {
            if alive {
                use_item(inventory_id, fov, target_monster, target_tile, game, objects);
                PlayerAction::TookTurn
            } else {
                PlayerAction::DidntTakeTurn
            }
        },
        Command::DropItem(inventory_id) => {
            if alive {
                drop_item(inventory_id, game, objects);
            }
            PlayerAction::DidntTakeTurn
        },
        Command::DescendStairs => {
            if alive {
                if player_on_stairs(objects) {
                    let ghost settings0 = game.game_settings;
                    let ghost level0 = game.dungeon_level;
                    let floor = next_level(game, objects, tables);
                    proof {
                        assert(crate::mapgen::generated_floor(
                            game.map@,
                            floor.0@,
                            floor.1@,
                            settings0,
                            (level0 + 1) as u32,
                            tables.monsters@,
                            tables.items@,
                            objects@,
                        ));
                    }
                }
            }
            PlayerAction::DidntTakeTurn
        },
    }
}

} // verus!
