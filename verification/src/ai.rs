//! Monster turns: stepping toward the player, melee range attacks, and
//! the confusion effect that wraps and later restores the prior behaviour.

use vstd::prelude::*;

use crate::color::Color;
use crate::fov::Fov;
use crate::game::Game;
use crate::game::Tile;
use crate::game::TileGrid;
use crate::game::MAX_INV_SPACE;
use crate::mapgen::tile_at;
use crate::objects::attack_rel;
use crate::objects::spec_dist_sq;
use crate::objects::Ai;
use crate::objects::DisplayObj;
use crate::PLAYER_ID;

verus! {

/// A blocking object stands on the cell.
pub open spec fn blocked_by_obj(objects: Seq<DisplayObj>, x: int, y: int) -> bool {
    exists|k: int|
        0 <= k < objects.len() && (#[trigger] objects[k]).blocks && objects[k].x == x
            && objects[k].y == y
}

/// The cell can be stepped onto: a representable position on the grid,
/// with neither a blocking tile nor a blocking object.
pub open spec fn can_move_to(
    map: Seq<Vec<Tile>>,
    objects: Seq<DisplayObj>,
    x: int,
    y: int,
) -> bool {
    &&& 0 <= x < map.len()
    &&& 0 <= y < map[x]@.len()
    &&& x <= i32::MAX
    &&& y <= i32::MAX
    &&& !tile_at(map, x, y).blocked
    &&& !blocked_by_obj(objects, x, y)
}

/// What one attempted step does to the object list: the object moves by
/// `(dx, dy)` when the destination is free, else nothing changes.
pub open spec fn move_by_rel(
    id: int,
    dx: int,
    dy: int,
    map: Seq<Vec<Tile>>,
    objs0: Seq<DisplayObj>,
    objs1: Seq<DisplayObj>,
) -> bool {
    let o = objs0[id];
    let nx = o.x + dx;
    let ny = o.y + dy;
    if can_move_to(map, objs0, nx, ny) {
        objs1 == objs0.update(id, DisplayObj { x: nx as i32, y: ny as i32, ..o })
    } else {
        objs1 == objs0
    }
}

/// Move one object by a delta, unless the destination is blocked.
pub fn move_by(id: usize, dx: i32, dy: i32, map: &TileGrid, objects: &mut Vec<DisplayObj>)
    requires
        id < old(objects)@.len(),
    ensures
        move_by_rel(id as int, dx as int, dy as int, map@, old(objects)@, final(objects)@),
{
    let o_x = objects[id].x;
    let o_y = objects[id].y;
    let nx64: i64 = o_x as i64 + dx as i64;
    let ny64: i64 = o_y as i64 + dy as i64;
    if nx64 < 0 || ny64 < 0 || nx64 > i32::MAX as i64 || ny64 > i32::MAX as i64 {
        return ;
    }
    let nx = nx64 as i32;
    let ny = ny64 as i32;
    if (nx as usize) >= map.len() {
        return ;
    }
    if (ny as usize) >= map[nx as usize].len() {
        return ;
    }
    if !crate::mapgen::is_blocked(nx, ny, map, objects) {
        let ghost objs0 = objects@;
        let mut tmp = DisplayObj::new(0, 0, ' ', "", crate::color::white(), false);
        objects.set_and_swap(id, &mut tmp);
        tmp.set_pos(nx, ny);
        objects.set_and_swap(id, &mut tmp);
        proof {
            assert(objects@ =~= objs0.update(
                id as int,
                DisplayObj { x: nx, y: ny, ..objs0[id as int] },
            ));
        }
    }
}

/// The sign of an integer.
pub open spec fn sign(v: int) -> int {
    if v > 0 {
        1
    } else if v < 0 {
        -1
    } else {
        0
    }
}

/// The unit step of the direction `(dx, dy)` normalized by its Euclidean
/// length and rounded to the nearest integer: a component rounds away
/// from zero exactly when its share of the squared length is at least a
/// quarter, i.e. when `3*dx*dx >= dy*dy`.
pub open spec fn spec_step(dx: int, dy: int) -> (int, int) {
    (
        if 3 * (dx * dx) >= dy * dy {
            sign(dx)
        } else {
            0
        },
        if 3 * (dy * dy) >= dx * dx {
            sign(dy)
        } else {
            0
        },
    )
}

/// Step one tile toward `(target_x, target_y)`, blocked cells permitting.
pub fn move_towards(
    id: usize,
    target_x: i32,
    target_y: i32,
    map: &TileGrid,
    objects: &mut Vec<DisplayObj>,
)
    requires
        id < old(objects)@.len(),
    ensures
        ({
            let o = old(objects)@[id as int];
            let s = spec_step(target_x - o.x, target_y - o.y);
            move_by_rel(id as int, s.0, s.1, map@, old(objects)@, final(objects)@)
        }),
{
    let dx64: i64 = target_x as i64 - objects[id].x as i64;
    let dy64: i64 = target_y as i64 - objects[id].y as i64;
    let dx = dx64 as i128;
    let dy = dy64 as i128;
    proof {
        assert(0 <= dx * dx <= 0x10000000000000000 && 0 <= dy * dy <= 0x10000000000000000)
            by (nonlinear_arith)
            requires
                -0x100000000 <= dx <= 0x100000000,
                -0x100000000 <= dy <= 0x100000000,
        ;
    }
    let step_x: i32 = if 3 * (dx * dx) >= dy * dy {
        if dx64 > 0 {
            1
        } else if dx64 < 0 {
            -1
        } else {
            0
        }
    } else {
        0
    };
    let step_y: i32 = if 3 * (dy * dy) >= dx * dx {
        if dy64 > 0 {
            1
        } else if dy64 < 0 {
            -1
        } else {
            0
        }
    } else {
        0
    };
    move_by(id, step_x, step_y, map, objects);
}

/// What a basic monster's turn does.  Out of the player's sight it
/// stands still; in sight it closes in while the distance is two or
/// more, and strikes when adjacent and the player still has hit points.
pub open spec fn basic_turn_rel(
    mid: int,
    fov: Fov,
    map: Seq<Vec<Tile>>,
    inv: Seq<DisplayObj>,
    objs0: Seq<DisplayObj>,
    objs1: Seq<DisplayObj>,
    m0: Seq<(Seq<char>, Color)>,
    m1: Seq<(Seq<char>, Color)>,
) -> bool {
    let m = objs0[mid];
    let p = objs0[PLAYER_ID as int];
    if !fov.spec_vis(m.x as int, m.y as int) {
        objs1 == objs0 && m1 == m0
    } else if spec_dist_sq(m.x as int, m.y as int, p.x as int, p.y as int) >= 4 {
        let s = spec_step(p.x - m.x, p.y - m.y);
        move_by_rel(mid, s.0, s.1, map, objs0, objs1) && m1 == m0
    } else if (p.fighter matches Some(pf) && pf.hp > 0) && m.fighter is Some {
        &&& objs1.len() == objs0.len()
        &&& forall|j: int| 0 <= j < objs0.len() && j != mid && j != PLAYER_ID ==> objs1[j] == #[trigger] objs0[j]
        &&& attack_rel(m, p, inv, objs1[mid], objs1[PLAYER_ID as int], m0, m1)
    } else {
        objs1 == objs0 && m1 == m0
    }
}

/// One turn of the basic chase-and-attack behaviour.
pub fn ai_basic(
    monster_id: usize,
    fov: &Fov,
    game: &mut Game,
    objects: &mut Vec<DisplayObj>,
) -> (a: Ai)
    requires
        monster_id < old(objects)@.len(),
        monster_id != PLAYER_ID,
        old(objects)@.len() >= 1,
        old(game).inventory@.len() <= MAX_INV_SPACE,
    ensures
        a == Ai::Basic,
        *final(game) == (Game { messages: final(game).messages, ..*old(game) }),
        basic_turn_rel(
            monster_id as int,
            *fov,
            old(game).map@,
            old(game).inventory@,
            old(objects)@,
            final(objects)@,
            old(game).messages@,
            final(game).messages@,
        ),
{
    let monster_x = objects[monster_id].x;
    let monster_y = objects[monster_id].y;
    if fov.is_in_fov(monster_x, monster_y) {
        let px = objects[PLAYER_ID].x;
        let py = objects[PLAYER_ID].y;
        let d2 = objects[monster_id].distance_sq(px, py);
        if d2 >= 4 {
            move_towards(monster_id, px, py, &game.map, objects);
        } else {
            let player_up = match &objects[PLAYER_ID].fighter {
                Some(pf) => pf.hp > 0,
                None => false,
            };
            let monster_armed = objects[monster_id].fighter.is_some();
            if player_up && monster_armed {
                let ghost objs0 = objects@;
                let mut monster = DisplayObj::new(0, 0, ' ', "", crate::color::white(), false);
                let mut player = DisplayObj::new(0, 0, ' ', "", crate::color::white(), false);
                objects.set_and_swap(monster_id, &mut monster);
                objects.set_and_swap(PLAYER_ID, &mut player);
                monster.attack(&mut player, game);
                objects.set_and_swap(PLAYER_ID, &mut player);
                objects.set_and_swap(monster_id, &mut monster);
                proof {
                    assert(forall|j: int|
                        0 <= j < objs0.len() && j != monster_id && j != PLAYER_ID
                            ==> objects@[j] == #[trigger] objs0[j]);
                }
            }
        }
    }
    Ai::Basic
}

pub open spec fn confused_over_msg(o: DisplayObj) -> Seq<char> {
    "The "@ + o.name@ + " is no longer confused!"@
}

/// What the random stumble of a confused monster may do: the monster
/// either stays or takes one free step to an adjacent cell (diagonals
/// included); nothing else changes.
pub open spec fn confused_step_rel(
    mid: int,
    map: Seq<Vec<Tile>>,
    objs0: Seq<DisplayObj>,
    objs1: Seq<DisplayObj>,
) -> bool {
    let m = objs0[mid];
    let m2 = objs1[mid];
    &&& objs1.len() == objs0.len()
    &&& forall|j: int| 0 <= j < objs0.len() && j != mid ==> objs1[j] == #[trigger] objs0[j]
    &&& m2 == (DisplayObj { x: m2.x, y: m2.y, ..m })
    &&& -1 <= m2.x - m.x <= 1
    &&& -1 <= m2.y - m.y <= 1
    &&& ((m2.x == m.x && m2.y == m.y) || can_move_to(map, objs0, m2.x as int, m2.y as int))
}

/// One turn of confusion: while turns remain, stumble one random step
/// and count down; once the count is spent, restore the wrapped
/// behaviour and log that the confusion has passed.
pub fn ai_confused(
    monster_id: usize,
    game: &mut Game,
    objects: &mut Vec<DisplayObj>,
    previous_ai: Box<Ai>,
    num_turns: i32,
) -> (a: Ai)
    requires
        monster_id < old(objects)@.len(),
    ensures
        *final(game) == (Game { messages: final(game).messages, ..*old(game) }),
        num_turns >= 0 ==> {
            &&& a == (Ai::Confused { previous_ai, num_turns: (num_turns - 1) as i32 })
            &&& confused_step_rel(monster_id as int, old(game).map@, old(objects)@, final(objects)@)
            &&& final(game).messages@ == old(game).messages@
        },
        num_turns < 0 ==> {
            &&& a == *previous_ai
            &&& final(objects)@ == old(objects)@
            &&& final(game).messages@ == old(game).messages@.push(
                (confused_over_msg(old(objects)@[monster_id as int]), crate::color::red_spec()),
            )
        },
{
    if num_turns >= 0 {
        let dx = crate::rng::rand_range(-1, 2) as i32;
        let dy = crate::rng::rand_range(-1, 2) as i32;
        move_by(monster_id, dx, dy, &game.map, objects);
        Ai::Confused { previous_ai, num_turns: num_turns - 1 }
    } else {
        let msg = "The ".to_owned().concat(objects[monster_id].name.as_str()).concat(
            " is no longer confused!",
        );
        game.messages.add(msg, crate::color::red());
        *previous_ai
    }
}

/// Everything one monster's turn resolution does to the object list and
/// the log, by the behaviour the entity carries at entry.
pub open spec fn ai_turn_rel(
    mid: int,
    fov: Fov,
    map: Seq<Vec<Tile>>,
    inv: Seq<DisplayObj>,
    objs0: Seq<DisplayObj>,
    objs1: Seq<DisplayObj>,
    m0: Seq<(Seq<char>, Color)>,
    m1: Seq<(Seq<char>, Color)>,
) -> bool {
    &&& objs1.len() == objs0.len()
    &&& ({
        let o = objs0[mid];
        match o.ai {
            None => objs1 == objs0 && m1 == m0,
            Some(a0) => {
                &&& objs1[mid].ai is Some
                &&& match a0 {
                    Ai::Basic => basic_turn_rel(mid, fov, map, inv, objs0, objs1, m0, m1),
                    Ai::Confused { previous_ai, num_turns } => {
                        if num_turns >= 0 {
                            &&& objs1[mid].ai == Some(
                                Ai::Confused { previous_ai, num_turns: (num_turns - 1) as i32 },
                            )
                            &&& confused_step_rel(
                                mid,
                                map,
                                objs0,
                                objs1.update(mid, DisplayObj { ai: o.ai, ..objs1[mid] }),
                            )
                            &&& m1 == m0
                        } else {
                            &&& objs1 == objs0.update(
                                mid,
                                DisplayObj { ai: Some(*previous_ai), ..o },
                            )
                            &&& m1 == m0.push((confused_over_msg(o), crate::color::red_spec()))
                        }
                    },
                }
            },
        }
    })
}

/// Resolve one monster's turn by its current behaviour, and leave it
/// with the behaviour the resolution hands back: an entity with an AI
/// never loses it.
pub fn ai_take_turn(monster_id: usize, fov: &Fov, game: &mut Game, objects: &mut Vec<DisplayObj>)
    requires
        monster_id < old(objects)@.len(),
        monster_id != PLAYER_ID,
        old(objects)@.len() >= 1,
        old(game).inventory@.len() <= MAX_INV_SPACE,
    ensures
        *final(game) == (Game { messages: final(game).messages, ..*old(game) }),
        final(objects)@.len() == old(objects)@.len(),
        ai_turn_rel(
            monster_id as int,
            *fov,
            old(game).map@,
            old(game).inventory@,
            old(objects)@,
            final(objects)@,
            old(game).messages@,
            final(game).messages@,
        ),
{
    let cur: Option<Ai> = match &objects[monster_id].ai {
        Some(a) => Some(a.clone()),
        None => None,
    };
    match cur {
        None => {},
        Some(Ai::Basic) => {
            let na = ai_basic(monster_id, fov, game, objects);
            let ghost mid_state = objects@;
            set_ai(objects, monster_id, Some(na));
            proof {
                assert(mid_state[monster_id as int].ai == Some(Ai::Basic));
                assert(objects@ =~= mid_state);
            }
        },
        Some(Ai::Confused { previous_ai, num_turns }) => {
            let ghost objs0 = objects@;
            let ghost prev_box = previous_ai;
            let na = ai_confused(monster_id, game, objects, previous_ai, num_turns);
            let ghost mid_state = objects@;
            set_ai(objects, monster_id, Some(na));
            proof {
                if num_turns >= 0 {
                    assert(mid_state[monster_id as int].ai == objs0[monster_id as int].ai);
                    assert(objects@.update(
                        monster_id as int,
                        DisplayObj {
                            ai: objs0[monster_id as int].ai,
                            ..objects@[monster_id as int]
                        },
                    ) =~= mid_state);
                } else {
                    assert(objects@ =~= objs0.update(
                        monster_id as int,
                        DisplayObj { ai: Some(*prev_box), ..objs0[monster_id as int] },
                    ));
                }
            }
        },
    }
}

/// Replace one object's AI facet.
fn set_ai(objects: &mut Vec<DisplayObj>, id: usize, a: Option<Ai>)
    requires
        id < old(objects)@.len(),
    ensures
        final(objects)@ == old(objects)@.update(
            id as int,
            DisplayObj { ai: a, ..old(objects)@[id as int] },
        ),
{
    let mut tmp = DisplayObj::new(0, 0, ' ', "", crate::color::white(), false);
    objects.set_and_swap(id, &mut tmp);
    tmp.ai = a;
    objects.set_and_swap(id, &mut tmp);
}

} // verus!
