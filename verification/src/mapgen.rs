//! Procedural dungeon generation: random room placement with overlap
//! rejection, L-shaped corridors, and weighted object spawning.

use vstd::prelude::*;

use crate::conf::from_dungeon_level;
use crate::conf::transition_lookup;
use crate::conf::ObjectConfiguration;
use crate::conf::TransitionTables;
use crate::game::empty_tile;
use crate::game::Tile;
use crate::game::TileGrid;
use crate::objects::DisplayObj;
use crate::game::grid_wf;
use crate::game::GameSettings;
use crate::rng::rand_bool;
use crate::rng::rand_range;
use crate::rng::weight_sum;
use crate::rng::weighted_pick;

verus! {

/// A rectangular room, stored by its two corners (both inclusive in the
/// overlap test; only the strict interior is carved).
#[derive(Clone, Copy, Debug, PartialEq, Eq, Structural)]
pub struct Room {
    pub x1: i32,
    pub y1: i32,
    pub x2: i32,
    pub y2: i32,
}

/// Two rooms' bounding boxes touch or overlap (boundary inclusive).
pub open spec fn spec_intersects(a: Room, b: Room) -> bool {
    &&& a.x1 <= b.x2
    &&& a.x2 >= b.x1
    &&& a.y1 <= b.y2
    &&& a.y2 >= b.y1
}

/// The strict interior of a room: the cells that are carved out.
pub open spec fn inside_room(r: Room, x: int, y: int) -> bool {
    r.x1 < x < r.x2 && r.y1 < y < r.y2
}

impl Room {
    pub open spec fn spec_center(&self) -> (int, int) {
        ((self.x1 + self.x2) / 2, (self.y1 + self.y2) / 2)
    }

    pub fn new(x: i32, y: i32, w: i32, h: i32) -> (r: Room)
        requires
            0 <= w,
            0 <= h,
            x + w <= i32::MAX,
            y + h <= i32::MAX,
        ensures
            r == (Room { x1: x, y1: y, x2: (x + w) as i32, y2: (y + h) as i32 }),
    {
        Room { x1: x, y1: y, x2: x + w, y2: y + h }
    }

    pub fn center(&self) -> (c: (i32, i32))
        requires
            0 <= self.x1 <= self.x2,
            0 <= self.y1 <= self.y2,
            self.x1 + self.x2 <= i32::MAX,
            self.y1 + self.y2 <= i32::MAX,
        ensures
            (c.0 as int, c.1 as int) == self.spec_center(),
    {
        let center_x = (self.x1 + self.x2) / 2;
        let center_y = (self.y1 + self.y2) / 2;
        (center_x, center_y)
    }

    pub fn intersects_with(&self, other: &Room) -> (b: bool)
        ensures
            b == spec_intersects(*self, *other),
    {
        (self.x1 <= other.x2) && (self.x2 >= other.x1) && (self.y1 <= other.y2) && (self.y2
            >= other.y1)
    }
}

/// The tile at a grid cell.
pub open spec fn tile_at(map: Seq<Vec<Tile>>, x: int, y: int) -> Tile {
    map[x]@[y]
}

/// Whether the cell lies on the grid.
pub open spec fn in_grid(map: Seq<Vec<Tile>>, x: int, y: int) -> bool {
    0 <= x < map.len() && 0 <= y < map[x]@.len()
}

/// Two grids of the same shape, column for column.
pub open spec fn same_dims(a: Seq<Vec<Tile>>, b: Seq<Vec<Tile>>) -> bool {
    &&& a.len() == b.len()
    &&& forall|i: int| 0 <= i < a.len() ==> (#[trigger] b[i])@.len() == a[i]@.len()
}

/// The room's closed rectangle lies on the grid.
pub open spec fn room_in_grid(r: Room, map: Seq<Vec<Tile>>) -> bool {
    &&& 0 <= r.x1
    &&& r.x2 < map.len()
    &&& 0 <= r.y1
    &&& forall|i: int| 0 <= i < map.len() ==> r.y2 < (#[trigger] map[i])@.len()
}

/// Write one tile, leaving the rest of the grid as it was.
fn set_tile(map: &mut TileGrid, x: usize, y: usize, t: Tile)
    requires
        in_grid(old(map)@, x as int, y as int),
    ensures
        same_dims(old(map)@, final(map)@),
        tile_at(final(map)@, x as int, y as int) == t,
        forall|i: int, j: int|
            in_grid(old(map)@, i, j) && !(i == x && j == y) ==> tile_at(final(map)@, i, j)
                == tile_at(old(map)@, i, j),
{
    let mut col: Vec<Tile> = Vec::new();
    map.set_and_swap(x, &mut col);
    col.set(y, t);
    map.set_and_swap(x, &mut col);
}

/// Carve the strict interior of `room` to empty floor.
pub fn create_room(room: Room, map: &mut TileGrid)
    requires
        room_in_grid(room, old(map)@),
    ensures
        same_dims(old(map)@, final(map)@),
        forall|i: int, j: int|
            in_grid(old(map)@, i, j) ==> tile_at(final(map)@, i, j) == (if inside_room(
                room,
                i,
                j,
            ) {
                empty_tile()
            } else {
                tile_at(old(map)@, i, j)
            }),
{
    if (room.x2 as i64) <= room.x1 as i64 + 1 || (room.y2 as i64) <= room.y1 as i64 + 1 {
        return ;
    }
    let mut x: i32 = room.x1 + 1;
    while x < room.x2
        invariant
            room.x1 + 1 < room.x2,
            room.y1 + 1 < room.y2,
            room.x1 < x <= room.x2,
            room_in_grid(room, map@),
            same_dims(old(map)@, map@),
            forall|i: int, j: int|
                in_grid(old(map)@, i, j) ==> tile_at(map@, i, j) == (if inside_room(room, i, j) && i
                    < x {
                    empty_tile()
                } else {
                    tile_at(old(map)@, i, j)
                }),
        decreases room.x2 - x,
    {
        let mut y: i32 = room.y1 + 1;
        while y < room.y2
            invariant
                room.x1 + 1 < room.x2,
                room.y1 + 1 < room.y2,
                room.x1 < x < room.x2,
                room.y1 < y <= room.y2,
                room_in_grid(room, map@),
                same_dims(old(map)@, map@),
                forall|i: int, j: int|
                    in_grid(old(map)@, i, j) ==> tile_at(map@, i, j) == (if inside_room(room, i, j)
                        && (i < x || (i == x && j < y)) {
                        empty_tile()
                    } else {
                        tile_at(old(map)@, i, j)
                    }),
            decreases room.y2 - y,
        {
            set_tile(map, x as usize, y as usize, Tile::empty());
            y = y + 1;
        }
        x = x + 1;
    }
}

/// Carve a horizontal corridor along row `y`, between `x1` and `x2`
/// inclusive, in either order.
pub fn create_h_tunnel(x1: i32, x2: i32, y: i32, map: &mut TileGrid)
    requires
        0 <= x1 < old(map)@.len(),
        0 <= x2 < old(map)@.len(),
        x1 < i32::MAX,
        x2 < i32::MAX,
        0 <= y,
        forall|i: int| 0 <= i < old(map)@.len() ==> y < (#[trigger] old(map)@[i])@.len(),
    ensures
        same_dims(old(map)@, final(map)@),
        forall|i: int, j: int|
            in_grid(old(map)@, i, j) ==> tile_at(final(map)@, i, j) == (if j == y && min_i32(
                x1,
                x2,
            ) <= i <= max_i32(x1, x2) {
                empty_tile()
            } else {
                tile_at(old(map)@, i, j)
            }),
{
    let lo: i32 = if x1 < x2 {
        x1
    } else {
        x2
    };
    let hi: i32 = if x1 < x2 {
        x2
    } else {
        x1
    };
    let mut x: i32 = lo;
    while x <= hi
        invariant
            lo <= x <= hi + 1,
            0 <= lo,
            hi < i32::MAX,
            hi < map@.len(),
            0 <= y,
            forall|i: int|
                0 <= i < old(map)@.len() ==> y < (#[trigger] old(map)@[i])@.len(),
            same_dims(old(map)@, map@),
            forall|i: int, j: int|
                in_grid(old(map)@, i, j) ==> tile_at(map@, i, j) == (if j == y && lo <= i < x {
                    empty_tile()
                } else {
                    tile_at(old(map)@, i, j)
                }),
        decreases hi + 1 - x,
    {
        set_tile(map, x as usize, y as usize, Tile::empty());
        x = x + 1;
    }
}

/// Carve a vertical corridor along column `x`, between `y1` and `y2`
/// inclusive, in either order.
pub fn create_v_tunnel(y1: i32, y2: i32, x: i32, map: &mut TileGrid)
    requires
        0 <= x < old(map)@.len(),
        0 <= y1,
        0 <= y2,
        y1 < i32::MAX,
        y2 < i32::MAX,
        forall|i: int|
            0 <= i < old(map)@.len() ==> y1 < (#[trigger] old(map)@[i])@.len() && y2 < old(
                map,
            )@[i]@.len(),
    ensures
        same_dims(old(map)@, final(map)@),
        forall|i: int, j: int|
            in_grid(old(map)@, i, j) ==> tile_at(final(map)@, i, j) == (if i == x && min_i32(
                y1,
                y2,
            ) <= j <= max_i32(y1, y2) {
                empty_tile()
            } else {
                tile_at(old(map)@, i, j)
            }),
{
    let lo: i32 = if y1 < y2 {
        y1
    } else {
        y2
    };
    let hi: i32 = if y1 < y2 {
        y2
    } else {
        y1
    };
    let mut y: i32 = lo;
    while y <= hi
        invariant
            lo <= y <= hi + 1,
            0 <= lo,
            hi < i32::MAX,
            0 <= x < map@.len(),
            forall|i: int|
                0 <= i < old(map)@.len() ==> hi < (#[trigger] old(map)@[i])@.len(),
            same_dims(old(map)@, map@),
            forall|i: int, j: int|
                in_grid(old(map)@, i, j) ==> tile_at(map@, i, j) == (if i == x && lo <= j < y {
                    empty_tile()
                } else {
                    tile_at(old(map)@, i, j)
                }),
        decreases hi + 1 - y,
    {
        set_tile(map, x as usize, y as usize, Tile::empty());
        y = y + 1;
    }
}

pub open spec fn min_i32(a: i32, b: i32) -> int {
    if a < b {
        a as int
    } else {
        b as int
    }
}

pub open spec fn max_i32(a: i32, b: i32) -> int {
    if a < b {
        b as int
    } else {
        a as int
    }
}

/// A cell blocks movement: either its tile does, or a blocking object
/// stands on it.
pub open spec fn spec_is_blocked(
    map: Seq<Vec<Tile>>,
    objects: Seq<DisplayObj>,
    x: i32,
    y: i32,
) -> bool {
    ||| tile_at(map, x as int, y as int).blocked
    ||| exists|k: int|
        0 <= k < objects.len() && (#[trigger] objects[k]).blocks && objects[k].x == x
            && objects[k].y == y
}

pub fn is_blocked(x: i32, y: i32, map: &TileGrid, objects: &Vec<DisplayObj>) -> (b: bool)
    requires
        in_grid(map@, x as int, y as int),
    ensures
        b == spec_is_blocked(map@, objects@, x, y),
{
    if map[x as usize][y as usize].blocked {
        return true;
    }
    let mut k: usize = 0;
    while k < objects.len()
        invariant
            0 <= k <= objects@.len(),
            forall|m: int|
                0 <= m < k ==> !((#[trigger] objects@[m]).blocks && objects@[m].x == x
                    && objects@[m].y == y),
        decreases objects@.len() - k,
    {
        let o = &objects[k];
        if o.blocks && o.x == x && o.y == y {
            return true;
        }
        k = k + 1;
    }
    false
}


/// An entity the spawner may produce for `room`: built from a template
/// whose weight table is positive at this level, standing strictly
/// inside the room.
pub open spec fn spawned_in_room(
    o: DisplayObj,
    room: Room,
    conf: Seq<ObjectConfiguration>,
    level: u32,
) -> bool {
    &&& inside_room(room, o.x as int, o.y as int)
    &&& exists|k: int|
        0 <= k < conf.len() && transition_lookup(
            (#[trigger] conf[k]).transition_table@,
            level,
        ) > 0 && conf[k].spawned_from(o, o.x, o.y)
}

/// Draw a spawn count in `[0, max_spawns]` and place that many template
/// instances on random free cells of the room; a draw that lands on a
/// blocked cell is skipped, not retried.  With an empty catalog or only
/// zero weights at this level (or a weight total beyond `u32`), nothing
/// spawns.
pub fn generate_objects(
    max_spawns: u32,
    conf_data: &Vec<ObjectConfiguration>,
    room: Room,
    map: &TileGrid,
    level: u32,
    objects: &mut Vec<DisplayObj>,
)
    requires
        room.x1 + 1 < room.x2,
        room.y1 + 1 < room.y2,
        room_in_grid(room, map@),
        conf_data@.len() < 0x100000000,
    ensures
        old(objects)@.len() <= final(objects)@.len() <= old(objects)@.len() + max_spawns,
        final(objects)@.take(old(objects)@.len() as int) == old(objects)@,
        forall|j: int|
            old(objects)@.len() <= j < final(objects)@.len() ==> spawned_in_room(
                #[trigger] final(objects)@[j],
                room,
                conf_data@,
                level,
            ) && !tile_at(map@, final(objects)@[j].x as int, final(objects)@[j].y as int).blocked,
{
    let ghost len0 = objects@.len();
    let num: i64 = rand_range(0, max_spawns as i64 + 1);

    let mut weights: Vec<u32> = Vec::new();
    let mut k: usize = 0;
    while k < conf_data.len()
        invariant
            0 <= k <= conf_data@.len(),
            weights@.len() == k,
            forall|m: int|
                0 <= m < k ==> weights@[m] == transition_lookup(
                    (#[trigger] conf_data@[m]).transition_table@,
                    level,
                ),
        decreases conf_data@.len() - k,
    {
        let w = from_dungeon_level(&conf_data[k].transition_table, level);
        weights.push(w);
        k = k + 1;
    }

    let mut total: u64 = 0;
    let mut k2: usize = 0;
    while k2 < weights.len()
        invariant
            0 <= k2 <= weights@.len(),
            weights@.len() < 0x100000000,
            total == weight_sum(weights@.take(k2 as int)),
            total <= (k2 as int) * 0xFFFFFFFF,
        decreases weights@.len() - k2,
    {
        proof {
            assert(weights@.take(k2 as int + 1).drop_last() =~= weights@.take(k2 as int));
            assert(weights@.take(k2 as int + 1).last() == weights@[k2 as int]);
        }
        total = total + weights[k2] as u64;
        k2 = k2 + 1;
    }
    proof {
        assert(weights@.take(weights@.len() as int) =~= weights@);
        assert(objects@.take(len0 as int) =~= objects@);
    }
    if total == 0 || total > u32::MAX as u64 {
        return ;
    }

    let mut i: i64 = 0;
    while i < num
        invariant
            0 <= i <= num,
            num <= max_spawns + 1,
            weights@.len() == conf_data@.len(),
            conf_data@.len() < 0x100000000,
            forall|m: int|
                0 <= m < weights@.len() ==> weights@[m] == transition_lookup(
                    (#[trigger] conf_data@[m]).transition_table@,
                    level,
                ),
            weight_sum(weights@) <= u32::MAX,
            room.x1 + 1 < room.x2,
            room.y1 + 1 < room.y2,
            room_in_grid(room, map@),
            len0 <= objects@.len() <= len0 + i,
            objects@.take(len0 as int) == old(objects)@,
            old(objects)@.len() == len0,
            forall|j: int|
                len0 <= j < objects@.len() ==> spawned_in_room(
                    #[trigger] objects@[j],
                    room,
                    conf_data@,
                    level,
                ) && !tile_at(map@, objects@[j].x as int, objects@[j].y as int).blocked,
        decreases num - i,
    {
        let x = rand_range(room.x1 as i64 + 1, room.x2 as i64) as i32;
        let y = rand_range(room.y1 as i64 + 1, room.y2 as i64) as i32;

        if !is_blocked(x, y, map, objects) {
            match weighted_pick(&weights) {
                Some(idx) => {
                    let ghost prev = objects@;
                    let o = conf_data[idx].as_object(x, y);
                    objects.push(o);
                    proof {
                        assert(objects@.take(len0 as int) =~= prev.take(len0 as int));
                    }
                },
                None => {},
            }
        }
        i = i + 1;
    }
}

/// Spawn monsters and then items for one room, each population capped by
/// its level-gated table.
pub fn place_objects(
    room: Room,
    map: &TileGrid,
    level: u32,
    tables: &TransitionTables,
    objects: &mut Vec<DisplayObj>,
)
    requires
        room.x1 + 1 < room.x2,
        room.y1 + 1 < room.y2,
        room_in_grid(room, map@),
        tables.monsters@.len() < 0x100000000,
        tables.items@.len() < 0x100000000,
    ensures
        old(objects)@.len() <= final(objects)@.len() <= old(objects)@.len() + transition_lookup(
            tables.max_monsters@,
            level,
        ) + transition_lookup(tables.max_items@, level),
        final(objects)@.take(old(objects)@.len() as int) == old(objects)@,
        forall|j: int|
            old(objects)@.len() <= j < final(objects)@.len() ==> (spawned_in_room(
                #[trigger] final(objects)@[j],
                room,
                tables.monsters@,
                level,
            ) || spawned_in_room(final(objects)@[j], room, tables.items@, level)) && !tile_at(
                map@,
                final(objects)@[j].x as int,
                final(objects)@[j].y as int,
            ).blocked,
{
    let ghost len0 = objects@.len();
    let max_monsters = from_dungeon_level(&tables.max_monsters, level);
    generate_objects(max_monsters, &tables.monsters, room, map, level, objects);
    let ghost mid = objects@;
    let max_items = from_dungeon_level(&tables.max_items, level);
    generate_objects(max_items, &tables.items, room, map, level, objects);
    proof {
        assert(objects@.take(len0 as int) =~= objects@.take(mid.len() as int).take(len0 as int));
        assert(forall|j: int|
            0 <= j < mid.len() ==> objects@[j] == objects@.take(mid.len() as int)[j]);
    }
}


/// A room the generator accepts: a nonempty interior, strictly inside
/// the `w` by `h` grid.
pub open spec fn room_wf(r: Room, w: int, h: int) -> bool {
    &&& 0 <= r.x1
    &&& r.x1 + 1 < r.x2
    &&& r.x2 < w
    &&& 0 <= r.y1
    &&& r.y1 + 1 < r.y2
    &&& r.y2 < h
}

/// No two rooms' bounding boxes overlap, boundaries included.
pub open spec fn rooms_disjoint(rooms: Seq<Room>) -> bool {
    forall|i: int, j: int|
        0 <= i < j < rooms.len() ==> !#[trigger] spec_intersects(rooms[i], rooms[j])
}

/// The object was spawned for one of the accepted rooms after the first
/// (the spawn room is kept free of monsters and items).
pub open spec fn spawn_of_tables(
    o: DisplayObj,
    rooms: Seq<Room>,
    monsters: Seq<ObjectConfiguration>,
    items: Seq<ObjectConfiguration>,
    level: u32,
) -> bool {
    exists|ri: int|
        1 <= ri < rooms.len() && (spawned_in_room(o, #[trigger] rooms[ri], monsters, level)
            || spawned_in_room(o, rooms[ri], items, level))
}

/// The entity standing on the stairway down, placed at `c`.
pub open spec fn stairs_at(o: DisplayObj, c: (int, int)) -> bool {
    &&& o.x as int == c.0
    &&& o.y as int == c.1
    &&& o.glyph == '<'
    &&& o.name@ == "stairs"@
    &&& o.always_visible == true
    &&& o.blocks == false
    &&& o.alive == false
    &&& o.fighter is None
    &&& o.ai is None
    &&& o.item is None
    &&& o.equipment is None
    &&& o.level == 1
}

/// The same object, moved to `c`.
pub open spec fn moved_to(o: DisplayObj, c: (int, int), r: DisplayObj) -> bool {
    &&& r.x as int == c.0
    &&& r.y as int == c.1
    &&& r == (DisplayObj { x: r.x, y: r.y, ..o })
}

/// The cell lies in the strict interior of one of the rectangles.
pub open spec fn covered(rects: Seq<Room>, x: int, y: int) -> bool {
    exists|i: int| 0 <= i < rects.len() && inside_room(#[trigger] rects[i], x, y)
}

/// Pushing a rectangle extends the covered cells by its interior.
pub proof fn lemma_covered_push(rects: Seq<Room>, r: Room, x: int, y: int)
    ensures
        covered(rects.push(r), x, y) <==> (covered(rects, x, y) || inside_room(r, x, y)),
{
    let all = rects.push(r);
    if covered(all, x, y) {
        let i = choose|i: int| 0 <= i < all.len() && inside_room(#[trigger] all[i], x, y);
        if i < rects.len() {
            assert(all[i] == rects[i]);
            assert(inside_room(rects[i], x, y));
        } else {
            assert(all[i] == r);
        }
    }
    if covered(rects, x, y) {
        let i = choose|i: int| 0 <= i < rects.len() && inside_room(#[trigger] rects[i], x, y);
        assert(all[i] == rects[i]);
        assert(inside_room(all[i], x, y));
    }
    if inside_room(r, x, y) {
        assert(all[rects.len() as int] == r);
        assert(inside_room(all[rects.len() as int], x, y));
    }
}

/// Every tile is either untouched wall or carved floor.
pub open spec fn walls_or_floor(map: Seq<Vec<Tile>>) -> bool {
    forall|x: int, y: int|
        in_grid(map, x, y) ==> (#[trigger] tile_at(map, x, y)) == crate::game::wall_tile()
            || tile_at(map, x, y) == empty_tile()
}

/// The carved cells are exactly the interiors of the accepted rooms and
/// of the corridor rectangles; every other tile stays a wall.
pub open spec fn carved_exactly(
    map: Seq<Vec<Tile>>,
    rooms: Seq<Room>,
    corridors: Seq<Room>,
) -> bool {
    forall|x: int, y: int|
        in_grid(map, x, y) ==> ((#[trigger] tile_at(map, x, y)) == empty_tile() <==> covered(
            rooms,
            x,
            y,
        ) || covered(corridors, x, y))
}

/// Everything a freshly generated floor guarantees, over the map, the
/// accepted rooms, the carved corridors and the object list that comes
/// out: the grid has the settings' shape; the rooms are disjoint,
/// well-formed and within the room cap; exactly the room interiors and
/// the corridor rectangles are carved, the rest stays wall; the player
/// stands on the first room's center; later objects are spawned from
/// positive-weight templates in rooms after the first; a stairway stands
/// on the last room's center; and every room cell is reachable from the
/// spawn center over carved tiles.
pub open spec fn generated_floor(
    map: Seq<Vec<Tile>>,
    rooms: Seq<Room>,
    corridors: Seq<Room>,
    settings: GameSettings,
    level: u32,
    monsters: Seq<ObjectConfiguration>,
    items: Seq<ObjectConfiguration>,
    objs1: Seq<DisplayObj>,
) -> bool {
    &&& grid_wf(map, settings.map_w as int, settings.map_h as int)
    &&& rooms_disjoint(rooms)
    &&& rooms.len() <= settings.max_rooms
    &&& forall|i: int|
        0 <= i < rooms.len() ==> room_wf(
            #[trigger] rooms[i],
            settings.map_w as int,
            settings.map_h as int,
        )
    &&& forall|i: int, x: int, y: int|
        0 <= i < rooms.len() && #[trigger] inside_room(rooms[i], x, y) ==> tile_at(map, x, y)
            == empty_tile()
    &&& walls_or_floor(map)
    &&& carved_exactly(map, rooms, corridors)
    &&& objs1.len() >= 1
    &&& (rooms.len() == 0 ==> objs1.len() == 1 && corridors.len() == 0)
    &&& (rooms.len() > 0 ==> objs1[0].x as int == rooms[0].spec_center().0 && objs1[0].y as int
        == rooms[0].spec_center().1)
    &&& (rooms.len() > 0 ==> stairs_at(objs1.last(), rooms.last().spec_center()))
    &&& forall|j: int|
        1 <= j < objs1.len() - 1 ==> spawn_of_tables(#[trigger] objs1[j], rooms, monsters, items, level)
    &&& forall|i: int, x: int, y: int|
        0 <= i < rooms.len() && #[trigger] inside_room(rooms[i], x, y) ==> connected(
            map,
            (x, y),
            rooms[0].spec_center(),
        )
}

/// Generate a fresh dungeon floor.  Up to `max_rooms` random rooms are
/// tried; a candidate that overlaps an accepted room is rejected.  The
/// object list is reduced to the player alone, who is moved to the
/// center of the first accepted room; every later room is populated from
/// the spawn tables and connected to its predecessor by an L-shaped
/// corridor; a stairway is placed at the center of the last room.  When
/// no room at all is accepted the result is a player-only, stairless
/// floor.
#[verifier::rlimit(100)]
pub fn make_map(
    objects: &mut Vec<DisplayObj>,
    game_settings: &GameSettings,
    level: u32,
    tables: &TransitionTables,
) -> (r: (TileGrid, Vec<Room>, Vec<Room>))
    requires
        game_settings.wf(),
        old(objects)@.len() >= 1,
        tables.monsters@.len() < 0x100000000,
        tables.items@.len() < 0x100000000,
    ensures
        generated_floor(
            r.0@,
            r.1@,
            r.2@,
            *game_settings,
            level,
            tables.monsters@,
            tables.items@,
            final(objects)@,
        ),
        r.1@.len() == 0 ==> final(objects)@ == seq![old(objects)@[0]],
        r.1@.len() > 0 ==> moved_to(
            old(objects)@[0],
            r.1@[0].spec_center(),
            final(objects)@[0],
        ),
{
    let mw: i32 = game_settings.map_w;
    let mh: i32 = game_settings.map_h;

    let mut map: TileGrid = Vec::new();
    let mut cx: i32 = 0;
    while cx < mw
        invariant
            2 <= mh <= 10000,
            0 <= cx <= mw,
            map@.len() == cx,
            forall|i: int| 0 <= i < cx ==> (#[trigger] map@[i])@.len() == mh,
            forall|i: int, j: int|
                0 <= i < cx && 0 <= j < mh ==> tile_at(map@, i, j) == crate::game::wall_tile(),
        decreases mw - cx,
    {
        let mut col: Vec<Tile> = Vec::new();
        let mut cy: i32 = 0;
        while cy < mh
            invariant
                0 <= cy <= mh,
                col@.len() == cy,
                forall|j: int| 0 <= j < cy ==> col@[j] == crate::game::wall_tile(),
            decreases mh - cy,
        {
            col.push(Tile::wall());
            cy = cy + 1;
        }
        let ghost prev = map@;
        map.push(col);
        proof {
            assert forall|i: int, j: int| 0 <= i < cx + 1 && 0 <= j < mh implies tile_at(
                map@,
                i,
                j,
            ) == crate::game::wall_tile() by {
                if i < cx {
                    assert(map@[i] == prev[i]);
                    assert(tile_at(prev, i, j) == crate::game::wall_tile());
                } else {
                    assert(map@[i] == col);
                }
            }
        }
        cx = cx + 1;
    }

    objects.truncate(1);
    let ghost player0 = old(objects)@[0];

    let mut rooms: Vec<Room> = Vec::new();
    let mut corridors: Vec<Room> = Vec::new();
    proof {
        assert(walls_or_floor(map@));
        assert forall|x: int, y: int| in_grid(map@, x, y) implies ((#[trigger] tile_at(
            map@,
            x,
            y,
        )) == empty_tile() <==> covered(rooms@, x, y) || covered(corridors@, x, y)) by {
            assert(tile_at(map@, x, y) == crate::game::wall_tile());
        }
    }
    let mut attempt: i32 = 0;
    while attempt < game_settings.max_rooms
        invariant
            game_settings.wf(),
            mw == game_settings.map_w,
            mh == game_settings.map_h,
            0 <= attempt <= game_settings.max_rooms,
            grid_wf(map@, game_settings.map_w as int, game_settings.map_h as int),
            rooms_disjoint(rooms@),
            rooms@.len() <= attempt,
            tables.monsters@.len() < 0x100000000,
            tables.items@.len() < 0x100000000,
            forall|i: int|
                0 <= i < rooms@.len() ==> room_wf(
                    #[trigger] rooms@[i],
                    game_settings.map_w as int,
                    game_settings.map_h as int,
                ),
            forall|i: int, x: int, y: int|
                0 <= i < rooms@.len() && #[trigger] inside_room(rooms@[i], x, y) ==> tile_at(
                    map@,
                    x,
                    y,
                ) == empty_tile(),
            walls_or_floor(map@),
            carved_exactly(map@, rooms@, corridors@),
            rooms@.len() == 0 ==> corridors@.len() == 0,
            objects@.len() >= 1,
            rooms@.len() == 0 ==> objects@ == seq![player0],
            rooms@.len() > 0 ==> moved_to(player0, rooms@[0].spec_center(), objects@[0]),
            forall|j: int|
                1 <= j < objects@.len() ==> spawn_of_tables(
                    #[trigger] objects@[j],
                    rooms@,
                    tables.monsters@,
                    tables.items@,
                    level,
                ),
            forall|i: int|
                0 <= i < rooms@.len() ==> connected(
                    map@,
                    (#[trigger] rooms@[i]).spec_center(),
                    rooms@[0].spec_center(),
                ),
        decreases game_settings.max_rooms - attempt,
    {
        let w = rand_range(
            game_settings.room_min_size as i64,
            game_settings.room_max_size as i64 + 1,
        ) as i32;
        let h = rand_range(
            game_settings.room_min_size as i64,
            game_settings.room_max_size as i64 + 1,
        ) as i32;
        let x = rand_range(0, (mw - w) as i64) as i32;
        let y = rand_range(0, (mh - h) as i64) as i32;

        let new_room = Room::new(x, y, w, h);

        let mut failed = false;
        let mut ri: usize = 0;
        while ri < rooms.len()
            invariant
                0 <= ri <= rooms@.len(),
                !failed ==> forall|m: int|
                    0 <= m < ri ==> !spec_intersects(new_room, #[trigger] rooms@[m]),
                failed ==> true,
            decreases rooms@.len() - ri,
        {
            if new_room.intersects_with(&rooms[ri]) {
                failed = true;
            }
            ri = ri + 1;
        }

        if !failed {
            let ghost m0 = map@;
            create_room(new_room, &mut map);
            let ghost m1 = map@;
            let c = new_room.center();
            let ghost ncc = new_room.spec_center();
            proof {
                assert(new_room.x1 < ncc.0 < new_room.x2 && new_room.y1 < ncc.1 < new_room.y2);
                assert(inside_room(new_room, ncc.0, ncc.1));
                assert(tile_at(m1, ncc.0, ncc.1) == empty_tile());
            }

            if rooms.len() == 0 {
                let mut tmp = DisplayObj::new(0, 0, ' ', "", crate::color::white(), false);
                objects.set_and_swap(0, &mut tmp);
                tmp.set_pos(c.0, c.1);
                objects.set_and_swap(0, &mut tmp);
                proof {
                    assert(in_grid(map@, ncc.0, ncc.1));
                    lemma_connected_refl(map@, ncc);
                    let new_rooms = rooms@.push(new_room);
                    assert forall|x2: int, y2: int| in_grid(map@, x2, y2) implies ((
                    #[trigger] tile_at(map@, x2, y2)) == empty_tile() <==> covered(
                        new_rooms,
                        x2,
                        y2,
                    ) || covered(corridors@, x2, y2)) by {
                        assert(in_grid(m0, x2, y2));
                        assert(tile_at(map@, x2, y2) == (if inside_room(new_room, x2, y2) {
                            empty_tile()
                        } else {
                            tile_at(m0, x2, y2)
                        }));
                        lemma_covered_push(rooms@, new_room, x2, y2);
                    }
                    assert forall|x2: int, y2: int| in_grid(map@, x2, y2) implies ((
                    #[trigger] tile_at(map@, x2, y2)) == crate::game::wall_tile() || tile_at(
                        map@,
                        x2,
                        y2,
                    ) == empty_tile()) by {
                        assert(in_grid(m0, x2, y2));
                        assert(tile_at(map@, x2, y2) == (if inside_room(new_room, x2, y2) {
                            empty_tile()
                        } else {
                            tile_at(m0, x2, y2)
                        }));
                    }
                }
            } else {
                let ghost pre_spawn = objects@;
                place_objects(new_room, &map, level, tables, objects);
                proof {
                    assert(forall|j: int|
                        0 <= j < pre_spawn.len() ==> objects@[j] == objects@.take(
                            pre_spawn.len() as int,
                        )[j]);
                }
                let prev = rooms[rooms.len() - 1];
                let pc = prev.center();
                let ghost pcc = prev.spec_center();
                proof {
                    assert(prev.x1 < pcc.0 < prev.x2 && prev.y1 < pcc.1 < prev.y2);
                }
                if rand_bool() {
                    create_h_tunnel(pc.0, c.0, pc.1, &mut map);
                    let ghost m2 = map@;
                    create_v_tunnel(pc.1, c.1, c.0, &mut map);
                    let hx_lo = if pc.0 < c.0 {
                        pc.0
                    } else {
                        c.0
                    };
                    let hx_hi = if pc.0 < c.0 {
                        c.0
                    } else {
                        pc.0
                    };
                    let vy_lo = if pc.1 < c.1 {
                        pc.1
                    } else {
                        c.1
                    };
                    let vy_hi = if pc.1 < c.1 {
                        c.1
                    } else {
                        pc.1
                    };
                    let hc = Room { x1: hx_lo - 1, y1: pc.1 - 1, x2: hx_hi + 1, y2: pc.1 + 1 };
                    let vc = Room { x1: c.0 - 1, y1: vy_lo - 1, x2: c.0 + 1, y2: vy_hi + 1 };
                    let ghost corr0 = corridors@;
                    corridors.push(hc);
                    corridors.push(vc);
                    proof {
                        let new_rooms = rooms@.push(new_room);
                        assert forall|x2: int, y2: int| in_grid(map@, x2, y2) implies ((
                        #[trigger] tile_at(map@, x2, y2)) == empty_tile() <==> covered(
                            new_rooms,
                            x2,
                            y2,
                        ) || covered(corridors@, x2, y2)) by {
                            assert(in_grid(m0, x2, y2));
                            assert(tile_at(m1, x2, y2) == (if inside_room(new_room, x2, y2) {
                                empty_tile()
                            } else {
                                tile_at(m0, x2, y2)
                            }));
                            assert(tile_at(m2, x2, y2) == (if y2 == pc.1 && min_i32(pc.0, c.0)
                                <= x2 <= max_i32(pc.0, c.0) {
                                empty_tile()
                            } else {
                                tile_at(m1, x2, y2)
                            }));
                            assert(tile_at(map@, x2, y2) == (if x2 == c.0 && min_i32(pc.1, c.1)
                                <= y2 <= max_i32(pc.1, c.1) {
                                empty_tile()
                            } else {
                                tile_at(m2, x2, y2)
                            }));
                            assert(inside_room(hc, x2, y2) <==> (y2 == pc.1 && min_i32(pc.0, c.0)
                                <= x2 <= max_i32(pc.0, c.0)));
                            assert(inside_room(vc, x2, y2) <==> (x2 == c.0 && min_i32(pc.1, c.1)
                                <= y2 <= max_i32(pc.1, c.1)));
                            lemma_covered_push(rooms@, new_room, x2, y2);
                            lemma_covered_push(corr0, hc, x2, y2);
                            lemma_covered_push(corr0.push(hc), vc, x2, y2);
                        }
                        assert forall|x2: int, y2: int| in_grid(map@, x2, y2) implies ((
                        #[trigger] tile_at(map@, x2, y2)) == crate::game::wall_tile() || tile_at(
                            map@,
                            x2,
                            y2,
                        ) == empty_tile()) by {
                            assert(in_grid(m0, x2, y2));
                            if tile_at(map@, x2, y2) != empty_tile() {
                                assert(tile_at(map@, x2, y2) == tile_at(m2, x2, y2));
                                assert(tile_at(m2, x2, y2) == tile_at(m1, x2, y2));
                                assert(tile_at(m1, x2, y2) == tile_at(m0, x2, y2));
                            }
                        }
                    }
                    proof {
                        assert(grid_wf(map@, mw as int, mh as int));
                        assert forall|i2: int|
                            min2(ncc.0, pcc.0) <= i2 <= max2(ncc.0, pcc.0) implies #[trigger] in_grid(
                            map@,
                            i2,
                            pcc.1,
                        ) by {}
                        assert forall|i2: int|
                            min2(ncc.0, pcc.0) <= i2 <= max2(ncc.0, pcc.0) implies !(
                        #[trigger] tile_at(map@, i2, pcc.1)).blocked by {
                            assert(tile_at(m2, i2, pcc.1) == empty_tile());
                        }
                        lemma_h_segment(map@, ncc.0, pcc.0, pcc.1);
                        assert forall|j2: int|
                            min2(ncc.1, pcc.1) <= j2 <= max2(ncc.1, pcc.1) implies #[trigger] in_grid(
                            map@,
                            ncc.0,
                            j2,
                        ) by {}
                        assert forall|j2: int|
                            min2(ncc.1, pcc.1) <= j2 <= max2(ncc.1, pcc.1) implies !(
                        #[trigger] tile_at(map@, ncc.0, j2)).blocked by {
                            assert(tile_at(map@, ncc.0, j2) == empty_tile());
                        }
                        lemma_v_segment(map@, ncc.1, pcc.1, ncc.0);
                        lemma_connected_trans(map@, ncc, (ncc.0, pcc.1), pcc);
                    }
                } else {
                    create_v_tunnel(pc.1, c.1, pc.0, &mut map);
                    let ghost m2 = map@;
                    create_h_tunnel(pc.0, c.0, c.1, &mut map);
                    let hx_lo = if pc.0 < c.0 {
                        pc.0
                    } else {
                        c.0
                    };
                    let hx_hi = if pc.0 < c.0 {
                        c.0
                    } else {
                        pc.0
                    };
                    let vy_lo = if pc.1 < c.1 {
                        pc.1
                    } else {
                        c.1
                    };
                    let vy_hi = if pc.1 < c.1 {
                        c.1
                    } else {
                        pc.1
                    };
                    let vc = Room { x1: pc.0 - 1, y1: vy_lo - 1, x2: pc.0 + 1, y2: vy_hi + 1 };
                    let hc = Room { x1: hx_lo - 1, y1: c.1 - 1, x2: hx_hi + 1, y2: c.1 + 1 };
                    let ghost corr0 = corridors@;
                    corridors.push(vc);
                    corridors.push(hc);
                    proof {
                        let new_rooms = rooms@.push(new_room);
                        assert forall|x2: int, y2: int| in_grid(map@, x2, y2) implies ((
                        #[trigger] tile_at(map@, x2, y2)) == empty_tile() <==> covered(
                            new_rooms,
                            x2,
                            y2,
                        ) || covered(corridors@, x2, y2)) by {
                            assert(in_grid(m0, x2, y2));
                            assert(tile_at(m1, x2, y2) == (if inside_room(new_room, x2, y2) {
                                empty_tile()
                            } else {
                                tile_at(m0, x2, y2)
                            }));
                            assert(tile_at(m2, x2, y2) == (if x2 == pc.0 && min_i32(pc.1, c.1)
                                <= y2 <= max_i32(pc.1, c.1) {
                                empty_tile()
                            } else {
                                tile_at(m1, x2, y2)
                            }));
                            assert(tile_at(map@, x2, y2) == (if y2 == c.1 && min_i32(pc.0, c.0)
                                <= x2 <= max_i32(pc.0, c.0) {
                                empty_tile()
                            } else {
                                tile_at(m2, x2, y2)
                            }));
                            assert(inside_room(vc, x2, y2) <==> (x2 == pc.0 && min_i32(pc.1, c.1)
                                <= y2 <= max_i32(pc.1, c.1)));
                            assert(inside_room(hc, x2, y2) <==> (y2 == c.1 && min_i32(pc.0, c.0)
                                <= x2 <= max_i32(pc.0, c.0)));
                            lemma_covered_push(rooms@, new_room, x2, y2);
                            lemma_covered_push(corr0, vc, x2, y2);
                            lemma_covered_push(corr0.push(vc), hc, x2, y2);
                        }
                        assert forall|x2: int, y2: int| in_grid(map@, x2, y2) implies ((
                        #[trigger] tile_at(map@, x2, y2)) == crate::game::wall_tile() || tile_at(
                            map@,
                            x2,
                            y2,
                        ) == empty_tile()) by {
                            assert(in_grid(m0, x2, y2));
                            if tile_at(map@, x2, y2) != empty_tile() {
                                assert(tile_at(map@, x2, y2) == tile_at(m2, x2, y2));
                                assert(tile_at(m2, x2, y2) == tile_at(m1, x2, y2));
                                assert(tile_at(m1, x2, y2) == tile_at(m0, x2, y2));
                            }
                        }
                    }
                    proof {
                        assert(grid_wf(map@, mw as int, mh as int));
                        assert forall|i2: int|
                            min2(ncc.0, pcc.0) <= i2 <= max2(ncc.0, pcc.0) implies #[trigger] in_grid(
                            map@,
                            i2,
                            ncc.1,
                        ) by {}
                        assert forall|i2: int|
                            min2(ncc.0, pcc.0) <= i2 <= max2(ncc.0, pcc.0) implies !(
                        #[trigger] tile_at(map@, i2, ncc.1)).blocked by {
                            assert(tile_at(map@, i2, ncc.1) == empty_tile());
                        }
                        lemma_h_segment(map@, ncc.0, pcc.0, ncc.1);
                        assert forall|j2: int|
                            min2(ncc.1, pcc.1) <= j2 <= max2(ncc.1, pcc.1) implies #[trigger] in_grid(
                            map@,
                            pcc.0,
                            j2,
                        ) by {}
                        assert forall|j2: int|
                            min2(ncc.1, pcc.1) <= j2 <= max2(ncc.1, pcc.1) implies !(
                        #[trigger] tile_at(map@, pcc.0, j2)).blocked by {
                            assert(tile_at(m2, pcc.0, j2) == empty_tile());
                        }
                        lemma_v_segment(map@, ncc.1, pcc.1, pcc.0);
                        lemma_connected_trans(map@, ncc, (pcc.0, ncc.1), pcc);
                    }
                }
                proof {
                    // everything open before the carving stays open
                    assert forall|i2: int, j2: int|
                        in_grid(m0, i2, j2) && !tile_at(m0, i2, j2).blocked implies !(
                    #[trigger] tile_at(map@, i2, j2)).blocked by {
                        assert(!tile_at(m1, i2, j2).blocked);
                    }
                    assert forall|i2: int|
                        0 <= i2 < rooms@.len() implies connected(
                        map@,
                        (#[trigger] rooms@[i2]).spec_center(),
                        rooms@[0].spec_center(),
                    ) by {
                        lemma_connected_monotone(
                            m0,
                            map@,
                            rooms@[i2].spec_center(),
                            rooms@[0].spec_center(),
                        );
                    }
                    lemma_connected_trans(map@, ncc, pcc, rooms@[0].spec_center());
                }
            }
            proof {
                assert(forall|m: int|
                    0 <= m < rooms@.len() ==> !spec_intersects(#[trigger] rooms@[m], new_room));
                let new_rooms = rooms@.push(new_room);
                assert forall|j: int| 1 <= j < objects@.len() implies spawn_of_tables(
                    #[trigger] objects@[j],
                    new_rooms,
                    tables.monsters@,
                    tables.items@,
                    level,
                ) by {
                    if spawn_of_tables(
                        objects@[j],
                        rooms@,
                        tables.monsters@,
                        tables.items@,
                        level,
                    ) {
                        let ri = choose|ri: int|
                            1 <= ri < rooms@.len() && (spawned_in_room(
                                objects@[j],
                                #[trigger] rooms@[ri],
                                tables.monsters@,
                                level,
                            ) || spawned_in_room(objects@[j], rooms@[ri], tables.items@, level));
                        assert(new_rooms[ri] == rooms@[ri]);
                    } else {
                        assert(rooms@.len() >= 1);
                        assert(new_rooms[rooms@.len() as int] == new_room);
                        assert(spawned_in_room(
                            objects@[j],
                            new_room,
                            tables.monsters@,
                            level,
                        ) || spawned_in_room(objects@[j], new_room, tables.items@, level));
                    }
                }
            }
            let ghost old_rooms = rooms@;
            rooms.push(new_room);
            proof {
                assert forall|i2: int|
                    0 <= i2 < rooms@.len() implies connected(
                    map@,
                    (#[trigger] rooms@[i2]).spec_center(),
                    rooms@[0].spec_center(),
                ) by {
                    if old_rooms.len() == 0 {
                        assert(rooms@[i2] == new_room && rooms@[0] == new_room);
                    } else {
                        assert(rooms@[0] == old_rooms[0]);
                        if i2 < old_rooms.len() {
                            assert(rooms@[i2] == old_rooms[i2]);
                        } else {
                            assert(rooms@[i2] == new_room);
                        }
                    }
                }
            }
        }
        attempt = attempt + 1;
    }

    if rooms.len() > 0 {
        let last = rooms[rooms.len() - 1];
        let sc = last.center();
        let mut stairs = DisplayObj::new(sc.0, sc.1, '<', "stairs", crate::color::white(), false);
        stairs.always_visible = true;
        objects.push(stairs);
    }
    proof {
        assert forall|i: int, x: int, y: int|
            0 <= i < rooms@.len() && #[trigger] inside_room(rooms@[i], x, y) implies connected(
            map@,
            (x, y),
            rooms@[0].spec_center(),
        ) by {
            let room = rooms@[i];
            assert forall|i3: int, j3: int| #[trigger] inside_room(room, i3, j3) implies in_grid(
                map@,
                i3,
                j3,
            ) && !tile_at(map@, i3, j3).blocked by {
                assert(tile_at(map@, i3, j3) == empty_tile());
            }
            lemma_room_interior_connected(map@, room, x, y);
            lemma_connected_trans(map@, (x, y), room.spec_center(), rooms@[0].spec_center());
        }
    }
    (map, rooms, corridors)
}


/// Two cells share an edge.
pub open spec fn adjacent(a: (int, int), b: (int, int)) -> bool {
    ||| (a.0 == b.0 && (a.1 == b.1 + 1 || a.1 + 1 == b.1))
    ||| (a.1 == b.1 && (a.0 == b.0 + 1 || a.0 + 1 == b.0))
}

/// A walkable path: every cell on the grid and unblocked, consecutive
/// cells adjacent.
pub open spec fn path_ok(map: Seq<Vec<Tile>>, path: Seq<(int, int)>) -> bool {
    &&& path.len() >= 1
    &&& forall|k: int|
        0 <= k < path.len() ==> in_grid(map, (#[trigger] path[k]).0, path[k].1) && !tile_at(
            map,
            path[k].0,
            path[k].1,
        ).blocked
    &&& forall|k: int| 0 <= k < path.len() - 1 ==> adjacent(#[trigger] path[k], path[k + 1])
}

/// A walkable path leads from `a` to `b`.
pub open spec fn connected(map: Seq<Vec<Tile>>, a: (int, int), b: (int, int)) -> bool {
    exists|path: Seq<(int, int)>| #[trigger] path_ok(map, path) && path.first() == a && path.last() == b
}

/// An unblocked cell is connected to itself.
pub proof fn lemma_connected_refl(map: Seq<Vec<Tile>>, a: (int, int))
    requires
        in_grid(map, a.0, a.1),
        !tile_at(map, a.0, a.1).blocked,
    ensures
        connected(map, a, a),
{
    let path = seq![a];
    assert(path_ok(map, path));
    assert(path.first() == a && path.last() == a);
}

/// Carving can only open cells: a path stays walkable on the carved map.
pub proof fn lemma_connected_monotone(
    m1: Seq<Vec<Tile>>,
    m2: Seq<Vec<Tile>>,
    a: (int, int),
    b: (int, int),
)
    requires
        connected(m1, a, b),
        same_dims(m1, m2),
        forall|i: int, j: int|
            in_grid(m1, i, j) && !tile_at(m1, i, j).blocked ==> !(#[trigger] tile_at(
                m2,
                i,
                j,
            )).blocked,
    ensures
        connected(m2, a, b),
{
    let path = choose|path: Seq<(int, int)>|
        #[trigger] path_ok(m1, path) && path.first() == a && path.last() == b;
    assert(path_ok(m2, path));
}

/// Chain two walkable paths.
pub proof fn lemma_connected_trans(
    map: Seq<Vec<Tile>>,
    a: (int, int),
    b: (int, int),
    c: (int, int),
)
    requires
        connected(map, a, b),
        connected(map, b, c),
    ensures
        connected(map, a, c),
{
    let p1 = choose|path: Seq<(int, int)>|
        #[trigger] path_ok(map, path) && path.first() == a && path.last() == b;
    let p2 = choose|path: Seq<(int, int)>|
        #[trigger] path_ok(map, path) && path.first() == b && path.last() == c;
    let p = p1 + p2.subrange(1, p2.len() as int);
    assert forall|k: int| 0 <= k < p.len() implies in_grid(map, (#[trigger] p[k]).0, p[k].1)
        && !tile_at(map, p[k].0, p[k].1).blocked by {
        if k < p1.len() {
            assert(p[k] == p1[k]);
        } else {
            assert(p[k] == p2[k - p1.len() + 1]);
        }
    }
    assert forall|k: int| 0 <= k < p.len() - 1 implies adjacent(#[trigger] p[k], p[k + 1]) by {
        if k + 1 < p1.len() {
            assert(p[k] == p1[k] && p[k + 1] == p1[k + 1]);
        } else if k + 1 == p1.len() {
            if p2.len() == 1 {
                assert(k == p.len() - 1);
            } else {
                assert(p[k] == p1[k] && p1[k] == b && b == p2[0]);
                assert(p[k + 1] == p2[1]);
                assert(adjacent(p2[0], p2[1]));
            }
        } else {
            assert(p[k] == p2[k - p1.len() + 1] && p[k + 1] == p2[k - p1.len() + 2]);
        }
    }
    assert(path_ok(map, p));
    assert(p.first() == a);
    assert(p.last() == c);
}

/// A straight horizontal run of unblocked cells is a path.
pub proof fn lemma_h_segment(map: Seq<Vec<Tile>>, x1: int, x2: int, y: int)
    requires
        forall|i: int| min2(x1, x2) <= i <= max2(x1, x2) ==> #[trigger] in_grid(map, i, y),
        forall|i: int|
            min2(x1, x2) <= i <= max2(x1, x2) ==> !(#[trigger] tile_at(map, i, y)).blocked,
    ensures
        connected(map, (x1, y), (x2, y)),
{
    let n = max2(x1, x2) - min2(x1, x2) + 1;
    let step: int = if x1 <= x2 {
        1
    } else {
        -1
    };
    let path = Seq::new(n as nat, |k: int| (x1 + step * k, y));
    assert forall|k: int| 0 <= k < path.len() implies in_grid(map, (#[trigger] path[k]).0, path[k].1)
        && !tile_at(map, path[k].0, path[k].1).blocked by {
        let xi = x1 + step * k;
        assert(path[k] == (xi, y));
        assert(min2(x1, x2) <= x1 + step * k <= max2(x1, x2)) by (nonlinear_arith)
            requires
                (step == 1 && x1 <= x2) || (step == -1 && x2 < x1),
                0 <= k < n,
                n == max2(x1, x2) - min2(x1, x2) + 1,
                min2(x1, x2) == (if x1 <= x2 { x1 } else { x2 }),
                max2(x1, x2) == (if x1 <= x2 { x2 } else { x1 }),
        ;
        assert(min2(x1, x2) <= xi <= max2(x1, x2));
        assert(!tile_at(map, xi, y).blocked);
        assert(in_grid(map, xi, y));
    }
    assert(path.first() == (x1, y));
    assert(path.last() == (x1 + step * (n - 1), y));
    assert(step * (n - 1) == x2 - x1) by (nonlinear_arith)
        requires
            (step == 1 && x1 <= x2 && n == x2 - x1 + 1) || (step == -1 && x2 < x1 && n == x1 - x2
                + 1),
    ;
    assert(path_ok(map, path));
}

/// A straight vertical run of unblocked cells is a path.
pub proof fn lemma_v_segment(map: Seq<Vec<Tile>>, y1: int, y2: int, x: int)
    requires
        forall|j: int| min2(y1, y2) <= j <= max2(y1, y2) ==> #[trigger] in_grid(map, x, j),
        forall|j: int|
            min2(y1, y2) <= j <= max2(y1, y2) ==> !(#[trigger] tile_at(map, x, j)).blocked,
    ensures
        connected(map, (x, y1), (x, y2)),
{
    let n = max2(y1, y2) - min2(y1, y2) + 1;
    let step: int = if y1 <= y2 {
        1
    } else {
        -1
    };
    let path = Seq::new(n as nat, |k: int| (x, y1 + step * k));
    assert forall|k: int| 0 <= k < path.len() implies in_grid(map, (#[trigger] path[k]).0, path[k].1)
        && !tile_at(map, path[k].0, path[k].1).blocked by {
        let yj = y1 + step * k;
        assert(path[k] == (x, yj));
        assert(min2(y1, y2) <= y1 + step * k <= max2(y1, y2)) by (nonlinear_arith)
            requires
                (step == 1 && y1 <= y2) || (step == -1 && y2 < y1),
                0 <= k < n,
                n == max2(y1, y2) - min2(y1, y2) + 1,
                min2(y1, y2) == (if y1 <= y2 { y1 } else { y2 }),
                max2(y1, y2) == (if y1 <= y2 { y2 } else { y1 }),
        ;
        assert(min2(y1, y2) <= yj <= max2(y1, y2));
        assert(!tile_at(map, x, yj).blocked);
        assert(in_grid(map, x, yj));
    }
    assert(path.first() == (x, y1));
    assert(path.last() == (x, y1 + step * (n - 1)));
    assert(step * (n - 1) == y2 - y1) by (nonlinear_arith)
        requires
            (step == 1 && y1 <= y2 && n == y2 - y1 + 1) || (step == -1 && y2 < y1 && n == y1 - y2
                + 1),
    ;
    assert(path_ok(map, path));
}

pub open spec fn min2(a: int, b: int) -> int {
    if a <= b {
        a
    } else {
        b
    }
}

pub open spec fn max2(a: int, b: int) -> int {
    if a <= b {
        b
    } else {
        a
    }
}

/// Inside a fully carved room, every interior cell reaches the room's
/// center: one vertical run to the center row, one horizontal run along
/// it.
pub proof fn lemma_room_interior_connected(map: Seq<Vec<Tile>>, room: Room, x: int, y: int)
    requires
        inside_room(room, x, y),
        room.x1 + 1 < room.x2,
        room.y1 + 1 < room.y2,
        0 <= room.x1,
        0 <= room.y1,
        forall|i: int, j: int|
            #[trigger] inside_room(room, i, j) ==> in_grid(map, i, j) && !tile_at(
                map,
                i,
                j,
            ).blocked,
    ensures
        connected(map, (x, y), room.spec_center()),
{
    let c = room.spec_center();
    assert(room.x1 < c.0 < room.x2 && room.y1 < c.1 < room.y2);
    assert forall|j: int| min2(y, c.1) <= j <= max2(y, c.1) implies #[trigger] in_grid(
        map,
        x,
        j,
    ) by {
        assert(inside_room(room, x, j));
    }
    assert forall|j: int| min2(y, c.1) <= j <= max2(y, c.1) implies !(#[trigger] tile_at(
        map,
        x,
        j,
    )).blocked by {
        assert(inside_room(room, x, j));
    }
    lemma_v_segment(map, y, c.1, x);
    assert forall|i: int| min2(x, c.0) <= i <= max2(x, c.0) implies #[trigger] in_grid(
        map,
        i,
        c.1,
    ) by {
        assert(inside_room(room, i, c.1));
    }
    assert forall|i: int| min2(x, c.0) <= i <= max2(x, c.0) implies !(#[trigger] tile_at(
        map,
        i,
        c.1,
    )).blocked by {
        assert(inside_room(room, i, c.1));
    }
    lemma_h_segment(map, x, c.0, c.1);
    lemma_connected_trans(map, (x, y), (x, c.1), (c.0, c.1));
}

} // verus!
