//! Map tiles, game settings, the message log and the overall game state.

use vstd::prelude::*;

use crate::color::Color;
use crate::objects::DisplayObj;

verus! {

/// Fixed rule constants.
pub const MAX_INV_SPACE: usize = 26;

pub const HEAL_AMOUNT: i32 = 12;

pub const LIGHTNING_DAMAGE: i32 = 40;

pub const LIGHTNING_RANGE: i32 = 5;

pub const CONFUSE_RANGE: i32 = 8;

pub const CONFUSE_NUM_TURNS: i32 = 10;

pub const FIREBALL_DAMAGE: i32 = 24;

pub const FIREBALL_RADIUS: i32 = 3;

pub const LEVEL_UP_BASE: u32 = 50;

pub const LEVEL_UP_FACTOR: u32 = 150;

/// One map cell.  `blocked` stops movement, `block_sight` stops vision,
/// `explored` is set once the player has seen the tile.
#[derive(Clone, Copy, Debug, PartialEq, Eq, Structural)]
pub struct Tile {
    pub blocked: bool,
    pub block_sight: bool,
    pub explored: bool,
}

/// The tile a carved floor cell starts as.
pub open spec fn empty_tile() -> Tile {
    Tile { blocked: false, block_sight: false, explored: false }
}

/// The tile an uncarved cell starts as.
pub open spec fn wall_tile() -> Tile {
    Tile { blocked: true, block_sight: true, explored: false }
}

impl Tile {
    pub fn empty() -> (t: Tile)
        ensures
            t == empty_tile(),
    {
        Tile { blocked: false, block_sight: false, explored: false }
    }

    pub fn wall() -> (t: Tile)
        ensures
            t == wall_tile(),
    {
        Tile { blocked: true, block_sight: true, explored: false }
    }
}

/// The dungeon map: a column-major grid of tiles.
pub type TileGrid = Vec<Vec<Tile>>;

/// A grid has the dimensions the settings promise: `w` columns of `h` tiles.
pub open spec fn grid_wf(map: Seq<Vec<Tile>>, w: int, h: int) -> bool {
    &&& map.len() == w
    &&& forall|i: int| 0 <= i < w ==> (#[trigger] map[i])@.len() == h
}

/// Display and generation parameters.  Colors and screen layout are only
/// carried for the presentation layer; the generator reads the map
/// dimensions and the room limits.
#[derive(Clone, Copy, Debug, PartialEq, Eq, Structural)]
pub struct GameSettings {
    pub screen_w: i32,
    pub screen_h: i32,
    pub map_w: i32,
    pub map_h: i32,
    pub room_max_size: u32,
    pub room_min_size: u32,
    pub max_rooms: i32,
    pub max_room_monsters: i32,
    pub dark_wall_color: Color,
    pub light_wall_color: Color,
    pub dark_ground_color: Color,
    pub light_ground_color: Color,
    pub fps_limit: i32,
    pub fov_light_walls: bool,
    pub torch_radius: i32,
    pub bar_w: i32,
    pub panel_h: i32,
    pub panel_y: i32,
    pub msg_x: i32,
    pub msg_w: i32,
    pub msg_h: i32,
}

impl GameSettings {
    /// The settings the generator relies on: positive dimensions that the
    /// rooms fit into, with sane room size bounds.
    pub open spec fn wf(&self) -> bool {
        &&& 2 <= self.room_min_size
        &&& self.room_min_size <= self.room_max_size
        &&& self.room_max_size + 1 < self.map_w
        &&& self.room_max_size + 1 < self.map_h
        &&& self.map_w <= 10000
        &&& self.map_h <= 10000
        &&& 0 <= self.max_rooms
    }

    pub fn new() -> (s: GameSettings)
        ensures
            s == (GameSettings {
                screen_w: 80i32,
                screen_h: 50i32,
                map_w: 80i32,
                map_h: 43i32,
                room_max_size: 10u32,
                room_min_size: 6u32,
                max_rooms: 20i32,
                max_room_monsters: 6i32,
                dark_wall_color: Color { r: 35u8, g: 35u8, b: 35u8 },
                light_wall_color: Color { r: 55u8, g: 55u8, b: 55u8 },
                dark_ground_color: Color { r: 85u8, g: 75u8, b: 55u8 },
                light_ground_color: Color { r: 100u8, g: 90u8, b: 70u8 },
                fps_limit: 20i32,
                fov_light_walls: true,
                torch_radius: 10i32,
                bar_w: 20i32,
                panel_h: 7i32,
                panel_y: 43i32,
                msg_x: 22i32,
                msg_w: 58i32,
                msg_h: 6i32,
            }),
            s.wf(),
    {
        GameSettings {
            screen_w: 80,
            screen_h: 50,
            map_w: 80,
            map_h: 43,
            room_max_size: 10,
            room_min_size: 6,
            max_rooms: 20,
            max_room_monsters: 6,
            dark_wall_color: Color { r: 35, g: 35, b: 35 },
            light_wall_color: Color { r: 55, g: 55, b: 55 },
            dark_ground_color: Color { r: 85, g: 75, b: 55 },
            light_ground_color: Color { r: 100, g: 90, b: 70 },
            fps_limit: 20,
            fov_light_walls: true,
            torch_radius: 10,
            bar_w: 20,
            panel_h: 7,
            panel_y: 43,
            msg_x: 22,
            msg_w: 58,
            msg_h: 6,
        }
    }
}

/// The in-game log: messages with their display color, oldest first.
#[derive(Clone, Debug)]
pub struct Messages {
    messages: Vec<(String, Color)>,
}

impl View for Messages {
    type V = Seq<(Seq<char>, Color)>;

    closed spec fn view(&self) -> Seq<(Seq<char>, Color)> {
        Seq::new(self.messages@.len(), |i: int| (self.messages@[i].0@, self.messages@[i].1))
    }
}

impl Messages {
    pub fn new() -> (m: Messages)
        ensures
            m@ == Seq::<(Seq<char>, Color)>::empty(),
    {
        let m = Messages { messages: Vec::new() };
        proof {
            assert(m@ =~= Seq::<(Seq<char>, Color)>::empty());
        }
        m
    }

    pub fn add(&mut self, message: String, color: Color)
        ensures
            final(self)@ == old(self)@.push((message@, color)),
    {
        let ghost prev = self@;
        self.messages.push((message, color));
        proof {
            assert(self@ =~= prev.push((message@, color)));
        }
    }

    pub fn len(&self) -> (n: usize)
        ensures
            n == self@.len(),
    {
        self.messages.len()
    }

    /// Read one log entry; the presentation layer walks the log with this.
    pub fn get(&self, i: usize) -> (m: &(String, Color))
        requires
            i < self@.len(),
        ensures
            m.0@ == self@[i as int].0,
            m.1 == self@[i as int].1,
    {
        &self.messages[i]
    }
}

/// Full game state apart from the object list, which is owned separately
/// so that the player and monsters can be borrowed independently of it.
#[derive(Clone, Debug)]
pub struct Game {
    pub game_settings: GameSettings,
    pub map: TileGrid,
    pub messages: Messages,
    pub inventory: Vec<DisplayObj>,
    pub dungeon_level: u32,
}

impl Game {
    /// The state invariant: the map matches the settings' dimensions and
    /// the inventory respects its letter-menu capacity.
    pub open spec fn wf(&self) -> bool {
        &&& self.game_settings.wf()
        &&& grid_wf(self.map@, self.game_settings.map_w as int, self.game_settings.map_h as int)
        &&& self.inventory@.len() <= MAX_INV_SPACE
    }
}

} // verus!
