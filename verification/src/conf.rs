//! Spawn configuration: level-gated transition tables and object
//! templates, treated as plain data threaded through the generator.

use vstd::prelude::*;

use crate::color::Color;
use crate::objects::Ai;
use crate::objects::DisplayObj;
use crate::objects::Equipment;
use crate::objects::Fighter;
use crate::objects::Item;

verus! {

/// From this dungeon level on, the table yields this value.
#[derive(Clone, Copy, Debug, PartialEq, Eq, Structural)]
pub struct Transition {
    pub level: u32,
    pub value: u32,
}

/// The value of the last table entry whose level is at most `level`,
/// defaulting to 0.  Entries are scanned from the back, so of several
/// applicable entries the one latest in the table wins.
pub open spec fn transition_lookup(table: Seq<Transition>, level: u32) -> u32
    decreases table.len(),
{
    if table.len() == 0 {
        0
    } else if table.last().level <= level {
        table.last().value
    } else {
        transition_lookup(table.drop_last(), level)
    }
}

/// Returns a value that depends on the dungeon level: the last table
/// entry at or below `level` decides, with 0 when no entry applies.
pub fn from_dungeon_level(table: &Vec<Transition>, level: u32) -> (v: u32)
    ensures
        v == transition_lookup(table@, level),
{
    let mut i: usize = table.len();
    proof {
        assert(table@.take(i as int) =~= table@);
    }
    while i > 0
        invariant
            0 <= i <= table@.len(),
            transition_lookup(table@, level) == transition_lookup(table@.take(i as int), level),
        decreases i,
    {
        i = i - 1;
        let t = table[i];
        proof {
            assert(table@.take(i as int + 1).drop_last() =~= table@.take(i as int));
            assert(table@.take(i as int + 1).last() == table@[i as int]);
        }
        if level >= t.level {
            return t.value;
        }
    }
    proof {
        assert(table@.take(0) =~= Seq::<Transition>::empty());
    }
    0
}

/// A spawnable object template: display data, a spawn-weight table, and
/// the facets the spawned entity starts with.
#[derive(Clone, Debug)]
pub struct ObjectConfiguration {
    pub name: String,
    pub glyph: char,
    pub color: Color,
    pub transition_table: Vec<Transition>,
    pub fighter: Option<Fighter>,
    pub ai: Option<Ai>,
    pub item: Option<Item>,
    pub equipment: Option<Equipment>,
}

impl ObjectConfiguration {
    pub fn new(
        name: String,
        glyph: char,
        color: Color,
        tables: Vec<Transition>,
        fighter: Option<Fighter>,
        ai: Option<Ai>,
        item: Option<Item>,
        equipment: Option<Equipment>,
    ) -> (c: ObjectConfiguration)
        ensures
            c.name@ == name@,
            c.glyph == glyph,
            c.color == color,
            c.transition_table@ == tables@,
            c.fighter == fighter,
            c.ai == ai,
            c.item == item,
            c.equipment == equipment,
    {
        ObjectConfiguration {
            name,
            glyph,
            color,
            transition_table: tables,
            fighter,
            ai,
            item,
            equipment,
        }
    }

    /// Whether an entity built from this template matches it: a combat
    /// template yields a live fighter, an item template a pickable item.
    pub open spec fn spawned_from(&self, o: DisplayObj, x: i32, y: i32) -> bool {
        &&& o.x == x
        &&& o.y == y
        &&& o.glyph == self.glyph
        &&& o.color == self.color
        &&& o.name@ == self.name@
        &&& o.level == 1
        &&& if self.fighter is Some {
            &&& o.fighter == self.fighter
            &&& o.ai == self.ai
            &&& o.alive == true
            &&& o.blocks == true
            &&& o.always_visible == false
            &&& o.item is None
            &&& o.equipment is None
        } else if self.item is Some {
            &&& o.item == self.item
            &&& o.equipment == self.equipment
            &&& o.always_visible == true
            &&& o.blocks == false
            &&& o.alive == false
            &&& o.fighter is None
            &&& o.ai is None
        } else {
            &&& o.blocks == true
            &&& o.alive == false
            &&& o.always_visible == false
            &&& o.fighter is None
            &&& o.ai is None
            &&& o.item is None
            &&& o.equipment is None
        }
    }

    /// Instantiate an entity from this template at the given position.
    pub fn as_object(&self, x: i32, y: i32) -> (o: DisplayObj)
        ensures
            self.spawned_from(o, x, y),
    {
        let mut object = DisplayObj::new(x, y, self.glyph, self.name.as_str(), self.color, true);
        if self.fighter.is_some() {
            object.fighter = self.fighter;
            object.ai = match &self.ai {
                Some(a) => Some(a.clone()),
                None => None,
            };
            object.alive = true;
        } else if self.item.is_some() {
            object.item = self.item;
            object.equipment = self.equipment;
            object.always_visible = true;
            object.blocks = false;
        }
        object
    }
}

/// The two global caps plus the monster and item template catalogs.
#[derive(Clone, Debug)]
pub struct TransitionTables {
    pub max_monsters: Vec<Transition>,
    pub max_items: Vec<Transition>,
    pub monsters: Vec<ObjectConfiguration>,
    pub items: Vec<ObjectConfiguration>,
}

impl TransitionTables {
    pub fn new(max_monsters: Vec<Transition>, max_items: Vec<Transition>) -> (t: TransitionTables)
        ensures
            t.max_monsters@ == max_monsters@,
            t.max_items@ == max_items@,
            t.monsters@ == Seq::<ObjectConfiguration>::empty(),
            t.items@ == Seq::<ObjectConfiguration>::empty(),
    {
        let t = TransitionTables {
            max_monsters,
            max_items,
            monsters: Vec::new(),
            items: Vec::new(),
        };
        proof {
            assert(t.monsters@ =~= Seq::<ObjectConfiguration>::empty());
            assert(t.items@ =~= Seq::<ObjectConfiguration>::empty());
        }
        t
    }
}

} // verus!
