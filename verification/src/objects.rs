//! Game entities: one concrete type with optional combat, AI, item and
//! equipment facets, plus the combat arithmetic on those facets.

use vstd::prelude::*;

use crate::color::Color;
use crate::game::Game;
use crate::game::Messages;
use crate::game::MAX_INV_SPACE;
use crate::text::dec_seq;
use crate::text::u32_string;

verus! {

/// Which routine runs when a fighter's hit points reach zero.
#[derive(Clone, Copy, Debug, PartialEq, Eq, Structural)]
pub enum DeathCallback {
    Player,
    Monster,
}

/// Combat facet: hit points, attack and defense bases, and carried
/// experience.  `hp` may go negative transiently before death processing.
#[derive(Clone, Copy, Debug, PartialEq, Eq, Structural)]
pub struct Fighter {
    pub base_max_hp: i32,
    pub hp: i32,
    pub base_defense: i32,
    pub base_power: i32,
    pub xp: u32,
    pub on_death: DeathCallback,
}

/// Monster behaviour.  A confused monster remembers the behaviour it will
/// return to once the confusion wears off.
#[derive(Debug)]
pub enum Ai {
    Basic,
    Confused { previous_ai: Box<Ai>, num_turns: i32 },
}

impl Clone for Ai {
    fn clone(&self) -> (r: Ai)
        ensures
            r == *self,
        decreases *self,
    {
        match self {
            Ai::Basic => Ai::Basic,
            Ai::Confused { previous_ai, num_turns } => Ai::Confused {
                previous_ai: Box::new((**previous_ai).clone()),
                num_turns: *num_turns,
            },
        }
    }
}

/// What an item does when used.
#[derive(Clone, Copy, Debug, PartialEq, Eq, Structural)]
pub enum Item {
    Heal,
    Lightning,
    Confuse,
    Fireball,
    Sword,
    Shield,
    Helmet,
}

/// Body slot an equipment piece occupies.
#[derive(Clone, Copy, Debug, PartialEq, Eq, Structural)]
pub enum Slot {
    LeftHand,
    RightHand,
    Head,
}

impl Slot {
    /// Human-readable slot name, used in log messages.
    pub fn label(&self) -> (s: String)
        ensures
            s@ == self.spec_label(),
    {
        match self {
            Slot::LeftHand => {
                proof { reveal_strlit("left hand"); }
                "left hand".to_owned()
            },
            Slot::RightHand => {
                proof { reveal_strlit("right hand"); }
                "right hand".to_owned()
            },
            Slot::Head => {
                proof { reveal_strlit("head"); }
                "head".to_owned()
            },
        }
    }

    pub open spec fn spec_label(&self) -> Seq<char> {
        match self {
            Slot::LeftHand => "left hand"@,
            Slot::RightHand => "right hand"@,
            Slot::Head => "head"@,
        }
    }
}

/// Equipment facet: bonuses granted while equipped.
#[derive(Clone, Copy, Debug, PartialEq, Eq, Structural)]
pub struct Equipment {
    pub slot: Slot,
    pub equipped: bool,
    pub max_hp_bonus: i32,
    pub power_bonus: i32,
    pub defense_bonus: i32,
}

/// A game object: player, monster, item or scenery.  Capabilities are
/// optional facets rather than subclasses.
#[derive(Debug)]
pub struct DisplayObj {
    pub x: i32,
    pub y: i32,
    pub glyph: char,
    pub color: Color,
    pub name: String,
    pub blocks: bool,
    pub alive: bool,
    pub always_visible: bool,
    pub fighter: Option<Fighter>,
    pub ai: Option<Ai>,
    pub item: Option<Item>,
    pub level: u32,
    pub equipment: Option<Equipment>,
}

impl DisplayObj {
    pub fn new(x: i32, y: i32, glyph: char, name: &str, color: Color, blocks: bool) -> (o:
        DisplayObj)
        ensures
            o == (DisplayObj {
                x,
                y,
                glyph,
                name: o.name,
                color,
                blocks,
                alive: false,
                always_visible: false,
                fighter: None::<Fighter>,
                ai: None::<Ai>,
                item: None::<Item>,
                level: 1u32,
                equipment: None::<Equipment>,
            }),
            o.name@ == name@,
    {
        DisplayObj {
            x,
            y,
            glyph,
            color,
            name: name.to_owned(),
            blocks,
            alive: false,
            always_visible: false,
            fighter: None,
            ai: None,
            item: None,
            level: 1,
            equipment: None,
        }
    }

    pub fn get_pos(&self) -> (p: (i32, i32))
        ensures
            p == (self.x, self.y),
    {
        (self.x, self.y)
    }

    pub fn set_pos(&mut self, x: i32, y: i32)
        ensures
            *final(self) == (DisplayObj { x, y, ..*old(self) }),
    {
        self.x = x;
        self.y = y;
    }

    /// Square of the Euclidean distance to the point `(x, y)`.
    pub fn distance_sq(&self, x: i32, y: i32) -> (d: i128)
        ensures
            d == spec_dist_sq(self.x as int, self.y as int, x as int, y as int),
    {
        let dx: i128 = x as i128 - self.x as i128;
        let dy: i128 = y as i128 - self.y as i128;
        proof {
            assert(0 <= dx * dx <= 0x10000000000000000 && 0 <= dy * dy
                <= 0x10000000000000000) by (nonlinear_arith)
                requires
                    -0x100000000 <= dx <= 0x100000000,
                    -0x100000000 <= dy <= 0x100000000,
            ;
        }
        dx * dx + dy * dy
    }

    /// Whether this object is the player, who alone draws equipment
    /// bonuses from the inventory.
    pub open spec fn spec_is_player(&self) -> bool {
        self.name@ == "player"@
    }

    pub fn is_player(&self) -> (b: bool)
        ensures
            b == self.spec_is_player(),
    {
        let p: String = "player".to_owned();
        self.name == p
    }

    /// Attack power including equipment bonuses.
    pub fn power(&self, game: &Game) -> (p: i32)
        requires
            game.inventory@.len() <= MAX_INV_SPACE,
        ensures
            p as int == spec_power(*self, game.inventory@),
    {
        let base: i32 = match &self.fighter {
            Some(f) => f.base_power,
            None => 0,
        };
        let bonus: i64 = if self.is_player() {
            power_bonus(&game.inventory)
        } else {
            0
        };
        clamp64_to_i32(base as i64 + bonus)
    }

    /// Defense including equipment bonuses.
    pub fn defense(&self, game: &Game) -> (d: i32)
        requires
            game.inventory@.len() <= MAX_INV_SPACE,
        ensures
            d as int == spec_defense(*self, game.inventory@),
    {
        let base: i32 = match &self.fighter {
            Some(f) => f.base_defense,
            None => 0,
        };
        let bonus: i64 = if self.is_player() {
            defense_bonus(&game.inventory)
        } else {
            0
        };
        clamp64_to_i32(base as i64 + bonus)
    }

    /// Maximum hit points including equipment bonuses.
    pub fn max_hp(&self, game: &Game) -> (m: i32)
        requires
            game.inventory@.len() <= MAX_INV_SPACE,
        ensures
            m as int == spec_max_hp(*self, game.inventory@),
    {
        let base: i32 = match &self.fighter {
            Some(f) => f.base_max_hp,
            None => 0,
        };
        let bonus: i64 = if self.is_player() {
            max_hp_bonus(&game.inventory)
        } else {
            0
        };
        clamp64_to_i32(base as i64 + bonus)
    }

    /// The equipment records of all equipped items; empty for anyone but
    /// the player.
    pub fn get_all_equipped(&self, game: &Game) -> (r: Vec<Equipment>)
        ensures
            self.spec_is_player() ==> r@ == equipped_list(game.inventory@),
            !self.spec_is_player() ==> r@ == Seq::<Equipment>::empty(),
    {
        let mut r: Vec<Equipment> = Vec::new();
        if !self.is_player() {
            return r;
        }
        let inv = &game.inventory;
        let mut i: usize = 0;
        while i < inv.len()
            invariant
                0 <= i <= inv@.len(),
                r@ == equipped_list(inv@.take(i as int)),
            decreases inv@.len() - i,
        {
            let eq = inv[i].equipment;
            proof {
                assert(inv@.take(i as int + 1).drop_last() =~= inv@.take(i as int));
                assert(inv@.take(i as int + 1).last() == inv@[i as int]);
            }
            match eq {
                Some(e) => if e.equipped {
                    r.push(e);
                },
                None => {},
            }
            i = i + 1;
        }
        proof {
            assert(inv@.take(inv@.len() as int) =~= inv@);
        }
        r
    }
}

fn clamp64_to_i32(v: i64) -> (r: i32)
    ensures
        r as int == clamp_i32(v as int),
{
    if v < i32::MIN as i64 {
        i32::MIN
    } else if v > i32::MAX as i64 {
        i32::MAX
    } else {
        v as i32
    }
}

fn power_bonus(inv: &Vec<DisplayObj>) -> (s: i64)
    requires
        inv@.len() <= MAX_INV_SPACE,
    ensures
        s == power_bonus_sum(inv@),
        -0xD00000000 <= s <= 0xD00000000,
{
    let mut s: i64 = 0;
    let mut i: usize = 0;
    while i < inv.len()
        invariant
            0 <= i <= inv@.len(),
            inv@.len() <= MAX_INV_SPACE,
            s == power_bonus_sum(inv@.take(i as int)),
            -(i as int) * 0x80000000 <= s as int <= (i as int) * 0x80000000,
        decreases inv@.len() - i,
    {
        let eq = inv[i].equipment;
        let b: i64 = match eq {
            Some(e) => if e.equipped {
                e.power_bonus as i64
            } else {
                0
            },
            None => 0,
        };
        proof {
            assert(inv@.take(i as int + 1).drop_last() =~= inv@.take(i as int));
            assert(inv@.take(i as int + 1).last() == inv@[i as int]);
        }
        s = s + b;
        i = i + 1;
    }
    proof {
        assert(inv@.take(inv@.len() as int) =~= inv@);
    }
    s
}

fn defense_bonus(inv: &Vec<DisplayObj>) -> (s: i64)
    requires
        inv@.len() <= MAX_INV_SPACE,
    ensures
        s == defense_bonus_sum(inv@),
        -0xD00000000 <= s <= 0xD00000000,
{
    let mut s: i64 = 0;
    let mut i: usize = 0;
    while i < inv.len()
        invariant
            0 <= i <= inv@.len(),
            inv@.len() <= MAX_INV_SPACE,
            s == defense_bonus_sum(inv@.take(i as int)),
            -(i as int) * 0x80000000 <= s as int <= (i as int) * 0x80000000,
        decreases inv@.len() - i,
    {
        let eq = inv[i].equipment;
        let b: i64 = match eq {
            Some(e) => if e.equipped {
                e.defense_bonus as i64
            } else {
                0
            },
            None => 0,
        };
        proof {
            assert(inv@.take(i as int + 1).drop_last() =~= inv@.take(i as int));
            assert(inv@.take(i as int + 1).last() == inv@[i as int]);
        }
        s = s + b;
        i = i + 1;
    }
    proof {
        assert(inv@.take(inv@.len() as int) =~= inv@);
    }
    s
}

fn max_hp_bonus(inv: &Vec<DisplayObj>) -> (s: i64)
    requires
        inv@.len() <= MAX_INV_SPACE,
    ensures
        s == max_hp_bonus_sum(inv@),
        -0xD00000000 <= s <= 0xD00000000,
{
    let mut s: i64 = 0;
    let mut i: usize = 0;
    while i < inv.len()
        invariant
            0 <= i <= inv@.len(),
            inv@.len() <= MAX_INV_SPACE,
            s == max_hp_bonus_sum(inv@.take(i as int)),
            -(i as int) * 0x80000000 <= s as int <= (i as int) * 0x80000000,
        decreases inv@.len() - i,
    {
        let eq = inv[i].equipment;
        let b: i64 = match eq {
            Some(e) => if e.equipped {
                e.max_hp_bonus as i64
            } else {
                0
            },
            None => 0,
        };
        proof {
            assert(inv@.take(i as int + 1).drop_last() =~= inv@.take(i as int));
            assert(inv@.take(i as int + 1).last() == inv@[i as int]);
        }
        s = s + b;
        i = i + 1;
    }
    proof {
        assert(inv@.take(inv@.len() as int) =~= inv@);
    }
    s
}

impl Clone for DisplayObj {
    fn clone(&self) -> (r: DisplayObj)
        ensures
            r == *self,
    {
        DisplayObj {
            x: self.x,
            y: self.y,
            glyph: self.glyph,
            color: self.color,
            name: self.name.clone(),
            blocks: self.blocks,
            alive: self.alive,
            always_visible: self.always_visible,
            fighter: self.fighter,
            ai: match &self.ai {
                Some(a) => Some(a.clone()),
                None => None,
            },
            item: self.item,
            level: self.level,
            equipment: self.equipment,
        }
    }
}

/// Square of the Euclidean distance between two points.
pub open spec fn spec_dist_sq(x1: int, y1: int, x2: int, y2: int) -> int {
    (x2 - x1) * (x2 - x1) + (y2 - y1) * (y2 - y1)
}

/// Clamp a mathematical integer into the `i32` range.
pub open spec fn clamp_i32(v: int) -> int {
    if v < i32::MIN {
        i32::MIN as int
    } else if v > i32::MAX {
        i32::MAX as int
    } else {
        v
    }
}

/// Saturating `u32` addition, used when crediting experience.
pub open spec fn sat_add_u32(a: int, b: int) -> int {
    if a + b > u32::MAX {
        u32::MAX as int
    } else {
        a + b
    }
}

/// Bonus an inventory entry contributes to attack power: only an equipped
/// piece of equipment counts.
pub open spec fn item_power_bonus(o: DisplayObj) -> int {
    match o.equipment {
        Some(e) => if e.equipped {
            e.power_bonus as int
        } else {
            0
        },
        None => 0,
    }
}

pub open spec fn item_defense_bonus(o: DisplayObj) -> int {
    match o.equipment {
        Some(e) => if e.equipped {
            e.defense_bonus as int
        } else {
            0
        },
        None => 0,
    }
}

pub open spec fn item_max_hp_bonus(o: DisplayObj) -> int {
    match o.equipment {
        Some(e) => if e.equipped {
            e.max_hp_bonus as int
        } else {
            0
        },
        None => 0,
    }
}

pub open spec fn power_bonus_sum(inv: Seq<DisplayObj>) -> int
    decreases inv.len(),
{
    if inv.len() == 0 {
        0
    } else {
        power_bonus_sum(inv.drop_last()) + item_power_bonus(inv.last())
    }
}

pub open spec fn defense_bonus_sum(inv: Seq<DisplayObj>) -> int
    decreases inv.len(),
{
    if inv.len() == 0 {
        0
    } else {
        defense_bonus_sum(inv.drop_last()) + item_defense_bonus(inv.last())
    }
}

pub open spec fn max_hp_bonus_sum(inv: Seq<DisplayObj>) -> int
    decreases inv.len(),
{
    if inv.len() == 0 {
        0
    } else {
        max_hp_bonus_sum(inv.drop_last()) + item_max_hp_bonus(inv.last())
    }
}

/// Attack power: fighter base plus, for the player only, the bonuses of
/// equipped inventory items, clamped into the `i32` range.
pub open spec fn spec_power(o: DisplayObj, inv: Seq<DisplayObj>) -> int {
    clamp_i32(
        (match o.fighter {
            Some(f) => f.base_power as int,
            None => 0,
        }) + if o.spec_is_player() {
            power_bonus_sum(inv)
        } else {
            0
        },
    )
}

pub open spec fn spec_defense(o: DisplayObj, inv: Seq<DisplayObj>) -> int {
    clamp_i32(
        (match o.fighter {
            Some(f) => f.base_defense as int,
            None => 0,
        }) + if o.spec_is_player() {
            defense_bonus_sum(inv)
        } else {
            0
        },
    )
}

pub open spec fn spec_max_hp(o: DisplayObj, inv: Seq<DisplayObj>) -> int {
    clamp_i32(
        (match o.fighter {
            Some(f) => f.base_max_hp as int,
            None => 0,
        }) + if o.spec_is_player() {
            max_hp_bonus_sum(inv)
        } else {
            0
        },
    )
}

/// The equipment records of the equipped inventory entries, in inventory
/// order.
pub open spec fn equipped_list(inv: Seq<DisplayObj>) -> Seq<Equipment>
    decreases inv.len(),
{
    if inv.len() == 0 {
        Seq::empty()
    } else {
        equipped_list(inv.drop_last()) + (match inv.last().equipment {
            Some(e) => if e.equipped {
                seq![e]
            } else {
                Seq::empty()
            },
            None => Seq::empty(),
        })
    }
}


/// The hit points after raw damage: positive damage subtracts, clamped at
/// the bottom of the `i32` range; other damage values leave them unchanged.
pub open spec fn hp_after(f: Fighter, damage: int) -> int {
    if damage > 0 {
        clamp_i32(f.hp - damage)
    } else {
        f.hp as int
    }
}

/// Experience yielded by applying `damage`: the victim's carried
/// experience when the damage kills, nothing otherwise.
pub open spec fn damage_xp(o: DisplayObj, damage: int) -> Option<u32> {
    match o.fighter {
        Some(f) => if hp_after(f, damage) <= 0 {
            Some(f.xp)
        } else {
            None
        },
        None => None,
    }
}

/// A dead monster turns into harmless remains: non-blocking scenery with
/// no combat or AI facet.
pub open spec fn monster_death_rel(o: DisplayObj, r: DisplayObj) -> bool {
    &&& r.x == o.x
    &&& r.y == o.y
    &&& r.glyph == '%'
    &&& r.color == crate::color::dark_red_spec()
    &&& r.name@ == "remains of "@ + o.name@
    &&& r.blocks == false
    &&& r.alive == false
    &&& r.fighter is None
    &&& r.ai is None
    &&& r.item == o.item
    &&& r.equipment == o.equipment
    &&& r.always_visible == o.always_visible
    &&& r.level == o.level
}

pub open spec fn monster_death_msg(o: DisplayObj, xp: u32) -> Seq<char> {
    o.name@ + " is dead! You gain "@ + dec_seq(xp as nat) + " experience points."@
}

/// Everything `take_damage` does to the victim and to the log.
pub open spec fn take_damage_rel(
    o: DisplayObj,
    damage: int,
    r: DisplayObj,
    m0: Seq<(Seq<char>, Color)>,
    m1: Seq<(Seq<char>, Color)>,
) -> bool {
    match o.fighter {
        None => r == o && m1 == m0,
        Some(f) => {
            let hp1 = hp_after(f, damage);
            let f1 = Fighter { hp: hp1 as i32, ..f };
            if hp1 <= 0 {
                match f.on_death {
                    DeathCallback::Player => {
                        &&& r == (DisplayObj {
                            glyph: '%',
                            color: crate::color::dark_red_spec(),
                            alive: false,
                            fighter: Some(f1),
                            ..o
                        })
                        &&& m1 == m0.push(("You died!"@, crate::color::red_spec()))
                    },
                    DeathCallback::Monster => {
                        &&& monster_death_rel(o, r)
                        &&& m1 == m0.push((monster_death_msg(o, f.xp), crate::color::orange_spec()))
                    },
                }
            } else {
                r == (DisplayObj { fighter: Some(f1), ..o }) && m1 == m0
            }
        },
    }
}

pub open spec fn attack_msg(o: DisplayObj, t: DisplayObj, d: int) -> Seq<char> {
    o.name@ + " attacks "@ + t.name@ + " for "@ + dec_seq(d as nat) + " hit points."@
}

pub open spec fn no_effect_msg(o: DisplayObj, t: DisplayObj) -> Seq<char> {
    o.name@ + " attacks "@ + t.name@ + " but it has no effect!"@
}


/// Everything one attack does: the damage formula, the blow or
/// no-effect message, the victim's damage handling, and the credited
/// experience.
pub open spec fn attack_rel(
    a: DisplayObj,
    t: DisplayObj,
    inv: Seq<DisplayObj>,
    a2: DisplayObj,
    t2: DisplayObj,
    m0: Seq<(Seq<char>, Color)>,
    m1: Seq<(Seq<char>, Color)>,
) -> bool {
    let d = clamp_i32(spec_power(a, inv) - spec_defense(t, inv));
    let atk_f = a.fighter->0;
    if d > 0 {
        let mm = m0.push((attack_msg(a, t, d), crate::color::white_spec()));
        &&& take_damage_rel(t, d, t2, mm, m1)
        &&& match damage_xp(t, d) {
            Some(x) => a2 == (DisplayObj {
                fighter: Some(Fighter { xp: sat_add_u32(atk_f.xp as int, x as int) as u32, ..atk_f }),
                ..a
            }),
            None => a2 == a,
        }
    } else {
        &&& m1 == m0.push((no_effect_msg(a, t), crate::color::white_spec()))
        &&& a2 == a
        &&& t2 == t
    }
}

impl DisplayObj {
    /// Apply raw damage; on a kill run the death handling for the
    /// victim's kind and hand the experience reward to the caller.
    pub fn take_damage(&mut self, damage: i32, game: &mut Game) -> (xp: Option<u32>)
        ensures
            take_damage_rel(
                *old(self),
                damage as int,
                *final(self),
                old(game).messages@,
                final(game).messages@,
            ),
            xp == damage_xp(*old(self), damage as int),
            *final(game) == (Game { messages: final(game).messages, ..*old(game) }),
    {
        match self.fighter {
            None => None,
            Some(f) => {
                let hp1: i32 = if damage > 0 {
                    let t = f.hp as i64 - damage as i64;
                    if t < i32::MIN as i64 {
                        i32::MIN
                    } else {
                        t as i32
                    }
                } else {
                    f.hp
                };
                self.fighter = Some(Fighter { hp: hp1, ..f });
                if hp1 <= 0 {
                    self.alive = false;
                    match f.on_death {
                        DeathCallback::Player => {
                            game.messages.add("You died!".to_owned(), crate::color::red());
                            self.glyph = '%';
                            self.color = crate::color::dark_red();
                        },
                        DeathCallback::Monster => {
                            let msg = self.name.clone().concat(" is dead! You gain ").concat(
                                u32_string(f.xp).as_str(),
                            ).concat(" experience points.");
                            game.messages.add(msg, crate::color::orange());
                            self.glyph = '%';
                            self.color = crate::color::dark_red();
                            self.blocks = false;
                            self.fighter = None;
                            self.ai = None;
                            let mut nm = "remains of ".to_owned();
                            nm.append(self.name.as_str());
                            self.name = nm;
                        },
                    }
                    Some(f.xp)
                } else {
                    None
                }
            },
        }
    }

    /// Attack `target`: damage is attack power minus defense; zero or
    /// negative damage only logs that the blow had no effect.  A kill's
    /// experience reward is credited to the attacker.
    pub fn attack(&mut self, target: &mut DisplayObj, game: &mut Game)
        requires
            old(self).fighter is Some,
            old(game).inventory@.len() <= MAX_INV_SPACE,
        ensures
            *final(game) == (Game { messages: final(game).messages, ..*old(game) }),
            attack_rel(
                *old(self),
                *old(target),
                old(game).inventory@,
                *final(self),
                *final(target),
                old(game).messages@,
                final(game).messages@,
            ),
    {
        let p = self.power(game);
        let dfs = target.defense(game);
        let d = clamp64_to_i32(p as i64 - dfs as i64);
        if d > 0 {
            let msg = self.name.clone().concat(" attacks ").concat(target.name.as_str()).concat(
                " for ",
            ).concat(u32_string(d as u32).as_str()).concat(" hit points.");
            game.messages.add(msg, crate::color::white());
            let reward = target.take_damage(d, game);
            match reward {
                Some(x) => {
                    let f = self.fighter.unwrap();
                    let nx: u32 = if x > u32::MAX - f.xp {
                        u32::MAX
                    } else {
                        f.xp + x
                    };
                    self.fighter = Some(Fighter { xp: nx, ..f });
                },
                None => {},
            }
        } else {
            let msg = self.name.clone().concat(" attacks ").concat(target.name.as_str()).concat(
                " but it has no effect!",
            );
            game.messages.add(msg, crate::color::white());
        }
    }

    /// Heal by `amount` without going over the maximum.
    pub fn heal(&mut self, amount: i32, game: &Game)
        requires
            amount >= 0,
            game.inventory@.len() <= MAX_INV_SPACE,
        ensures
            match old(self).fighter {
                None => *final(self) == *old(self),
                Some(f) => {
                    let m = spec_max_hp(*old(self), game.inventory@);
                    let hp1 = if f.hp + amount > m {
                        m
                    } else {
                        f.hp + amount
                    };
                    *final(self) == (DisplayObj {
                        fighter: Some(Fighter { hp: hp1 as i32, ..f }),
                        ..*old(self)
                    })
                },
            },
    {
        let m = self.max_hp(game);
        match self.fighter {
            Some(f) => {
                let t = f.hp as i64 + amount as i64;
                let hp1: i32 = if t > m as i64 {
                    m
                } else {
                    t as i32
                };
                self.fighter = Some(Fighter { hp: hp1, ..f });
            },
            None => {},
        }
    }
}


pub open spec fn cant_equip_item_msg(o: DisplayObj) -> Seq<char> {
    "Can't equip "@ + o.name@ + " because it's not an Item."@
}

pub open spec fn cant_equip_equipment_msg(o: DisplayObj) -> Seq<char> {
    "Can't equip "@ + o.name@ + " because it's not an Equipment."@
}

pub open spec fn equipped_msg(o: DisplayObj, e: Equipment) -> Seq<char> {
    "Equipped "@ + o.name@ + " on "@ + e.slot.spec_label() + "."@
}

pub open spec fn cant_dequip_item_msg(o: DisplayObj) -> Seq<char> {
    "Can't dequip "@ + o.name@ + " because it's not an Item."@
}

pub open spec fn cant_dequip_equipment_msg(o: DisplayObj) -> Seq<char> {
    "Can't dequip "@ + o.name@ + " because it's not an Equipment."@
}

pub open spec fn dequipped_msg(o: DisplayObj, e: Equipment) -> Seq<char> {
    "Dequipped "@ + o.name@ + " from "@ + e.slot.spec_label() + "."@
}

impl DisplayObj {
    /// Equip this object and log it.  Equipping an already-equipped item
    /// changes nothing and logs nothing: the operation is idempotent.
    pub fn equip(&mut self, messages: &mut Messages)
        ensures
            ({
                let o = *old(self);
                if o.item is None {
                    &&& *final(self) == o
                    &&& final(messages)@ == old(messages)@.push(
                        (cant_equip_item_msg(o), crate::color::red_spec()),
                    )
                } else {
                    match o.equipment {
                        Some(e) => if !e.equipped {
                            &&& *final(self) == (DisplayObj {
                                equipment: Some(Equipment { equipped: true, ..e }),
                                ..o
                            })
                            &&& final(messages)@ == old(messages)@.push(
                                (equipped_msg(o, e), crate::color::light_green_spec()),
                            )
                        } else {
                            &&& *final(self) == o
                            &&& final(messages)@ == old(messages)@
                        },
                        None => {
                            &&& *final(self) == o
                            &&& final(messages)@ == old(messages)@.push(
                                (cant_equip_equipment_msg(o), crate::color::red_spec()),
                            )
                        },
                    }
                }
            }),
    {
        if self.item.is_none() {
            let msg = "Can't equip ".to_owned().concat(self.name.as_str()).concat(
                " because it's not an Item.",
            );
            messages.add(msg, crate::color::red());
            return ;
        }
        match self.equipment {
            Some(e) => {
                if !e.equipped {
                    self.equipment = Some(Equipment { equipped: true, ..e });
                    let msg = "Equipped ".to_owned().concat(self.name.as_str()).concat(" on ")
                        .concat(e.slot.label().as_str()).concat(".");
                    messages.add(msg, crate::color::light_green());
                }
            },
            None => {
                let msg = "Can't equip ".to_owned().concat(self.name.as_str()).concat(
                    " because it's not an Equipment.",
                );
                messages.add(msg, crate::color::red());
            },
        }
    }

    /// Take this object off and log it.  Dequipping an item that is not
    /// equipped changes nothing and logs nothing: the operation is
    /// idempotent.
    pub fn dequip(&mut self, messages: &mut Messages)
        ensures
            ({
                let o = *old(self);
                if o.item is None {
                    &&& *final(self) == o
                    &&& final(messages)@ == old(messages)@.push(
                        (cant_dequip_item_msg(o), crate::color::red_spec()),
                    )
                } else {
                    match o.equipment {
                        Some(e) => if e.equipped {
                            &&& *final(self) == (DisplayObj {
                                equipment: Some(Equipment { equipped: false, ..e }),
                                ..o
                            })
                            &&& final(messages)@ == old(messages)@.push(
                                (dequipped_msg(o, e), crate::color::light_yellow_spec()),
                            )
                        } else {
                            &&& *final(self) == o
                            &&& final(messages)@ == old(messages)@
                        },
                        None => {
                            &&& *final(self) == o
                            &&& final(messages)@ == old(messages)@.push(
                                (cant_dequip_equipment_msg(o), crate::color::red_spec()),
                            )
                        },
                    }
                }
            }),
    {
        if self.item.is_none() {
            let msg = "Can't dequip ".to_owned().concat(self.name.as_str()).concat(
                " because it's not an Item.",
            );
            messages.add(msg, crate::color::red());
            return ;
        }
        match self.equipment {
            Some(e) => {
                if e.equipped {
                    self.equipment = Some(Equipment { equipped: false, ..e });
                    let msg = "Dequipped ".to_owned().concat(self.name.as_str()).concat(" from ")
                        .concat(e.slot.label().as_str()).concat(".");
                    messages.add(msg, crate::color::light_yellow());
                }
            },
            None => {
                let msg = "Can't dequip ".to_owned().concat(self.name.as_str()).concat(
                    " because it's not an Equipment.",
                );
                messages.add(msg, crate::color::red());
            },
        }
    }
}


/// The victim side of `take_damage_rel`, without the log.
pub open spec fn damaged_obj_rel(o: DisplayObj, damage: int, r: DisplayObj) -> bool {
    match o.fighter {
        None => r == o,
        Some(f) => {
            let hp1 = hp_after(f, damage);
            let f1 = Fighter { hp: hp1 as i32, ..f };
            if hp1 <= 0 {
                match f.on_death {
                    DeathCallback::Player => r == (DisplayObj {
                        glyph: '%',
                        color: crate::color::dark_red_spec(),
                        alive: false,
                        fighter: Some(f1),
                        ..o
                    }),
                    DeathCallback::Monster => monster_death_rel(o, r),
                }
            } else {
                r == (DisplayObj { fighter: Some(f1), ..o })
            }
        },
    }
}

/// The log entries `take_damage` writes: one death announcement when the
/// damage kills, nothing otherwise.
pub open spec fn death_msgs(o: DisplayObj, damage: int) -> Seq<(Seq<char>, Color)> {
    match o.fighter {
        Some(f) => if hp_after(f, damage) <= 0 {
            match f.on_death {
                DeathCallback::Player => seq![("You died!"@, crate::color::red_spec())],
                DeathCallback::Monster => seq![
                    (monster_death_msg(o, f.xp), crate::color::orange_spec()),
                ],
            }
        } else {
            Seq::empty()
        },
        None => Seq::empty(),
    }
}

/// `take_damage_rel` splits into the victim transformation and an
/// appended death announcement.
pub proof fn lemma_take_damage_decompose(
    o: DisplayObj,
    damage: int,
    r: DisplayObj,
    m0: Seq<(Seq<char>, Color)>,
    m1: Seq<(Seq<char>, Color)>,
)
    requires
        take_damage_rel(o, damage, r, m0, m1),
    ensures
        damaged_obj_rel(o, damage, r),
        m1 == m0 + death_msgs(o, damage),
{
    match o.fighter {
        None => {
            assert(m1 =~= m0 + death_msgs(o, damage));
        },
        Some(f) => {
            if hp_after(f, damage) <= 0 {
                match f.on_death {
                    DeathCallback::Player => {
                        assert(m1 =~= m0 + death_msgs(o, damage));
                    },
                    DeathCallback::Monster => {
                        assert(m1 =~= m0 + death_msgs(o, damage));
                    },
                }
            } else {
                assert(m1 =~= m0 + death_msgs(o, damage));
            }
        },
    }
}

/// The same object with experience credited, saturating at the top of
/// the `u32` range.
pub open spec fn with_xp(o: DisplayObj, amount: int) -> DisplayObj
    recommends
        o.fighter is Some,
{
    let f = o.fighter->0;
    DisplayObj { fighter: Some(Fighter { xp: sat_add_u32(f.xp as int, amount) as u32, ..f }), ..o }
}

} // verus!
