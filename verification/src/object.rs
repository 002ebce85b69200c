use vstd::prelude::*;
use vstd::string::StringExecFns;
use crate::messages::{Color, Messages, add_message, add_str, decimal, decimal_string, log_texts};

verus! {

/// Combat statistics of a creature.
#[derive(Clone, Copy, Debug, PartialEq, Eq, Structural)]
pub struct Fighter {
    pub max_hp: i32,
    pub hp: i32,
    pub defense: i32,
    pub power: i32,
    pub on_death: DeathCallback,
}

/// What an item does when it is used.
#[derive(Clone, Copy, Debug, PartialEq, Eq, Structural)]
pub enum Item {
    Heal,
    Lightning,
    Fireball,
    Confuse,
    Corpse,
}

/// Whether using an item spent it.
#[derive(Clone, Copy, Debug, PartialEq, Eq, Structural)]
pub enum UseResult {
    UsedUp,
    Cancelled,
}

/// How a monster decides its moves; a confused monster remembers the
/// behaviour it returns to and how many turns the confusion still lasts.
#[derive(Debug)]
pub enum Ai {
    Basic,
    Confused { previous_ai: Box<Ai>, num_turns: i32 },
}

/// What happens to a creature when its hit points run out.
#[derive(Clone, Copy, Debug, PartialEq, Eq, Structural)]
pub enum DeathCallback {
    Player,
    Monster,
}

/// Anything on the map: the player, monsters, items and corpses.
#[derive(Debug)]
pub struct Object {
    pub x: i32,
    pub y: i32,
    pub name: String,
    pub blocks: bool,
    pub alive: bool,
    pub char: char,
    pub color: Color,
    pub fighter: Option<Fighter>,
    pub ai: Option<Ai>,
    pub item: Option<Item>,
}

/// Whether the object's hit points are at most its maximum, when it
/// fights.
pub open spec fn within_max(o: Object) -> bool {
    o.fighter matches Some(f) ==> f.hp <= f.max_hp
}

/// Whether no object has more hit points than its maximum. Damage, healing,
/// moves, spells, monster turns and the inventory all keep this, and new
/// monsters start with it.
pub open spec fn all_within_max(objects: Seq<Object>) -> bool {
    forall|k: int| 0 <= k < objects.len() ==> within_max(#[trigger] objects[k])
}

/// Whether the object's attack power and defense are within a million
/// either way, so that attacks stay far from the limits of `i32`.
pub open spec fn modest(o: Object) -> bool {
    o.fighter matches Some(f) ==> {
        &&& -1_000_000 <= f.power <= 1_000_000
        &&& -1_000_000 <= f.defense <= 1_000_000
    }
}

/// Whether every object's fighting statistics are modest.
pub open spec fn all_modest(objects: Seq<Object>) -> bool {
    forall|k: int| 0 <= k < objects.len() ==> modest(#[trigger] objects[k])
}

/// The player's remains after death: drawn as a dark red '%', all else kept.
pub open spec fn player_remains(before: Object, after: Object) -> bool {
    after == Object { char: '%', color: Color::DarkRed, ..before }
}

/// A monster's remains after death: a dark red '%' corpse that no longer
/// blocks, fights or acts, named "remains of" its former name, and that can
/// be picked up as an item.
pub open spec fn monster_remains(before: Object, after: Object) -> bool {
    &&& after.x == before.x
    &&& after.y == before.y
    &&& after.name@ == "remains of "@ + before.name@
    &&& after.blocks == false
    &&& after.alive == before.alive
    &&& after.char == '%'
    &&& after.color == Color::DarkRed
    &&& after.fighter == None::<Fighter>
    &&& after.ai == None::<Ai>
    &&& after.item == Some(Item::Corpse)
}

/// What a death callback does to the dying object and the log.
pub open spec fn death_effect(
    callback: DeathCallback,
    before: Object,
    after: Object,
    log_before: Seq<(Seq<char>, Color)>,
    log_after: Seq<(Seq<char>, Color)>,
) -> bool {
    match callback {
        DeathCallback::Player => {
            &&& player_remains(before, after)
            &&& log_after == log_before.push(("You died!"@, Color::DarkRed))
        },
        DeathCallback::Monster => {
            &&& monster_remains(before, after)
            &&& log_after == log_before.push(
                (before.name@ + " is dead!"@, Color::Orange),
            )
        },
    }
}

/// The fighter after taking `damage`: only positive damage lowers the hit
/// points.
pub open spec fn damaged(f: Fighter, damage: i32) -> Fighter {
    if damage > 0 {
        Fighter { hp: (f.hp - damage) as i32, ..f }
    } else {
        f
    }
}

/// Whether taking `damage` stays within `i32` for the object's fighter.
pub open spec fn damage_fits(o: Object, damage: i32) -> bool {
    o.fighter matches Some(f) ==> (damage > 0 ==> f.hp - damage >= i32::MIN)
}

/// The object with its fighter damaged, before any death is handled.
pub open spec fn after_hit(o: Object, damage: i32) -> Object {
    match o.fighter {
        Some(f) => Object { fighter: Some(damaged(f, damage)), ..o },
        None => o,
    }
}

/// The fighter after healing by `amount`, never above its maximum.
pub open spec fn healed(f: Fighter, amount: i32) -> Fighter {
    if f.hp + amount > f.max_hp {
        Fighter { hp: f.max_hp, ..f }
    } else {
        Fighter { hp: (f.hp + amount) as i32, ..f }
    }
}

/// The damage one object deals to another: the attacker's power less the
/// target's defense, an absent fighter counting as zero on either side.
pub open spec fn attack_damage(attacker: Object, target: Object) -> int {
    (match attacker.fighter {
        Some(f) => f.power as int,
        None => 0,
    }) - (match target.fighter {
        Some(f) => f.defense as int,
        None => 0,
    })
}

/// The square of the distance between two grid positions.
pub open spec fn dist_sq(x1: int, y1: int, x2: int, y2: int) -> int {
    (x2 - x1) * (x2 - x1) + (y2 - y1) * (y2 - y1)
}

/// Whether the squared distance between the two positions fits in `i32`,
/// as computing it there needs.
pub open spec fn near_enough(x1: int, y1: int, x2: int, y2: int) -> bool {
    dist_sq(x1, y1, x2, y2) <= i32::MAX
}

/// When the squared distance fits in `i32`, each coordinate difference is at
/// most 46340 either way.
pub proof fn lemma_near_bounds(x1: int, y1: int, x2: int, y2: int)
    requires
        near_enough(x1, y1, x2, y2),
    ensures
        -46340 <= x2 - x1 <= 46340,
        -46340 <= y2 - y1 <= 46340,
{
    let dx = x2 - x1;
    let dy = y2 - y1;
    assert(dx * dx >= 0 && dy * dy >= 0) by (nonlinear_arith);
    assert(-46340 <= dx <= 46340) by (nonlinear_arith)
        requires
            dx * dx <= 0x7fff_ffff,
    ;
    assert(-46340 <= dy <= 46340) by (nonlinear_arith)
        requires
            dy * dy <= 0x7fff_ffff,
    ;
}

/// Whether the squared distance between (x1, y1) and (x2, y2) fits in
/// `i32`.
pub fn near_now(x1: i32, y1: i32, x2: i32, y2: i32) -> (b: bool)
    ensures
        b == near_enough(x1 as int, y1 as int, x2 as int, y2 as int),
{
    let dx = x2 as i64 - x1 as i64;
    let dy = y2 as i64 - y1 as i64;
    if dx < -46340 || dx > 46340 || dy < -46340 || dy > 46340 {
        proof {
            if near_enough(x1 as int, y1 as int, x2 as int, y2 as int) {
                lemma_near_bounds(x1 as int, y1 as int, x2 as int, y2 as int);
            }
        }
        return false;
    }
    assert(0 <= dx * dx <= 46340 * 46340) by (nonlinear_arith)
        requires
            -46340 <= dx <= 46340,
    ;
    assert(0 <= dy * dy <= 46340 * 46340) by (nonlinear_arith)
        requires
            -46340 <= dy <= 46340,
    ;
    dx * dx + dy * dy <= i32::MAX as i64
}

impl Object {
    /// A new object at (x, y): not alive, without fighter, behaviour or item.
    pub fn new(x: i32, y: i32, char: char, name: &str, color: Color, blocks: bool) -> (o: Object)
        ensures
            o.x == x,
            o.y == y,
            o.char == char,
            o.name@ == name@,
            o.color == color,
            o.blocks == blocks,
            !o.alive,
            o.fighter is None,
            o.ai is None,
            o.item is None,
    {
        Object {
            x: x,
            y: y,
            char: char,
            color: color,
            name: String::from_str(name),
            blocks: blocks,
            alive: false,
            fighter: None,
            ai: None,
            item: None,
        }
    }

    /// The object's position.
    pub fn pos(&self) -> (p: (i32, i32))
        ensures
            p == (self.x, self.y),
    {
        (self.x, self.y)
    }

    /// Moves the object to (x, y), leaving all else as it was.
    pub fn set_pos(&mut self, x: i32, y: i32)
        ensures
            *final(self) == (Object { x: x, y: y, ..*old(self) }),
    {
        self.x = x;
        self.y = y;
    }

    /// The square of the distance from the object to (x, y); comparing it
    /// with the square of a range decides the same as comparing the
    /// distance with the range.
    pub fn distance_sq(&self, x: i32, y: i32) -> (d: i32)
        requires
            near_enough(self.x as int, self.y as int, x as int, y as int),
        ensures
            d == dist_sq(self.x as int, self.y as int, x as int, y as int),
            d >= 0,
    {
        proof {
            lemma_near_bounds(self.x as int, self.y as int, x as int, y as int);
        }
        let dx = x as i64 - self.x as i64;
        let dy = y as i64 - self.y as i64;
        assert(0 <= dx * dx <= 46340 * 46340) by (nonlinear_arith)
            requires
                -46340 <= dx <= 46340,
        ;
        assert(0 <= dy * dy <= 46340 * 46340) by (nonlinear_arith)
            requires
                -46340 <= dy <= 46340,
        ;
        (dx * dx + dy * dy) as i32
    }

    /// Lowers the hit points by `damage` when it is positive; when the
    /// fighter's hit points are then at most zero, the object is no longer
    /// alive and its death callback runs.
    pub fn take_damage(&mut self, damage: i32, messages: &mut Messages)
        requires
            damage_fits(*old(self), damage),
        ensures
            final(self).x == old(self).x && final(self).y == old(self).y,
            took_damage(
                *old(self),
                damage,
                *final(self),
                log_texts(old(messages)@),
                log_texts(final(messages)@),
            ),
            within_max(*old(self)) ==> within_max(*final(self)),
            modest(*old(self)) ==> modest(*final(self)),
            old(self).ai is None ==> final(self).ai is None,
    {
        match self.fighter {
            Some(f) => {
                if damage > 0 {
                    self.fighter = Some(Fighter { hp: f.hp - damage, ..f });
                }
            },
            None => {},
        }
        match self.fighter {
            Some(fighter) => {
                if fighter.hp <= 0 {
                    self.alive = false;
                    fighter.on_death.callback(self, messages);
                }
            },
            None => {},
        }
    }

    /// Raises the hit points by `amount`, but never above the maximum.
    pub fn heal(&mut self, amount: i32)
        requires
            old(self).fighter matches Some(f) ==> i32::MIN <= f.hp + amount <= i32::MAX,
        ensures
            *final(self) == (match old(self).fighter {
                Some(f) => Object { fighter: Some(healed(f, amount)), ..*old(self) },
                None => *old(self),
            }),
            within_max(*old(self)) ==> within_max(*final(self)),
    {
        match self.fighter {
            Some(f) => {
                let mut hp = f.hp + amount;
                if hp > f.max_hp {
                    hp = f.max_hp;
                }
                self.fighter = Some(Fighter { hp: hp, ..f });
            },
            None => {},
        }
    }

    /// Attacks `target`: with positive damage the log tells how much and the
    /// target takes it; otherwise the log tells that the attack had no effect.
    pub fn attack(&mut self, target: &mut Object, messages: &mut Messages)
        requires
            attack_ok(*old(self), *old(target)),
        ensures
            *final(self) == *old(self),
            final(target).x == old(target).x && final(target).y == old(target).y,
            attack_outcome(
                *old(self),
                *old(target),
                *final(target),
                log_texts(old(messages)@),
                log_texts(final(messages)@),
            ),
            within_max(*old(target)) ==> within_max(*final(target)),
            modest(*old(target)) ==> modest(*final(target)),
            old(target).ai is None ==> final(target).ai is None,
    {
        let power = match self.fighter {
            Some(f) => f.power,
            None => 0,
        };
        let defense = match target.fighter {
            Some(f) => f.defense,
            None => 0,
        };
        let damage = power - defense;
        if damage > 0 {
            let mut text = self.name.clone();
            text.append(" attacks ");
            text.append(target.name.as_str());
            text.append(" for ");
            let number = decimal_string(damage as u32);
            text.append(number.as_str());
            text.append(" hit points.");
            add_message(messages, text, Color::White);
            target.take_damage(damage, messages);
        } else {
            let mut text = self.name.clone();
            text.append(" attacks ");
            text.append(target.name.as_str());
            text.append(" but it has no effect!");
            add_message(messages, text, Color::Grey);
        }
    }
}

/// Whether an attack by `attacker` on `target` stays within `i32`.
pub open spec fn attack_ok(attacker: Object, target: Object) -> bool {
    &&& i32::MIN <= attack_damage(attacker, target) <= i32::MAX
    &&& attack_damage(attacker, target) > 0 ==> damage_fits(
        target,
        attack_damage(attacker, target) as i32,
    )
}

/// What an attack does to its target and to the log: with positive damage
/// the log tells how much and the target takes it; otherwise the log tells
/// that the attack had no effect and the target is left as it was.
pub open spec fn attack_outcome(
    attacker: Object,
    before: Object,
    after: Object,
    log_before: Seq<(Seq<char>, Color)>,
    log_after: Seq<(Seq<char>, Color)>,
) -> bool {
    let damage = attack_damage(attacker, before);
    if damage > 0 {
        took_damage(
            before,
            damage as i32,
            after,
            log_before.push(
                (
                    attacker.name@ + " attacks "@ + before.name@ + " for "@ + decimal(damage as nat)
                        + " hit points."@,
                    Color::White,
                ),
            ),
            log_after,
        )
    } else {
        &&& after == before
        &&& log_after == log_before.push(
            (attacker.name@ + " attacks "@ + before.name@ + " but it has no effect!"@, Color::Grey),
        )
    }
}

/// The object after taking `damage`: the hit lands and, when the fighter's
/// hit points are then at most zero, the object is no longer alive and its
/// death callback turns it into remains.
pub open spec fn damaged_object(before: Object, damage: i32, after: Object) -> bool {
    let hit = after_hit(before, damage);
    match hit.fighter {
        Some(f) if f.hp <= 0 => match f.on_death {
            DeathCallback::Player => player_remains(Object { alive: false, ..hit }, after),
            DeathCallback::Monster => monster_remains(Object { alive: false, ..hit }, after),
        },
        _ => after == hit,
    }
}

/// The log after the object takes `damage`: a death adds its message.
pub open spec fn damage_texts(
    before: Object,
    damage: i32,
    log: Seq<(Seq<char>, Color)>,
) -> Seq<(Seq<char>, Color)> {
    let hit = after_hit(before, damage);
    match hit.fighter {
        Some(f) if f.hp <= 0 => match f.on_death {
            DeathCallback::Player => log.push(("You died!"@, Color::DarkRed)),
            DeathCallback::Monster => log.push((before.name@ + " is dead!"@, Color::Orange)),
        },
        _ => log,
    }
}

/// What `take_damage` does: the object and the log before and after it.
pub open spec fn took_damage(
    before: Object,
    damage: i32,
    after: Object,
    log_before: Seq<(Seq<char>, Color)>,
    log_after: Seq<(Seq<char>, Color)>,
) -> bool {
    &&& damaged_object(before, damage, after)
    &&& log_after == damage_texts(before, damage, log_before)
}

impl DeathCallback {
    /// Runs the death of the player or of a monster on `object`.
    pub fn callback(self, object: &mut Object, messages: &mut Messages)
        ensures
            death_effect(self, *old(object), *final(object), log_texts(old(messages)@), log_texts(final(messages)@)),
    {
        match self {
            DeathCallback::Player => player_death(object, messages),
            DeathCallback::Monster => monster_death(object, messages),
        }
    }
}

/// The player dies: the log says so and the player is drawn as remains.
pub fn player_death(player: &mut Object, messages: &mut Messages)
    ensures
        death_effect(
            DeathCallback::Player,
            *old(player),
            *final(player),
            log_texts(old(messages)@),
            log_texts(final(messages)@),
        ),
{
    add_str(messages, "You died!", Color::DarkRed);
    player.char = '%';
    player.color = Color::DarkRed;
}

/// A monster dies: the log says so and it turns into a corpse.
pub fn monster_death(monster: &mut Object, messages: &mut Messages)
    ensures
        death_effect(
            DeathCallback::Monster,
            *old(monster),
            *final(monster),
            log_texts(old(messages)@),
            log_texts(final(messages)@),
        ),
{
    let mut text = monster.name.clone();
    text.append(" is dead!");
    add_message(messages, text, Color::Orange);
    monster.char = '%';
    monster.color = Color::DarkRed;
    monster.blocks = false;
    monster.fighter = None;
    monster.ai = None;
    let mut name = String::from_str("remains of ");
    name.append(monster.name.as_str());
    monster.name = name;
    monster.item = Some(Item::Corpse);
}

/// Whether an attack by `attacker` on `target` stays within `i32`.
pub(crate) fn attack_fits(attacker: &Object, target: &Object) -> (b: bool)
    ensures
        b == attack_ok(*attacker, *target),
{
    let power: i64 = match attacker.fighter {
        Some(f) => f.power as i64,
        None => 0,
    };
    let defense: i64 = match target.fighter {
        Some(f) => f.defense as i64,
        None => 0,
    };
    let damage = power - defense;
    if damage < i32::MIN as i64 || damage > i32::MAX as i64 {
        return false;
    }
    if damage <= 0 {
        return true;
    }
    match target.fighter {
        Some(f) => f.hp as i64 - damage >= i32::MIN as i64,
        None => true,
    }
}

/// Whether taking `damage` stays within `i32` for the object.
pub(crate) fn damage_fits_now(o: &Object, damage: i32) -> (b: bool)
    ensures
        b == damage_fits(*o, damage),
{
    match o.fighter {
        Some(f) => damage <= 0 || f.hp as i64 - damage as i64 >= i32::MIN as i64,
        None => true,
    }
}

} // verus!
