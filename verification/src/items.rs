use vstd::prelude::*;
use vstd::string::StringExecFns;
use crate::fov::{Fov, in_fov_bounds, sees};
use crate::map::open_cell;
use crate::messages::{Color, add_message, add_str, decimal, decimal_string, log_texts};
use crate::object::{
    Ai, Item, Object, UseResult, all_modest, all_within_max, damage_fits, damage_fits_now, damage_texts,
    damaged_object, dist_sq, healed, near_enough, near_now, took_damage,
};
use crate::world::{Game, PLAYER, all_on_floor, world_ok};

verus! {

/// Hit points a healing potion restores.
pub const HEAL_AMOUNT: i32 = 4;
/// How far a lightning bolt reaches.
pub const LIGHTNING_RANGE: i32 = 8;
/// Damage of a lightning bolt.
pub const LIGHTNING_DAMAGE: i32 = 12;
/// Radius of a fireball.
pub const FIREBALL_RADIUS: i32 = 3;
/// Damage of a fireball.
pub const FIREBALL_DAMAGE: i32 = 10;
/// How far a confusion scroll reaches.
pub const CONFUSE_RANGE: i32 = 8;
/// Turns a confusion lasts.
pub const CONFUSE_NUM_TURNS: i32 = 8;

/// Whether the object at `id` is a monster the player can see: not the
/// player, a fighter with a behaviour, in sight.
pub open spec fn visible_monster(objects: Seq<Object>, fov: &Fov, id: int) -> bool {
    &&& 0 <= id < objects.len()
    &&& id != 0
    &&& objects[id].fighter is Some
    &&& objects[id].ai is Some
    &&& sees(fov, objects[id].x as int, objects[id].y as int)
}

/// Whether the object at `id` lies within `range` of the player: its
/// distance is below `range + 1`, compared by squares.
pub open spec fn within_reach(objects: Seq<Object>, id: int, range: int) -> bool {
    &&& range + 1 > 0
    &&& dist_sq(objects[0].x as int, objects[0].y as int, objects[id].x as int, objects[id].y as int)
        < (range + 1) * (range + 1)
}

/// The squared distance from the player to the object at `id`.
pub open spec fn player_dist(objects: Seq<Object>, id: int) -> int {
    dist_sq(objects[0].x as int, objects[0].y as int, objects[id].x as int, objects[id].y as int)
}

/// Whether every monster could be looked at: its cell lies in the field of
/// view and its distance to the player can be computed.
pub open spec fn monsters_measurable(objects: Seq<Object>, fov: &Fov) -> bool {
    forall|id: int|
        0 < id < objects.len() && (#[trigger] objects[id]).fighter is Some && objects[id].ai
            is Some ==> {
            &&& in_fov_bounds(fov, objects[id].x as int, objects[id].y as int)
            &&& sees(fov, objects[id].x as int, objects[id].y as int) ==> near_enough(
                objects[0].x as int,
                objects[0].y as int,
                objects[id].x as int,
                objects[id].y as int,
            )
        }
}

/// Which monster `closest_monster` picks: the visible monster nearest to
/// the player within the range, the first of them on a tie; none when no
/// visible monster is within the range.
pub open spec fn is_closest(objects: Seq<Object>, fov: &Fov, range: int, r: Option<usize>) -> bool {
    match r {
        Some(i) => {
            &&& visible_monster(objects, fov, i as int)
            &&& within_reach(objects, i as int, range)
            &&& forall|j: int|
                visible_monster(objects, fov, j) ==> {
                    &&& player_dist(objects, i as int) <= #[trigger] player_dist(objects, j)
                    &&& j < i ==> player_dist(objects, i as int) < player_dist(objects, j)
                }
        },
        None => forall|j: int|
            visible_monster(objects, fov, j) ==> !#[trigger] within_reach(objects, j, range),
    }
}

/// The visible monster closest to the player within `max_range`.
pub fn closest_monster(max_range: i32, objects: &Vec<Object>, fov: &Fov) -> (r: Option<usize>)
    requires
        monsters_measurable(objects@, fov),
        max_range < i32::MAX,
    ensures
        is_closest(objects@, fov, max_range as int, r),
{
    let mut closest_enemy: Option<usize> = None;
    let limit: i64 = max_range as i64 + 1;
    assert(0 <= limit * limit <= 0x4000_0000_0000_0000) by (nonlinear_arith)
        requires
            i32::MIN < limit <= i32::MAX,
    ;
    let mut closest_dist: i64 = limit * limit;
    let mut id: usize = 1;
    while id < objects.len()
        invariant
            monsters_measurable(objects@, fov),
            1 <= id <= objects@.len() + 1,
            limit == max_range + 1,
            match closest_enemy {
                Some(i) => {
                    &&& i < id
                    &&& visible_monster(objects@, fov, i as int)
                    &&& within_reach(objects@, i as int, max_range as int)
                    &&& closest_dist == player_dist(objects@, i as int)
                    &&& forall|j: int|
                        j < id && visible_monster(objects@, fov, j) ==> {
                            &&& player_dist(objects@, i as int) <= #[trigger] player_dist(
                                objects@,
                                j,
                            )
                            &&& j < i ==> player_dist(objects@, i as int) < player_dist(
                                objects@,
                                j,
                            )
                        }
                },
                None => {
                    &&& closest_dist == limit * limit
                    &&& forall|j: int|
                        j < id && visible_monster(objects@, fov, j) ==> !#[trigger] within_reach(
                            objects@,
                            j,
                            max_range as int,
                        )
                },
            },
        decreases objects@.len() - id,
    {
        let o = &objects[id];
        if o.fighter.is_some() && o.ai.is_some() && fov.is_in_fov(o.x, o.y) {
            assert(visible_monster(objects@, fov, id as int));
            let dist = objects[PLAYER].distance_sq(o.x, o.y) as i64;
            assert(player_dist(objects@, id as int) == dist);
            if (limit > 0 || closest_enemy.is_some()) && dist < closest_dist {
                proof {
                    match closest_enemy {
                        Some(i) => {
                            assert(within_reach(objects@, i as int, max_range as int));
                            assert(limit > 0);
                        },
                        None => {},
                    }
                    assert(within_reach(objects@, id as int, max_range as int));
                    assert forall|j: int|
                        j < id + 1 && visible_monster(objects@, fov, j) implies {
                        &&& player_dist(objects@, id as int) <= #[trigger] player_dist(objects@, j)
                        &&& j < id ==> player_dist(objects@, id as int) < player_dist(objects@, j)
                    } by {
                        if j < id {
                            match closest_enemy {
                                Some(i) => {
                                    assert(player_dist(objects@, i as int) <= player_dist(objects@, j));
                                },
                                None => {
                                    assert(!within_reach(objects@, j, max_range as int));
                                },
                            }
                        }
                    }
                }
                closest_enemy = Some(id);
                closest_dist = dist;
            }
        }
        id = id + 1;
    }
    closest_enemy
}

/// The log line of a lightning strike on `name`.
pub open spec fn lightning_text(name: Seq<char>) -> Seq<char> {
    "A lightning bold strikes the "@ + name + " with a loud thunder! The damage is "@ + decimal(
        LIGHTNING_DAMAGE as nat,
    ) + " hit points."@
}

/// Whether `cast_lightning` can strike the monster it picks: every monster
/// can be looked at, and the closest one within reach, if any, can take the
/// bolt's damage.
pub open spec fn lightning_ok(objects: Seq<Object>, fov: &Fov) -> bool {
    &&& monsters_measurable(objects, fov)
    &&& forall|i: usize|
        #[trigger] is_closest(objects, fov, LIGHTNING_RANGE as int, Some(i)) ==> damage_fits(
            objects[i as int],
            LIGHTNING_DAMAGE,
        )
}

/// What casting lightning does: the closest visible monster within reach
/// takes the bolt's damage and the scroll is spent; with none in reach the
/// log says so and nothing is spent.
pub open spec fn lightning_outcome(
    objects: Seq<Object>,
    fov: &Fov,
    objects_after: Seq<Object>,
    log_before: Seq<(Seq<char>, Color)>,
    log_after: Seq<(Seq<char>, Color)>,
    r: UseResult,
) -> bool {
    exists|m: Option<usize>|
        #[trigger] is_closest(objects, fov, LIGHTNING_RANGE as int, m) && match m {
            Some(i) => {
                &&& r == UseResult::UsedUp
                &&& objects_after.len() == objects.len()
                &&& forall|j: int|
                    0 <= j < objects.len() && j != i ==> objects_after[j] == objects[j]
                &&& took_damage(
                    objects[i as int],
                    LIGHTNING_DAMAGE,
                    objects_after[i as int],
                    log_before.push((lightning_text(objects[i as int].name@), Color::LightBlue)),
                    log_after,
                )
            },
            None => {
                &&& r == UseResult::Cancelled
                &&& objects_after == objects
                &&& log_after == log_before.push(
                    ("No enemy is close enough to strike."@, Color::Red),
                )
            },
        }
}

/// Strikes the closest visible monster within reach with lightning.
pub fn cast_lightning(_inventory_id: usize, objects: &mut Vec<Object>, game: &mut Game, fov: &Fov) -> (r: UseResult)
    requires
        lightning_ok(old(objects)@, fov),
    ensures
        final(game).map == old(game).map,
        final(game).inventory == old(game).inventory,
        lightning_outcome(
            old(objects)@,
            fov,
            final(objects)@,
            log_texts(old(game).log@),
            log_texts(final(game).log@),
            r,
        ),
        all_on_floor(old(game).map@, old(objects)@)
            ==> all_on_floor(final(game).map@, final(objects)@),
        all_within_max(old(objects)@) ==> all_within_max(final(objects)@),
        world_ok(old(game).map@, old(objects)@) ==> world_ok(final(game).map@, final(objects)@),
{
    let monster_id = closest_monster(LIGHTNING_RANGE, objects, fov);
    match monster_id {
        Some(monster_id) => {
            let mut text = String::from_str("A lightning bold strikes the ");
            text.append(objects[monster_id].name.as_str());
            text.append(" with a loud thunder! The damage is ");
            let number = decimal_string(LIGHTNING_DAMAGE as u32);
            text.append(number.as_str());
            text.append(" hit points.");
            add_message(&mut game.log, text, Color::LightBlue);
            objects[monster_id].take_damage(LIGHTNING_DAMAGE, &mut game.log);
            UseResult::UsedUp
        },
        None => {
            add_str(&mut game.log, "No enemy is close enough to strike.", Color::Red);
            UseResult::Cancelled
        },
    }
}


/// What drinking a healing potion does: at full health the log says so and
/// nothing is spent; otherwise the player heals and the potion is spent.
/// Without a fighter the player cannot drink it.
pub open spec fn heal_outcome(
    objects: Seq<Object>,
    objects_after: Seq<Object>,
    log_before: Seq<(Seq<char>, Color)>,
    log_after: Seq<(Seq<char>, Color)>,
    r: UseResult,
) -> bool {
    match objects[0].fighter {
        Some(f) => if f.hp == f.max_hp {
            &&& r == UseResult::Cancelled
            &&& objects_after == objects
            &&& log_after == log_before.push(("You are already at full health."@, Color::Red))
        } else {
            &&& r == UseResult::UsedUp
            &&& objects_after == objects.update(
                0,
                Object { fighter: Some(healed(f, HEAL_AMOUNT)), ..objects[0] },
            )
            &&& log_after == log_before.push(
                ("Your wounds start to feel better!"@, Color::LightViolet),
            )
        },
        None => {
            &&& r == UseResult::Cancelled
            &&& objects_after == objects
            &&& log_after == log_before
        },
    }
}

/// Heals the player by `HEAL_AMOUNT`, unless the player is at full health.
pub fn cast_heal(_inventory_id: usize, objects: &mut Vec<Object>, game: &mut Game) -> (r: UseResult)
    requires
        old(objects)@.len() > 0,
        old(objects)@[0].fighter matches Some(f) ==> (f.hp != f.max_hp ==> f.hp + HEAL_AMOUNT
            <= i32::MAX),
    ensures
        final(game).map == old(game).map,
        final(game).inventory == old(game).inventory,
        heal_outcome(
            old(objects)@,
            final(objects)@,
            log_texts(old(game).log@),
            log_texts(final(game).log@),
            r,
        ),
        all_on_floor(old(game).map@, old(objects)@)
            ==> all_on_floor(final(game).map@, final(objects)@),
        all_within_max(old(objects)@) ==> all_within_max(final(objects)@),
        world_ok(old(game).map@, old(objects)@) ==> world_ok(final(game).map@, final(objects)@),
{
    match objects[PLAYER].fighter {
        Some(fighter) => {
            if fighter.hp == fighter.max_hp {
                add_str(&mut game.log, "You are already at full health.", Color::Red);
                return UseResult::Cancelled;
            }
            add_str(&mut game.log, "Your wounds start to feel better!", Color::LightViolet);
            objects[PLAYER].heal(HEAL_AMOUNT);
            UseResult::UsedUp
        },
        None => UseResult::Cancelled,
    }
}

/// A corpse is never eaten; a player with a fighter thinks better of it,
/// which the log tells.
pub fn eat_corpse(_inventory_id: usize, objects: &mut Vec<Object>, game: &mut Game) -> (r: UseResult)
    requires
        old(objects)@.len() > 0,
    ensures
        r == UseResult::Cancelled,
        final(objects)@ == old(objects)@,
        final(game).map == old(game).map,
        final(game).inventory == old(game).inventory,
        log_texts(final(game).log@) == if old(objects)@[0].fighter is Some {
            log_texts(old(game).log@).push(
                ("You start to dine then think better of it."@, Color::Green),
            )
        } else {
            log_texts(old(game).log@)
        },
        all_on_floor(old(game).map@, old(objects)@)
            ==> all_on_floor(final(game).map@, final(objects)@),
        all_within_max(old(objects)@) ==> all_within_max(final(objects)@),
        world_ok(old(game).map@, old(objects)@) ==> world_ok(final(game).map@, final(objects)@),
{
    if objects[PLAYER].fighter.is_some() {
        add_str(&mut game.log, "You start to dine then think better of it.", Color::Green);
        return UseResult::Cancelled;
    }
    UseResult::Cancelled
}

/// Whether the fireball centred on (x, y) burns the object: it must be a
/// fighter within the radius, compared by squares.
pub open spec fn burns(o: Object, x: int, y: int) -> bool {
    &&& dist_sq(o.x as int, o.y as int, x, y) <= FIREBALL_RADIUS * FIREBALL_RADIUS
    &&& o.fighter is Some
}

/// The log line of an object burned by a fireball.
pub open spec fn burn_text(name: Seq<char>) -> Seq<char> {
    "The "@ + name + " gets burned for "@ + decimal(FIREBALL_DAMAGE as nat) + " hit points."@
}

/// The log line of a fireball's explosion.
pub open spec fn explode_text() -> Seq<char> {
    "The fireball explodes, burning everything within "@ + decimal(FIREBALL_RADIUS as nat)
        + " tiles!"@
}

/// The log after the fireball centred on (x, y) has gone through the first
/// `n` objects: each one burned adds its line and then, if it dies, its
/// death.
pub open spec fn fireball_texts(
    objects: Seq<Object>,
    x: int,
    y: int,
    n: int,
    log: Seq<(Seq<char>, Color)>,
) -> Seq<(Seq<char>, Color)>
    decreases n,
{
    if n <= 0 {
        log
    } else {
        let before = fireball_texts(objects, x, y, n - 1, log);
        let o = objects[n - 1];
        if burns(o, x, y) {
            damage_texts(o, FIREBALL_DAMAGE, before.push((burn_text(o.name@), Color::Orange)))
        } else {
            before
        }
    }
}

/// Whether a fireball centred on (x, y) can be computed for every object.
pub open spec fn fireball_ok(objects: Seq<Object>, x: int, y: int) -> bool {
    forall|j: int|
        0 <= j < objects.len() ==> {
            &&& near_enough(
                (#[trigger] objects[j]).x as int,
                objects[j].y as int,
                x,
                y,
            )
            &&& burns(objects[j], x, y) ==> damage_fits(objects[j], FIREBALL_DAMAGE)
        }
}

/// Throws a fireball at the chosen cell, if one was chosen: every fighter
/// within its radius takes its damage.
pub fn cast_fireball(
    _inventory_id: usize,
    target: Option<(i32, i32)>,
    objects: &mut Vec<Object>,
    game: &mut Game,
) -> (r: UseResult)
    requires
        target matches Some(t) ==> fireball_ok(old(objects)@, t.0 as int, t.1 as int),
    ensures
        final(game).map == old(game).map,
        final(game).inventory == old(game).inventory,
        match target {
            None => {
                &&& r == UseResult::Cancelled
                &&& final(objects)@ == old(objects)@
                &&& final(game).log@ == old(game).log@
            },
            Some(t) => {
                &&& r == UseResult::UsedUp
                &&& final(objects)@.len() == old(objects)@.len()
                &&& forall|j: int|
                    0 <= j < old(objects)@.len() ==> if burns(
                        #[trigger] old(objects)@[j],
                        t.0 as int,
                        t.1 as int,
                    ) {
                        damaged_object(old(objects)@[j], FIREBALL_DAMAGE, final(objects)@[j])
                    } else {
                        final(objects)@[j] == old(objects)@[j]
                    }
                &&& log_texts(final(game).log@) == fireball_texts(
                    old(objects)@,
                    t.0 as int,
                    t.1 as int,
                    old(objects)@.len() as int,
                    log_texts(old(game).log@).push((explode_text(), Color::Orange)),
                )
            },
        },
        all_on_floor(old(game).map@, old(objects)@)
            ==> all_on_floor(final(game).map@, final(objects)@),
        all_within_max(old(objects)@) ==> all_within_max(final(objects)@),
        world_ok(old(game).map@, old(objects)@) ==> world_ok(final(game).map@, final(objects)@),
        target matches Some(t) ==> forall|j: int|
            0 <= j < old(objects)@.len() ==> {
                let o = #[trigger] old(objects)@[j];
                let d = (t.0 - o.x) * (t.0 - o.x) + (t.1 - o.y) * (t.1 - o.y);
                &&& (d > FIREBALL_RADIUS * FIREBALL_RADIUS || o.fighter is None) ==> final(objects)@[j] == o
                &&& (d <= FIREBALL_RADIUS * FIREBALL_RADIUS && o.fighter is Some) ==> damaged_object(
                    o,
                    FIREBALL_DAMAGE,
                    final(objects)@[j],
                )
            },
{
    let (x, y) = match target {
        Some(tile_pos) => tile_pos,
        None => return UseResult::Cancelled,
    };
    let mut text = String::from_str("The fireball explodes, burning everything within ");
    let number = decimal_string(FIREBALL_RADIUS as u32);
    text.append(number.as_str());
    text.append(" tiles!");
    add_message(&mut game.log, text, Color::Orange);
    let ghost before = objects@;
    let ghost base = log_texts(game.log@);
    let mut j: usize = 0;
    while j < objects.len()
        invariant
            fireball_ok(before, x as int, y as int),
            j <= objects@.len(),
            objects@.len() == before.len(),
            game.map == old(game).map,
            game.inventory == old(game).inventory,
            forall|k: int|
                j <= k < before.len() ==> #[trigger] objects@[k] == before[k],
            forall|k: int|
                0 <= k < before.len() ==> (#[trigger] objects@[k]).x == before[k].x && objects@[k].y
                    == before[k].y,
            forall|k: int|
                0 <= k < j ==> if burns(#[trigger] before[k], x as int, y as int) {
                    damaged_object(before[k], FIREBALL_DAMAGE, objects@[k])
                } else {
                    objects@[k] == before[k]
                },
            log_texts(game.log@) == fireball_texts(before, x as int, y as int, j as int, base),
        decreases objects@.len() - j,
    {
        assert(objects@[j as int] == before[j as int]);
        let d = objects[j].distance_sq(x, y);
        if d <= FIREBALL_RADIUS * FIREBALL_RADIUS && objects[j].fighter.is_some() {
            let mut line = String::from_str("The ");
            line.append(objects[j].name.as_str());
            line.append(" gets burned for ");
            let damage = decimal_string(FIREBALL_DAMAGE as u32);
            line.append(damage.as_str());
            line.append(" hit points.");
            add_message(&mut game.log, line, Color::Orange);
            objects[j].take_damage(FIREBALL_DAMAGE, &mut game.log);
        }
        j = j + 1;
    }
    assert(all_on_floor(old(game).map@, old(objects)@) ==> all_on_floor(game.map@, objects@)) by {
        if all_on_floor(old(game).map@, old(objects)@) {
            assert forall|k: int| 0 <= k < objects@.len() implies open_cell(
                game.map@,
                (#[trigger] objects@[k]).x as int,
                objects@[k].y as int,
            ) by {
                assert(open_cell(old(game).map@, before[k].x as int, before[k].y as int));
            }
        }
    }
    UseResult::UsedUp
}

/// The log line of a monster becoming confused.
pub open spec fn confuse_text(name: Seq<char>) -> Seq<char> {
    "The eyes of "@ + name + " look vacent and he starts to stumble around!"@
}

/// The monster confused: for `CONFUSE_NUM_TURNS` turns it stumbles around,
/// then returns to its former behaviour, or to the basic one if it had none.
pub open spec fn confused(o: Object, after: Object) -> bool {
    &&& after.ai matches Some(Ai::Confused { previous_ai, num_turns }) && num_turns
        == CONFUSE_NUM_TURNS && *previous_ai == (match o.ai {
        Some(a) => a,
        None => Ai::Basic,
    })
    &&& after == Object { ai: after.ai, ..o }
}

/// Confuses the chosen monster, if one was chosen.
pub fn cast_confuse(
    _inventory_id: usize,
    target: Option<usize>,
    objects: &mut Vec<Object>,
    game: &mut Game,
) -> (r: UseResult)
    requires
        target matches Some(m) ==> m < old(objects)@.len(),
    ensures
        final(game).map == old(game).map,
        final(game).inventory == old(game).inventory,
        match target {
            None => {
                &&& r == UseResult::Cancelled
                &&& final(objects)@ == old(objects)@
                &&& log_texts(final(game).log@) == log_texts(old(game).log@).push(
                    ("No enemy is close enough to strike."@, Color::Red),
                )
            },
            Some(m) => {
                &&& r == UseResult::UsedUp
                &&& final(objects)@.len() == old(objects)@.len()
                &&& forall|j: int|
                    0 <= j < old(objects)@.len() && j != m ==> final(objects)@[j] == old(
                        objects,
                    )@[j]
                &&& confused(old(objects)@[m as int], final(objects)@[m as int])
                &&& log_texts(final(game).log@) == log_texts(old(game).log@).push(
                    (confuse_text(old(objects)@[m as int].name@), Color::LightGreen),
                )
            },
        },
        all_on_floor(old(game).map@, old(objects)@)
            ==> all_on_floor(final(game).map@, final(objects)@),
        all_within_max(old(objects)@) ==> all_within_max(final(objects)@),
        target != Some(0usize) && world_ok(old(game).map@, old(objects)@)
            ==> world_ok(final(game).map@, final(objects)@),
{
    match target {
        Some(monster_id) => {
            let old_ai = objects[monster_id].ai.take().unwrap_or(Ai::Basic);
            objects[monster_id].ai = Some(
                Ai::Confused { previous_ai: Box::new(old_ai), num_turns: CONFUSE_NUM_TURNS },
            );
            let mut text = String::from_str("The eyes of ");
            text.append(objects[monster_id].name.as_str());
            text.append(" look vacent and he starts to stumble around!");
            add_message(&mut game.log, text, Color::LightGreen);
            UseResult::UsedUp
        },
        None => {
            add_str(&mut game.log, "No enemy is close enough to strike.", Color::Red);
            UseResult::Cancelled
        },
    }
}


/// What using an item leaves to do: nothing, or choosing a target cell for a
/// fireball, or choosing a monster to confuse.
#[derive(Clone, Copy, Debug, PartialEq, Eq, Structural)]
pub enum UseStep {
    Finished,
    ChooseTile,
    ChooseMonster,
}

/// What finishing the use of inventory item `id` with result `r` does: a
/// spent item leaves the inventory; otherwise the log says it was cancelled.
pub open spec fn finished(
    inventory: Seq<Object>,
    id: int,
    r: UseResult,
    inventory_after: Seq<Object>,
    log_before: Seq<(Seq<char>, Color)>,
    log_after: Seq<(Seq<char>, Color)>,
) -> bool {
    match r {
        UseResult::UsedUp => {
            &&& inventory_after == inventory.remove(id)
            &&& log_after == log_before
        },
        UseResult::Cancelled => {
            &&& inventory_after == inventory
            &&& log_after == log_before.push(("Cancelled"@, Color::White))
        },
    }
}

/// Ends the use of the inventory item at `inventory_id`: a spent item is
/// removed, a cancelled use is logged.
pub fn finish_use(inventory_id: usize, result: UseResult, game: &mut Game)
    requires
        result == UseResult::UsedUp ==> inventory_id < old(game).inventory@.len(),
    ensures
        final(game).map == old(game).map,
        finished(
            old(game).inventory@,
            inventory_id as int,
            result,
            final(game).inventory@,
            log_texts(old(game).log@),
            log_texts(final(game).log@),
        ),
        all_within_max(old(game).inventory@) ==> all_within_max(final(game).inventory@),
{
    match result {
        UseResult::UsedUp => {
            game.inventory.remove(inventory_id);
        },
        UseResult::Cancelled => {
            add_str(&mut game.log, "Cancelled", Color::White);
        },
    }
}

/// The prompt for choosing the cell a fireball is thrown at.
pub open spec fn fireball_prompt() -> Seq<char> {
    "Left-click a target tile for the fireball, or right-click to cancel."@
}

/// The prompt for choosing the monster to confuse.
pub open spec fn confuse_prompt() -> Seq<char> {
    "Left-click an enemy to confuse it, or right-click to cancel."@
}

/// Whether using the inventory item at `id` can be carried out.
pub open spec fn use_ok(inventory: Seq<Object>, id: int, objects: Seq<Object>, fov: &Fov) -> bool {
    &&& 0 <= id < inventory.len()
    &&& (inventory[id].item == Some(Item::Heal) || inventory[id].item == Some(Item::Corpse))
        ==> objects.len() > 0
    &&& inventory[id].item == Some(Item::Heal) ==> (objects[0].fighter matches Some(f) ==> (f.hp
        != f.max_hp ==> f.hp + HEAL_AMOUNT <= i32::MAX))
    &&& inventory[id].item == Some(Item::Lightning) ==> lightning_ok(objects, fov)
}

/// Uses the inventory item at `inventory_id`. Potions, lightning and corpses
/// take effect at once and the use is finished; fireball and confusion
/// scrolls show their prompt and wait for a target to be chosen.
pub fn use_item(inventory_id: usize, game: &mut Game, objects: &mut Vec<Object>, fov: &Fov) -> (step: UseStep)
    requires
        use_ok(old(game).inventory@, inventory_id as int, old(objects)@, fov),
    ensures
        final(game).map == old(game).map,
        ({
            let inv = old(game).inventory@;
            let item = inv[inventory_id as int];
            let lb = log_texts(old(game).log@);
            let la = log_texts(final(game).log@);
            match item.item {
                None => {
                    &&& step == UseStep::Finished
                    &&& final(objects)@ == old(objects)@
                    &&& final(game).inventory@ == inv
                    &&& la == lb.push(("The "@ + item.name@ + " cannot be used."@, Color::White))
                },
                Some(Item::Heal) => {
                    &&& step == UseStep::Finished
                    &&& exists|mid: Seq<(Seq<char>, Color)>, r: UseResult|
                        #[trigger] heal_outcome(old(objects)@, final(objects)@, lb, mid, r)
                            && finished(inv, inventory_id as int, r, final(game).inventory@, mid, la)
                },
                Some(Item::Lightning) => {
                    &&& step == UseStep::Finished
                    &&& exists|mid: Seq<(Seq<char>, Color)>, r: UseResult|
                        #[trigger] lightning_outcome(old(objects)@, fov, final(objects)@, lb, mid, r)
                            && finished(inv, inventory_id as int, r, final(game).inventory@, mid, la)
                },
                Some(Item::Corpse) => {
                    &&& step == UseStep::Finished
                    &&& final(objects)@ == old(objects)@
                    &&& final(game).inventory@ == inv
                    &&& la == (if old(objects)@[0].fighter is Some {
                        lb.push(("You start to dine then think better of it."@, Color::Green))
                    } else {
                        lb
                    }).push(("Cancelled"@, Color::White))
                },
                Some(Item::Fireball) => {
                    &&& step == UseStep::ChooseTile
                    &&& final(objects)@ == old(objects)@
                    &&& final(game).inventory@ == inv
                    &&& la == lb.push((fireball_prompt(), Color::LightCyan))
                },
                Some(Item::Confuse) => {
                    &&& step == UseStep::ChooseMonster
                    &&& final(objects)@ == old(objects)@
                    &&& final(game).inventory@ == inv
                    &&& la == lb.push((confuse_prompt(), Color::LightCyan))
                },
            }
        }),
        all_on_floor(old(game).map@, old(objects)@)
            ==> all_on_floor(final(game).map@, final(objects)@),
        all_within_max(old(objects)@) && all_within_max(old(game).inventory@)
            ==> all_within_max(final(objects)@) && all_within_max(final(game).inventory@),
        world_ok(old(game).map@, old(objects)@) && all_modest(old(game).inventory@)
            ==> world_ok(final(game).map@, final(objects)@) && all_modest(final(game).inventory@),
{
    match game.inventory[inventory_id].item {
        Some(item) => {
            match item {
                Item::Heal => {
                    let ghost lb = log_texts(game.log@);
                    let r = cast_heal(inventory_id, objects, game);
                    let ghost mid = log_texts(game.log@);
                    finish_use(inventory_id, r, game);
                    assert(heal_outcome(old(objects)@, objects@, lb, mid, r));
                    UseStep::Finished
                },
                Item::Lightning => {
                    let ghost lb = log_texts(game.log@);
                    let r = cast_lightning(inventory_id, objects, game, fov);
                    let ghost mid = log_texts(game.log@);
                    finish_use(inventory_id, r, game);
                    assert(lightning_outcome(old(objects)@, fov, objects@, lb, mid, r));
                    UseStep::Finished
                },
                Item::Corpse => {
                    let r = eat_corpse(inventory_id, objects, game);
                    finish_use(inventory_id, r, game);
                    UseStep::Finished
                },
                Item::Fireball => {
                    add_str(
                        &mut game.log,
                        "Left-click a target tile for the fireball, or right-click to cancel.",
                        Color::LightCyan,
                    );
                    UseStep::ChooseTile
                },
                Item::Confuse => {
                    add_str(
                        &mut game.log,
                        "Left-click an enemy to confuse it, or right-click to cancel.",
                        Color::LightCyan,
                    );
                    UseStep::ChooseMonster
                },
            }
        },
        None => {
            let mut text = String::from_str("The ");
            text.append(game.inventory[inventory_id].name.as_str());
            text.append(" cannot be used.");
            add_message(&mut game.log, text, Color::White);
            UseStep::Finished
        },
    }
}


/// Only one monster can be the closest.
pub proof fn lemma_closest_unique(objects: Seq<Object>, fov: &Fov, range: int, i: usize, j: usize)
    requires
        is_closest(objects, fov, range, Some(i)),
        is_closest(objects, fov, range, Some(j)),
    ensures
        i == j,
{
    assert(player_dist(objects, i as int) <= player_dist(objects, j as int));
    assert(player_dist(objects, j as int) <= player_dist(objects, i as int));
}

/// Whether every monster could be looked at: exactly when
/// `monsters_measurable` holds.
fn measurable_now(objects: &Vec<Object>, fov: &Fov) -> (b: bool)
    ensures
        b == monsters_measurable(objects@, fov),
{
    let mut id: usize = 1;
    while id < objects.len()
        invariant
            1 <= id <= objects@.len() + 1,
            forall|j: int|
                1 <= j < id ==> ((#[trigger] objects@[j]).fighter is Some && objects@[j].ai is Some)
                    ==> {
                    &&& in_fov_bounds(fov, objects@[j].x as int, objects@[j].y as int)
                    &&& sees(fov, objects@[j].x as int, objects@[j].y as int) ==> near_enough(
                        objects@[0].x as int,
                        objects@[0].y as int,
                        objects@[j].x as int,
                        objects@[j].y as int,
                    )
                },
        decreases objects@.len() - id,
    {
        let o = &objects[id];
        if o.fighter.is_some() && o.ai.is_some() {
            if !fov.covers(o.x, o.y) || (fov.is_in_fov(o.x, o.y) && !near_now(
                objects[PLAYER].x,
                objects[PLAYER].y,
                o.x,
                o.y,
            )) {
                assert(objects@[id as int] == *o);
                return false;
            }
        }
        id = id + 1;
    }
    true
}

/// Whether casting lightning can be carried out: exactly when
/// `lightning_ok` holds.
pub fn lightning_ready(objects: &Vec<Object>, fov: &Fov) -> (b: bool)
    ensures
        b == lightning_ok(objects@, fov),
{
    if !measurable_now(objects, fov) {
        return false;
    }
    match closest_monster(LIGHTNING_RANGE, objects, fov) {
        Some(i) => {
            proof {
                assert forall|j: usize| #[trigger]
                    is_closest(objects@, fov, LIGHTNING_RANGE as int, Some(j)) implies j == i by {
                    lemma_closest_unique(objects@, fov, LIGHTNING_RANGE as int, i, j);
                }
            }
            damage_fits_now(&objects[i], LIGHTNING_DAMAGE)
        },
        None => {
            proof {
                assert forall|j: usize| #[trigger]
                    is_closest(objects@, fov, LIGHTNING_RANGE as int, Some(j)) implies damage_fits(
                    objects@[j as int],
                    LIGHTNING_DAMAGE,
                ) by {
                    assert(visible_monster(objects@, fov, j as int));
                }
            }
            true
        },
    }
}

/// Whether using the inventory item at `inventory_id` can be carried out:
/// exactly when `use_ok` holds.
pub fn use_ready(inventory_id: usize, game: &Game, objects: &Vec<Object>, fov: &Fov) -> (b: bool)
    ensures
        b == use_ok(game.inventory@, inventory_id as int, objects@, fov),
{
    if inventory_id >= game.inventory.len() {
        return false;
    }
    match game.inventory[inventory_id].item {
        Some(Item::Heal) => objects.len() > 0 && match objects[PLAYER].fighter {
            Some(f) => f.hp == f.max_hp || f.hp as i64 + HEAL_AMOUNT as i64 <= i32::MAX as i64,
            None => true,
        },
        Some(Item::Corpse) => objects.len() > 0,
        Some(Item::Lightning) => lightning_ready(objects, fov),
        _ => true,
    }
}

/// Whether a fireball can be thrown at (x, y): exactly when `fireball_ok`
/// holds.
pub fn fireball_ready(objects: &Vec<Object>, x: i32, y: i32) -> (b: bool)
    ensures
        b == fireball_ok(objects@, x as int, y as int),
{
    let mut j: usize = 0;
    while j < objects.len()
        invariant
            j <= objects@.len(),
            forall|k: int|
                0 <= k < j ==> {
                    &&& near_enough(
                        (#[trigger] objects@[k]).x as int,
                        objects@[k].y as int,
                        x as int,
                        y as int,
                    )
                    &&& burns(objects@[k], x as int, y as int) ==> damage_fits(
                        objects@[k],
                        FIREBALL_DAMAGE,
                    )
                },
        decreases objects@.len() - j,
    {
        let o = &objects[j];
        if !near_now(o.x, o.y, x, y) {
            assert(objects@[j as int] == *o);
            return false;
        }
        let d = o.distance_sq(x, y);
        if d <= FIREBALL_RADIUS * FIREBALL_RADIUS && o.fighter.is_some() && !damage_fits_now(
            o,
            FIREBALL_DAMAGE,
        ) {
            assert(objects@[j as int] == *o);
            return false;
        }
        j = j + 1;
    }
    true
}


/// A fireball burns exactly the fighters whose squared distance to the cell
/// it hits is at most the square of its radius.
pub proof fn lemma_fireball_reach(o: Object, x: int, y: int)
    ensures
        burns(o, x, y) == ((x - o.x) * (x - o.x) + (y - o.y) * (y - o.y) <= FIREBALL_RADIUS
            * FIREBALL_RADIUS && o.fighter is Some),
{
}

} // verus!


