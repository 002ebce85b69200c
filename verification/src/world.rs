use vstd::prelude::*;
use vstd::string::StringExecFns;
use crate::map::{Tile, TileMap, closed_border, map_shape, on_map, on_map_at, open_cell, tile_at};
use crate::messages::{Color, Messages, add_message, log_texts};
use crate::object::{
    DeathCallback, Object, all_modest, all_within_max, attack_fits, attack_ok, attack_outcome,
    lemma_near_bounds, near_enough,
};

verus! {

/// Width of the screen in cells.
pub const SCREEN_WIDTH: i32 = 90;
/// Height of the screen in cells.
pub const SCREEN_HEIGHT: i32 = 60;
/// Height of the panel under the map.
pub const PANEL_HEIGHT: i32 = 7;
/// Width of the map in cells.
pub const MAP_WIDTH: i32 = SCREEN_WIDTH;
/// Height of the map in cells.
pub const MAP_HEIGHT: i32 = SCREEN_HEIGHT - PANEL_HEIGHT;
/// Index of the player among the objects.
pub const PLAYER: usize = 0;
/// Most items the inventory holds.
pub const INVENTORY_SIZE: usize = 26;

/// Everything about a game but its objects: the map, the message log and
/// the player's inventory.
pub struct Game {
    pub map: TileMap,
    pub log: Messages,
    pub inventory: Vec<Object>,
}

/// Whether some blocking object stands at (x, y).
pub open spec fn object_blocks(objects: Seq<Object>, x: int, y: int) -> bool {
    exists|i: int|
        0 <= i < objects.len() && #[trigger] objects[i].blocks && objects[i].x == x && objects[i].y
            == y
}

/// Whether (x, y) cannot be entered: a blocking tile or a blocking object.
pub open spec fn blocked_at(map: Seq<Vec<Tile>>, objects: Seq<Object>, x: int, y: int) -> bool {
    tile_at(map, x, y).blocked || object_blocks(objects, x, y)
}

/// Whether every object stands on an open cell of the map. Every move,
/// pick-up, drop, attack, spell and monster turn keeps this, and a new map
/// starts with it.
pub open spec fn all_on_floor(map: Seq<Vec<Tile>>, objects: Seq<Object>) -> bool {
    forall|k: int|
        0 <= k < objects.len() ==> open_cell(map, (#[trigger] objects[k]).x as int, objects[k].y as int)
}

/// Whether a world is in the shape the game keeps it in: a walled map of the
/// game's size; a player first among the objects, without behaviour or
/// item, who dies as the player; every object on an open cell and with
/// modest fighting statistics.
pub open spec fn world_ok(map: Seq<Vec<Tile>>, objects: Seq<Object>) -> bool {
    &&& map_shape(map, MAP_WIDTH as int, MAP_HEIGHT as int)
    &&& closed_border(map, MAP_WIDTH as int, MAP_HEIGHT as int)
    &&& objects.len() > 0
    &&& objects[0].ai is None
    &&& objects[0].item is None
    &&& objects[0].fighter matches Some(f) ==> f.on_death == DeathCallback::Player
    &&& all_on_floor(map, objects)
    &&& all_modest(objects)
}

/// Whether (x, y) is a wall cell or holds a blocking object.
pub fn is_blocked(x: i32, y: i32, map: &TileMap, objects: &Vec<Object>) -> (b: bool)
    requires
        on_map(map@, x as int, y as int),
    ensures
        b == blocked_at(map@, objects@, x as int, y as int),
{
    if map[x as usize][y as usize].blocked {
        return true;
    }
    let mut i: usize = 0;
    while i < objects.len()
        invariant
            i <= objects@.len(),
            forall|j: int|
                0 <= j < i ==> !(#[trigger] objects@[j].blocks && objects@[j].x == x
                    && objects@[j].y == y),
        decreases objects@.len() - i,
    {
        if objects[i].blocks && objects[i].x == x && objects[i].y == y {
            return true;
        }
        i = i + 1;
    }
    false
}

/// The object moved to (x, y), all else kept.
pub open spec fn placed(o: Object, x: int, y: int) -> Object {
    Object { x: x as i32, y: y as i32, ..o }
}

/// Whether an object at `id` can take a step by (dx, dy) without leaving
/// `i32` or the map.
pub open spec fn step_fits(map: Seq<Vec<Tile>>, objects: Seq<Object>, id: int, dx: int, dy: int) -> bool {
    &&& 0 <= id < objects.len()
    &&& i32::MIN <= objects[id].x + dx <= i32::MAX
    &&& i32::MIN <= objects[id].y + dy <= i32::MAX
    &&& on_map(map, objects[id].x + dx, objects[id].y + dy)
}

/// The objects after the one at `id` tried to step by (dx, dy): it moves
/// unless the cell it steps onto is blocked.
pub open spec fn stepped(map: Seq<Vec<Tile>>, objects: Seq<Object>, id: int, dx: int, dy: int) -> Seq<Object> {
    let nx = objects[id].x + dx;
    let ny = objects[id].y + dy;
    if blocked_at(map, objects, nx, ny) {
        objects
    } else {
        objects.update(id, placed(objects[id], nx, ny))
    }
}

/// Moves the object at `id` by (dx, dy) unless the cell it would step onto
/// is blocked.
pub fn move_by(id: usize, dx: i32, dy: i32, map: &TileMap, objects: &mut Vec<Object>)
    requires
        step_fits(map@, old(objects)@, id as int, dx as int, dy as int),
    ensures
        final(objects)@ == stepped(map@, old(objects)@, id as int, dx as int, dy as int),
        all_on_floor(map@, old(objects)@) ==> all_on_floor(map@, final(objects)@),
        all_within_max(old(objects)@) ==> all_within_max(final(objects)@),
{
    let (x, y) = objects[id].pos();
    if !is_blocked(x + dx, y + dy, map, objects) {
        objects[id].set_pos(x + dx, y + dy);
    }
}


/// The sign of an integer: -1, 0 or 1.
pub open spec fn sign(d: int) -> int {
    if d > 0 {
        1
    } else if d < 0 {
        -1
    } else {
        0
    }
}

/// One coordinate of the step toward a target that lies `d` away along this
/// axis and `other` away along the other axis: the unit vector toward the
/// target, rounded half away from zero. Its coordinate is at least one half
/// exactly when 4d^2 >= d^2 + other^2, that is when 3d^2 >= other^2; then the
/// step follows the sign of `d`, else it is zero.
pub open spec fn step_toward(d: int, other: int) -> int {
    if 3 * d * d >= other * other {
        sign(d)
    } else {
        0
    }
}

/// One coordinate of the unit step toward a target `d` away along this
/// axis and `other` away along the other.
pub(crate) fn step_component(d: i32, other: i32) -> (s: i32)
    requires
        -46340 <= d <= 46340,
        -46340 <= other <= 46340,
    ensures
        s == step_toward(d as int, other as int),
        -1 <= s <= 1,
{
    assert(0 <= 3 * d * d <= 3 * 46340 * 46340) by (nonlinear_arith)
        requires
            -46340 <= d <= 46340,
    ;
    assert(0 <= other * other <= 46340 * 46340) by (nonlinear_arith)
        requires
            -46340 <= other <= 46340,
    ;
    let dd = d as i64;
    let oo = other as i64;
    if 3 * dd * dd >= oo * oo {
        if d > 0 {
            1
        } else if d < 0 {
            -1
        } else {
            0
        }
    } else {
        0
    }
}

/// The step, each coordinate -1, 0 or 1, that an object at (x, y) takes
/// toward (tx, ty).
pub open spec fn step_to(x: int, y: int, tx: int, ty: int) -> (int, int) {
    (step_toward(tx - x, ty - y), step_toward(ty - y, tx - x))
}

/// Moves the object at `id` one step toward (target_x, target_y), unless the
/// cell of that step is blocked.
pub fn move_towards(id: usize, target_x: i32, target_y: i32, map: &TileMap, objects: &mut Vec<Object>)
    requires
        0 <= id < old(objects)@.len(),
        near_enough(
            old(objects)@[id as int].x as int,
            old(objects)@[id as int].y as int,
            target_x as int,
            target_y as int,
        ),
        ({
            let o = old(objects)@[id as int];
            let st = step_to(o.x as int, o.y as int, target_x as int, target_y as int);
            step_fits(map@, old(objects)@, id as int, st.0, st.1)
        }),
    ensures
        ({
            let o = old(objects)@[id as int];
            let st = step_to(o.x as int, o.y as int, target_x as int, target_y as int);
            final(objects)@ == stepped(map@, old(objects)@, id as int, st.0, st.1)
        }),
        all_on_floor(map@, old(objects)@) ==> all_on_floor(map@, final(objects)@),
        all_within_max(old(objects)@) ==> all_within_max(final(objects)@),
{
    proof {
        lemma_near_bounds(
            objects@[id as int].x as int,
            objects@[id as int].y as int,
            target_x as int,
            target_y as int,
        );
    }
    let dx = target_x - objects[id].x;
    let dy = target_y - objects[id].y;
    let sx = step_component(dx, dy);
    let sy = step_component(dy, dx);
    move_by(id, sx, sy, map, objects);
}

/// Whether the object is a fighter standing at (x, y).
pub open spec fn fighter_at(o: Object, x: int, y: int) -> bool {
    o.fighter is Some && o.x == x && o.y == y
}

/// Whether `t` is the first index of a fighter standing at (x, y).
pub open spec fn first_fighter_at(objects: Seq<Object>, t: int, x: int, y: int) -> bool {
    &&& 0 <= t < objects.len()
    &&& fighter_at(objects[t], x, y)
    &&& forall|j: int| 0 <= j < t ==> !fighter_at(#[trigger] objects[j], x, y)
}

/// Whether no fighter stands at (x, y).
pub open spec fn no_fighter_at(objects: Seq<Object>, x: int, y: int) -> bool {
    forall|j: int| 0 <= j < objects.len() ==> !fighter_at(#[trigger] objects[j], x, y)
}

/// The index of the first fighter standing at (x, y), if any.
pub fn fighter_position(objects: &Vec<Object>, x: i32, y: i32) -> (r: Option<usize>)
    ensures
        match r {
            Some(t) => first_fighter_at(objects@, t as int, x as int, y as int),
            None => no_fighter_at(objects@, x as int, y as int),
        },
{
    let mut i: usize = 0;
    while i < objects.len()
        invariant
            i <= objects@.len(),
            forall|j: int| 0 <= j < i ==> !fighter_at(#[trigger] objects@[j], x as int, y as int),
        decreases objects@.len() - i,
    {
        if objects[i].fighter.is_some() && objects[i].x == x && objects[i].y == y {
            return Some(i);
        }
        i = i + 1;
    }
    None
}

/// Whether the player can be moved by (dx, dy) without leaving `i32`, and
/// what waits at the cell it moves to can be handled: another fighter the
/// player can attack, or, when there is none, a cell of the map.
pub open spec fn player_turn_ok(map: Seq<Vec<Tile>>, objects: Seq<Object>, dx: int, dy: int) -> bool {
    &&& objects.len() > 0
    &&& i32::MIN <= objects[0].x + dx <= i32::MAX
    &&& i32::MIN <= objects[0].y + dy <= i32::MAX
    &&& forall|t: int|
        first_fighter_at(objects, t, objects[0].x + dx, objects[0].y + dy) ==> t != 0 && attack_ok(
            objects[0],
            #[trigger] objects[t],
        )
    &&& no_fighter_at(objects, objects[0].x + dx, objects[0].y + dy) ==> on_map(
        map,
        objects[0].x + dx,
        objects[0].y + dy,
    )
}

/// Whether the player's move by (dx, dy) can be carried out: exactly when
/// `player_turn_ok` holds.
pub fn move_ready(dx: i32, dy: i32, map: &TileMap, objects: &Vec<Object>) -> (b: bool)
    ensures
        b == player_turn_ok(map@, objects@, dx as int, dy as int),
{
    if objects.len() == 0 {
        return false;
    }
    let x = objects[PLAYER].x as i64 + dx as i64;
    let y = objects[PLAYER].y as i64 + dy as i64;
    if x < i32::MIN as i64 || x > i32::MAX as i64 || y < i32::MIN as i64 || y > i32::MAX as i64 {
        return false;
    }
    match fighter_position(objects, x as i32, y as i32) {
        Some(t) => {
            proof {
                assert forall|u: int| first_fighter_at(objects@, u, x as int, y as int) implies u
                    == t by {
                    if u < t {
                        assert(!fighter_at(objects@[u], x as int, y as int));
                    } else if u > t {
                        assert(!fighter_at(objects@[t as int], x as int, y as int));
                    }
                }
                assert(!no_fighter_at(objects@, x as int, y as int)) by {
                    assert(fighter_at(objects@[t as int], x as int, y as int));
                }
            }
            t != PLAYER && attack_fits(&objects[PLAYER], &objects[t])
        },
        None => on_map_at(map, x, y),
    }
}

/// What the player's move by (dx, dy) does: when a fighter stands on the
/// target cell the player attacks the first such one, else the player steps
/// there unless it is blocked.
pub open spec fn player_turn(
    map: Seq<Vec<Tile>>,
    objects: Seq<Object>,
    dx: int,
    dy: int,
    objects_after: Seq<Object>,
    log_before: Seq<(Seq<char>, Color)>,
    log_after: Seq<(Seq<char>, Color)>,
) -> bool {
    let x = objects[0].x + dx;
    let y = objects[0].y + dy;
    &&& no_fighter_at(objects, x, y) ==> {
        &&& objects_after == stepped(map, objects, 0, dx, dy)
        &&& log_after == log_before
    }
    &&& forall|t: int|
        first_fighter_at(objects, t, x, y) ==> {
            &&& objects_after.len() == objects.len()
            &&& forall|j: int| 0 <= j < objects.len() && j != t ==> objects_after[j] == objects[j]
            &&& attack_outcome(objects[0], #[trigger] objects[t], objects_after[t], log_before, log_after)
        }
}

/// The player moves by (dx, dy), or attacks the fighter standing there.
pub fn player_move_or_attack(dx: i32, dy: i32, game: &mut Game, objects: &mut Vec<Object>)
    requires
        player_turn_ok(old(game).map@, old(objects)@, dx as int, dy as int),
    ensures
        player_turn(
            old(game).map@,
            old(objects)@,
            dx as int,
            dy as int,
            final(objects)@,
            log_texts(old(game).log@),
            log_texts(final(game).log@),
        ),
        final(game).map == old(game).map,
        final(game).inventory == old(game).inventory,
        all_on_floor(old(game).map@, old(objects)@)
            ==> all_on_floor(final(game).map@, final(objects)@),
        all_within_max(old(objects)@) ==> all_within_max(final(objects)@),
        world_ok(old(game).map@, old(objects)@) ==> world_ok(final(game).map@, final(objects)@),
{
    let x = objects[PLAYER].x + dx;
    let y = objects[PLAYER].y + dy;
    let target_id = fighter_position(objects, x, y);
    match target_id {
        Some(target_id) => {
            let ghost before = objects@;
            let mut target = objects.remove(target_id);
            let mut player = objects.remove(PLAYER);
            player.attack(&mut target, &mut game.log);
            objects.insert(PLAYER, player);
            objects.insert(target_id, target);
            assert forall|j: int| 0 <= j < before.len() && j != target_id implies objects@[j]
                == before[j] by {
                if j < target_id {
                } else {
                }
            }
            assert(forall|t: int| first_fighter_at(before, t, x as int, y as int) ==> t == target_id);
        },
        None => {
            move_by(PLAYER, dx, dy, &game.map, objects);
        },
    }
}

/// What picking up the object at `id` does: with a full inventory the log
/// says it cannot be picked up; otherwise it leaves the objects, taking the
/// last object's place, and joins the end of the inventory.
pub open spec fn picked_up(
    objects: Seq<Object>,
    inventory: Seq<Object>,
    id: int,
    objects_after: Seq<Object>,
    inventory_after: Seq<Object>,
    log_before: Seq<(Seq<char>, Color)>,
    log_after: Seq<(Seq<char>, Color)>,
) -> bool {
    if inventory.len() >= INVENTORY_SIZE {
        &&& objects_after == objects
        &&& inventory_after == inventory
        &&& log_after == log_before.push(
            ("Your inventory is full, cannot pick up "@ + objects[id].name@ + "."@, Color::Red),
        )
    } else {
        &&& objects_after == objects.update(id, objects.last()).drop_last()
        &&& inventory_after == inventory.push(objects[id])
        &&& log_after == log_before.push(
            ("You picked up a "@ + objects[id].name@ + "!"@, Color::Green),
        )
    }
}

/// Picks up the object at `object_id` into the inventory, unless the
/// inventory is full.
pub fn pick_item_up(object_id: usize, game: &mut Game, objects: &mut Vec<Object>)
    requires
        object_id < old(objects)@.len(),
    ensures
        picked_up(
            old(objects)@,
            old(game).inventory@,
            object_id as int,
            final(objects)@,
            final(game).inventory@,
            log_texts(old(game).log@),
            log_texts(final(game).log@),
        ),
        final(game).map == old(game).map,
        all_on_floor(old(game).map@, old(objects)@)
            ==> all_on_floor(final(game).map@, final(objects)@),
        all_within_max(old(objects)@) && all_within_max(old(game).inventory@)
            ==> all_within_max(final(objects)@) && all_within_max(final(game).inventory@),
        object_id != 0 && world_ok(old(game).map@, old(objects)@) && all_modest(old(game).inventory@)
            ==> world_ok(final(game).map@, final(objects)@) && all_modest(final(game).inventory@),
{
    if game.inventory.len() >= INVENTORY_SIZE {
        let mut text = String::from_str("Your inventory is full, cannot pick up ");
        text.append(objects[object_id].name.as_str());
        text.append(".");
        add_message(&mut game.log, text, Color::Red);
    } else {
        let item = objects.swap_remove(object_id);
        let mut text = String::from_str("You picked up a ");
        text.append(item.name.as_str());
        text.append("!");
        add_message(&mut game.log, text, Color::Green);
        game.inventory.push(item);
    }
}

/// What dropping the inventory item at `id` does: it leaves the inventory
/// and joins the end of the objects at the player's position.
pub open spec fn dropped(
    objects: Seq<Object>,
    inventory: Seq<Object>,
    id: int,
    objects_after: Seq<Object>,
    inventory_after: Seq<Object>,
    log_before: Seq<(Seq<char>, Color)>,
    log_after: Seq<(Seq<char>, Color)>,
) -> bool {
    &&& inventory_after == inventory.remove(id)
    &&& objects_after == objects.push(placed(inventory[id], objects[0].x as int, objects[0].y as int))
    &&& log_after == log_before.push(("You dropped a "@ + inventory[id].name@, Color::Yellow))
}

/// Drops the inventory item at `inventory_id` where the player stands.
pub fn drop_item(inventory_id: usize, game: &mut Game, objects: &mut Vec<Object>)
    requires
        inventory_id < old(game).inventory@.len(),
        old(objects)@.len() > 0,
    ensures
        dropped(
            old(objects)@,
            old(game).inventory@,
            inventory_id as int,
            final(objects)@,
            final(game).inventory@,
            log_texts(old(game).log@),
            log_texts(final(game).log@),
        ),
        final(game).map == old(game).map,
        all_on_floor(old(game).map@, old(objects)@)
            ==> all_on_floor(final(game).map@, final(objects)@),
        all_within_max(old(objects)@) && all_within_max(old(game).inventory@)
            ==> all_within_max(final(objects)@) && all_within_max(final(game).inventory@),
        world_ok(old(game).map@, old(objects)@) && all_modest(old(game).inventory@)
            ==> world_ok(final(game).map@, final(objects)@) && all_modest(final(game).inventory@),
{
    let mut item = game.inventory.remove(inventory_id);
    item.set_pos(objects[PLAYER].x, objects[PLAYER].y);
    let mut text = String::from_str("You dropped a ");
    text.append(item.name.as_str());
    add_message(&mut game.log, text, Color::Yellow);
    objects.push(item);
}

/// Picking up and dropping neither makes nor destroys objects: the objects
/// on the map and in the inventory together stay as many as before.
pub proof fn lemma_items_conserved(
    objects: Seq<Object>,
    inventory: Seq<Object>,
    id: int,
    objects_after: Seq<Object>,
    inventory_after: Seq<Object>,
    log_before: Seq<(Seq<char>, Color)>,
    log_after: Seq<(Seq<char>, Color)>,
)
    requires
        0 <= id < objects.len(),
        picked_up(objects, inventory, id, objects_after, inventory_after, log_before, log_after),
    ensures
        objects_after.len() + inventory_after.len() == objects.len() + inventory.len(),
{
}

/// Dropping keeps the number of objects on the map and in the inventory.
pub proof fn lemma_drop_conserves(
    objects: Seq<Object>,
    inventory: Seq<Object>,
    id: int,
    objects_after: Seq<Object>,
    inventory_after: Seq<Object>,
    log_before: Seq<(Seq<char>, Color)>,
    log_after: Seq<(Seq<char>, Color)>,
)
    requires
        0 <= id < inventory.len(),
        dropped(objects, inventory, id, objects_after, inventory_after, log_before, log_after),
    ensures
        objects_after.len() + inventory_after.len() == objects.len() + inventory.len(),
{
}

/// The inventory never grows past its limit: picking up into an inventory
/// within the limit leaves it within the limit.
pub proof fn lemma_inventory_bounded(
    objects: Seq<Object>,
    inventory: Seq<Object>,
    id: int,
    objects_after: Seq<Object>,
    inventory_after: Seq<Object>,
    log_before: Seq<(Seq<char>, Color)>,
    log_after: Seq<(Seq<char>, Color)>,
)
    requires
        0 <= id < objects.len(),
        inventory.len() <= INVENTORY_SIZE,
        picked_up(objects, inventory, id, objects_after, inventory_after, log_before, log_after),
    ensures
        inventory_after.len() <= INVENTORY_SIZE,
{
}

/// Dropping what was just picked up puts it back on the map at the player's
/// place and leaves the inventory as it was before.
pub proof fn lemma_pick_then_drop(
    objects: Seq<Object>,
    inventory: Seq<Object>,
    id: int,
    objects_mid: Seq<Object>,
    inventory_mid: Seq<Object>,
    objects_after: Seq<Object>,
    inventory_after: Seq<Object>,
    log0: Seq<(Seq<char>, Color)>,
    log1: Seq<(Seq<char>, Color)>,
    log2: Seq<(Seq<char>, Color)>,
)
    requires
        0 < id < objects.len(),
        inventory.len() < INVENTORY_SIZE,
        picked_up(objects, inventory, id, objects_mid, inventory_mid, log0, log1),
        dropped(objects_mid, inventory_mid, inventory.len() as int, objects_after, inventory_after, log1, log2),
    ensures
        inventory_after == inventory,
        objects_after.last() == placed(objects[id], objects[0].x as int, objects[0].y as int),
{
    assert(inventory_after =~= inventory);
}

} // verus!

