use vstd::prelude::*;
use vstd::string::StringExecFns;
use crate::fov::{Fov, in_fov_bounds, sees};
use crate::map::{Tile, TileMap, on_map, open_cell, same_shape, tile_at};
use crate::messages::log_texts;
use crate::object::{Object, all_modest, all_within_max, dist_sq, near_enough};
use crate::world::{
    Game, INVENTORY_SIZE, MAP_HEIGHT, MAP_WIDTH, PLAYER, all_on_floor, move_ready, picked_up,
    world_ok,
    pick_item_up,
    player_turn, player_turn_ok, player_move_or_attack,
};

verus! {

/// The keys the game tells apart.
#[derive(Clone, Copy, Debug, PartialEq, Eq, Structural)]
pub enum KeyCode {
    Up,
    Down,
    Left,
    Right,
    Enter,
    Escape,
    Other,
}

/// A key press: which key, the character it types, and whether Alt was held.
#[derive(Clone, Copy, Debug, PartialEq, Eq, Structural)]
pub struct Key {
    pub code: KeyCode,
    pub printable: char,
    pub alt: bool,
}

/// What the player's key press amounted to.
#[derive(Clone, Copy, Debug, PartialEq, Eq, Structural)]
pub enum PlayerAction {
    TookTurn,
    DidntTakeTurn,
    Exit,
}

/// What handling a key leaves to do: nothing more, or showing the
/// inventory to pick an item to drop or to use, or switching full screen.
/// After a menu, and after a pick, the player has taken a turn; switching
/// full screen takes none.
#[derive(Clone, Copy, Debug, PartialEq, Eq, Structural)]
pub enum KeyOutcome {
    Done(PlayerAction),
    DropMenu,
    UseMenu,
    ToggleFullscreen,
}

/// What a key means, in the order the game checks: the arrow keys move (or
/// attack) and 'g', 'd', 'i' pick up, drop and use, all only while the
/// player is alive; Alt+Enter switches full screen and Escape leaves, alive
/// or not; any other key does nothing.
pub enum Command {
    Move(i32, i32),
    PickUp,
    Drop,
    Use,
    Fullscreen,
    Exit,
    Nothing,
}

/// The command a key stands for.
pub open spec fn command(key: Key, alive: bool) -> Command {
    if key.code == KeyCode::Up && alive {
        Command::Move(0i32, -1i32)
    } else if key.code == KeyCode::Down && alive {
        Command::Move(0i32, 1i32)
    } else if key.code == KeyCode::Left && alive {
        Command::Move(-1i32, 0i32)
    } else if key.code == KeyCode::Right && alive {
        Command::Move(1i32, 0i32)
    } else if key.printable == 'g' && alive {
        Command::PickUp
    } else if key.printable == 'd' && alive {
        Command::Drop
    } else if key.printable == 'i' && alive {
        Command::Use
    } else if key.code == KeyCode::Enter && key.alt {
        Command::Fullscreen
    } else if key.code == KeyCode::Escape {
        Command::Exit
    } else {
        Command::Nothing
    }
}

/// Whether the object at `k` is an item lying where the player stands.
pub open spec fn item_under_player(objects: Seq<Object>, k: int) -> bool {
    &&& objects[k].x == objects[0].x
    &&& objects[k].y == objects[0].y
    &&& objects[k].item is Some
}

/// The first object that is an item lying where the player stands, if any.
pub fn item_under(objects: &Vec<Object>) -> (r: Option<usize>)
    ensures
        match r {
            Some(k) => {
                &&& k < objects@.len()
                &&& item_under_player(objects@, k as int)
                &&& forall|j: int| 0 <= j < k ==> !#[trigger] item_under_player(objects@, j)
            },
            None => forall|j: int|
                0 <= j < objects@.len() ==> !#[trigger] item_under_player(objects@, j),
        },
{
    let mut i: usize = 0;
    while i < objects.len()
        invariant
            i <= objects@.len(),
            forall|j: int| 0 <= j < i ==> !#[trigger] item_under_player(objects@, j),
        decreases objects@.len() - i,
    {
        if objects[i].x == objects[PLAYER].x && objects[i].y == objects[PLAYER].y
            && objects[i].item.is_some() {
            return Some(i);
        }
        i = i + 1;
    }
    None
}

/// Whether the command a key stands for can be carried out.
pub open spec fn key_ok(key: Key, map: Seq<Vec<Tile>>, objects: Seq<Object>) -> bool {
    &&& objects.len() > 0
    &&& match command(key, objects[0].alive) {
        Command::Move(dx, dy) => player_turn_ok(map, objects, dx as int, dy as int),
        _ => true,
    }
}

/// Whether the command a key stands for can be carried out: exactly when
/// `key_ok` holds.
pub fn key_ready(key: Key, game: &Game, objects: &Vec<Object>) -> (b: bool)
    ensures
        b == key_ok(key, game.map@, objects@),
{
    if objects.len() == 0 {
        return false;
    }
    let alive = objects[PLAYER].alive;
    if key.code == KeyCode::Up && alive {
        move_ready(0, -1, &game.map, objects)
    } else if key.code == KeyCode::Down && alive {
        move_ready(0, 1, &game.map, objects)
    } else if key.code == KeyCode::Left && alive {
        move_ready(-1, 0, &game.map, objects)
    } else if key.code == KeyCode::Right && alive {
        move_ready(1, 0, &game.map, objects)
    } else {
        true
    }
}

/// Handles one key press: moves, attacks and picks up at once, and tells
/// what is left to do for the rest.
pub fn handle_keys(key: Key, game: &mut Game, objects: &mut Vec<Object>) -> (r: KeyOutcome)
    requires
        key_ok(key, old(game).map@, old(objects)@),
    ensures
        final(game).map == old(game).map,
        match command(key, old(objects)@[0].alive) {
            Command::Move(dx, dy) => {
                &&& r == KeyOutcome::Done(PlayerAction::TookTurn)
                &&& final(game).inventory == old(game).inventory
                &&& player_turn(
                    old(game).map@,
                    old(objects)@,
                    dx as int,
                    dy as int,
                    final(objects)@,
                    log_texts(old(game).log@),
                    log_texts(final(game).log@),
                )
            },
            Command::PickUp => {
                &&& r == KeyOutcome::Done(PlayerAction::TookTurn)
                &&& (forall|j: int|
                    0 <= j < old(objects)@.len() ==> !#[trigger] item_under_player(
                        old(objects)@,
                        j,
                    )) ==> {
                    &&& final(objects)@ == old(objects)@
                    &&& final(game).inventory == old(game).inventory
                    &&& final(game).log@ == old(game).log@
                }
                &&& forall|k: int|
                    0 <= k < old(objects)@.len() && #[trigger] item_under_player(old(objects)@, k)
                        && (forall|j: int| 0 <= j < k ==> !item_under_player(old(objects)@, j))
                        ==> picked_up(
                        old(objects)@,
                        old(game).inventory@,
                        k,
                        final(objects)@,
                        final(game).inventory@,
                        log_texts(old(game).log@),
                        log_texts(final(game).log@),
                    )
            },
            Command::Drop => r == KeyOutcome::DropMenu && unchanged(
                *old(game),
                *final(game),
                old(objects)@,
                final(objects)@,
            ),
            Command::Use => r == KeyOutcome::UseMenu && unchanged(
                *old(game),
                *final(game),
                old(objects)@,
                final(objects)@,
            ),
            Command::Fullscreen => r == KeyOutcome::ToggleFullscreen && unchanged(
                *old(game),
                *final(game),
                old(objects)@,
                final(objects)@,
            ),
            Command::Exit => r == KeyOutcome::Done(PlayerAction::Exit) && unchanged(
                *old(game),
                *final(game),
                old(objects)@,
                final(objects)@,
            ),
            Command::Nothing => r == KeyOutcome::Done(PlayerAction::DidntTakeTurn) && unchanged(
                *old(game),
                *final(game),
                old(objects)@,
                final(objects)@,
            ),
        },
        all_on_floor(old(game).map@, old(objects)@)
            ==> all_on_floor(final(game).map@, final(objects)@),
        all_within_max(old(objects)@) && all_within_max(old(game).inventory@)
            ==> all_within_max(final(objects)@) && all_within_max(final(game).inventory@),
        world_ok(old(game).map@, old(objects)@) && all_modest(old(game).inventory@)
            ==> world_ok(final(game).map@, final(objects)@) && all_modest(final(game).inventory@),
        !old(objects)@[0].alive ==> {
            &&& final(objects)@ == old(objects)@
            &&& *final(game) == *old(game)
            &&& r == if key.code == KeyCode::Enter && key.alt {
                KeyOutcome::ToggleFullscreen
            } else if key.code == KeyCode::Escape {
                KeyOutcome::Done(PlayerAction::Exit)
            } else {
                KeyOutcome::Done(PlayerAction::DidntTakeTurn)
            }
        },
{
    let player_alive = objects[PLAYER].alive;
    if key.code == KeyCode::Up && player_alive {
        player_move_or_attack(0, -1, game, objects);
        KeyOutcome::Done(PlayerAction::TookTurn)
    } else if key.code == KeyCode::Down && player_alive {
        player_move_or_attack(0, 1, game, objects);
        KeyOutcome::Done(PlayerAction::TookTurn)
    } else if key.code == KeyCode::Left && player_alive {
        player_move_or_attack(-1, 0, game, objects);
        KeyOutcome::Done(PlayerAction::TookTurn)
    } else if key.code == KeyCode::Right && player_alive {
        player_move_or_attack(1, 0, game, objects);
        KeyOutcome::Done(PlayerAction::TookTurn)
    } else if key.printable == 'g' && player_alive {
        let item_id = item_under(objects);
        match item_id {
            Some(item_id) => pick_item_up(item_id, game, objects),
            None => {},
        }
        KeyOutcome::Done(PlayerAction::TookTurn)
    } else if key.printable == 'd' && player_alive {
        KeyOutcome::DropMenu
    } else if key.printable == 'i' && player_alive {
        KeyOutcome::UseMenu
    } else if key.code == KeyCode::Enter && key.alt {
        KeyOutcome::ToggleFullscreen
    } else if key.code == KeyCode::Escape {
        KeyOutcome::Done(PlayerAction::Exit)
    } else {
        KeyOutcome::Done(PlayerAction::DidntTakeTurn)
    }
}

/// Whether a key press changed nothing of the game.
pub open spec fn unchanged(g0: Game, g1: Game, o0: Seq<Object>, o1: Seq<Object>) -> bool {
    &&& g1 == g0
    &&& o1 == o0
}

/// The menu position a typed letter picks: 'a' or 'A' the first, 'b' or
/// 'B' the second and so on; any other character picks none.
pub open spec fn letter_index(c: char) -> Option<int> {
    if 'a' <= c <= 'z' {
        Some(c as int - 'a' as int)
    } else if 'A' <= c <= 'Z' {
        Some(c as int - 'A' as int)
    } else {
        None
    }
}

/// The option a key picks in a menu of `n` options: the letter's position
/// when the menu has that many options, else none. Other alphabetic
/// characters than the Latin letters lie past the 26th position and pick
/// none, which is why a menu holds at most 26 options.
pub open spec fn menu_pick(c: char, n: int) -> Option<usize> {
    match letter_index(c) {
        Some(i) => if i < n {
            Some(i as usize)
        } else {
            None
        },
        None => None,
    }
}

/// The option that typing `printable` picks in a menu of `options_len`
/// options.
pub fn menu_choice(printable: char, options_len: usize) -> (r: Option<usize>)
    requires
        options_len <= 26,
    ensures
        r == menu_pick(printable, options_len as int),
{
    if 'a' <= printable && printable <= 'z' {
        let index = (printable as u32 - 'a' as u32) as usize;
        if index < options_len {
            Some(index)
        } else {
            None
        }
    } else if 'A' <= printable && printable <= 'Z' {
        let index = (printable as u32 - 'A' as u32) as usize;
        if index < options_len {
            Some(index)
        } else {
            None
        }
    } else {
        None
    }
}

/// The lines of the inventory menu: the names of the items, or a line
/// saying that the inventory is empty.
pub fn inventory_options(inventory: &Vec<Object>) -> (options: Vec<String>)
    ensures
        inventory@.len() == 0 ==> options@.len() == 1 && options@[0]@ == "Inventory is empty."@,
        inventory@.len() > 0 ==> {
            &&& options@.len() == inventory@.len()
            &&& forall|i: int| 0 <= i < inventory@.len() ==> #[trigger] options@[i]@ == inventory@[i].name@
        },
{
    let mut options: Vec<String> = Vec::new();
    if inventory.len() == 0 {
        options.push(String::from_str("Inventory is empty."));
        return options;
    }
    let mut i: usize = 0;
    while i < inventory.len()
        invariant
            i <= inventory@.len(),
            options@.len() == i,
            forall|j: int| 0 <= j < i ==> #[trigger] options@[j]@ == inventory@[j].name@,
        decreases inventory@.len() - i,
    {
        options.push(inventory[i].name.clone());
        i = i + 1;
    }
    options
}

/// The inventory item that typing `printable` picks: none from an empty
/// inventory.
pub fn inventory_menu(inventory: &Vec<Object>, printable: char) -> (r: Option<usize>)
    requires
        inventory@.len() <= INVENTORY_SIZE,
    ensures
        r == if inventory@.len() == 0 {
            None
        } else {
            menu_pick(printable, inventory@.len() as int)
        },
{
    if inventory.len() == 0 {
        let _ = menu_choice(printable, 1);
        None
    } else {
        menu_choice(printable, inventory.len())
    }
}

/// Whether the object at `id` is a fighter at (x, y) other than the player.
pub open spec fn target_at(objects: Seq<Object>, id: int, x: int, y: int) -> bool {
    &&& id != 0
    &&& objects[id].x == x
    &&& objects[id].y == y
    &&& objects[id].fighter is Some
}

/// The first fighter other than the player standing at (x, y), if any: the
/// monster a click on that cell targets.
pub fn monster_at(x: i32, y: i32, objects: &Vec<Object>) -> (r: Option<usize>)
    ensures
        match r {
            Some(k) => {
                &&& k < objects@.len()
                &&& target_at(objects@, k as int, x as int, y as int)
                &&& forall|j: int| 0 <= j < k ==> !#[trigger] target_at(objects@, j, x as int, y as int)
            },
            None => forall|j: int|
                0 <= j < objects@.len() ==> !#[trigger] target_at(objects@, j, x as int, y as int),
        },
{
    let mut i: usize = 0;
    while i < objects.len()
        invariant
            i <= objects@.len(),
            forall|j: int| 0 <= j < i ==> !#[trigger] target_at(objects@, j, x as int, y as int),
        decreases objects@.len() - i,
    {
        if objects[i].x == x && objects[i].y == y && objects[i].fighter.is_some() && i != PLAYER {
            return Some(i);
        }
        i = i + 1;
    }
    None
}

/// Where choosing a target stands after one look at the mouse and the keys.
#[derive(Clone, Copy, Debug, PartialEq, Eq, Structural)]
pub enum TargetStep {
    Chosen(i32, i32),
    Cancelled,
    Waiting,
}

/// Whether the mouse cell (x, y) is on the map and in sight.
pub open spec fn cell_in_sight(fov: &Fov, x: int, y: int) -> bool {
    x < MAP_WIDTH && y < MAP_HEIGHT && sees(fov, x, y)
}

/// Whether (x, y) lies within `range` of the player, compared by squares;
/// without a range every cell does.
pub open spec fn in_range(objects: Seq<Object>, x: int, y: int, range: Option<i32>) -> bool {
    match range {
        None => true,
        Some(r) => r >= 0 && dist_sq(objects[0].x as int, objects[0].y as int, x, y) <= r * r,
    }
}

/// One look at the mouse and keys while choosing a target cell: a left
/// click on a cell in sight and in range chooses it; otherwise a right click
/// or Escape cancels; otherwise the choice goes on.
pub fn target_tile_step(
    x: i32,
    y: i32,
    lbutton_pressed: bool,
    rbutton_pressed: bool,
    escape: bool,
    objects: &Vec<Object>,
    fov: &Fov,
    max_range: Option<i32>,
) -> (r: TargetStep)
    requires
        (x < MAP_WIDTH && y < MAP_HEIGHT) ==> in_fov_bounds(fov, x as int, y as int),
        max_range is Some ==> objects@.len() > 0 && near_enough(
            objects@[0].x as int,
            objects@[0].y as int,
            x as int,
            y as int,
        ),
    ensures
        r == if lbutton_pressed && cell_in_sight(fov, x as int, y as int) && in_range(
            objects@,
            x as int,
            y as int,
            max_range,
        ) {
            TargetStep::Chosen(x, y)
        } else if rbutton_pressed || escape {
            TargetStep::Cancelled
        } else {
            TargetStep::Waiting
        },
        r matches TargetStep::Chosen(a, b) ==> {
            &&& a == x && b == y
            &&& lbutton_pressed
            &&& x < MAP_WIDTH && y < MAP_HEIGHT && sees(fov, x as int, y as int)
            &&& max_range matches Some(rg) ==> rg >= 0 && (x - objects@[0].x) * (x - objects@[0].x) + (y
                - objects@[0].y) * (y - objects@[0].y) <= rg * rg
        },
        (lbutton_pressed && x < MAP_WIDTH && y < MAP_HEIGHT && sees(fov, x as int, y as int) && (
        max_range matches Some(rg) ==> rg >= 0 && (x - objects@[0].x) * (x - objects@[0].x) + (y
            - objects@[0].y) * (y - objects@[0].y) <= rg * rg)) ==> r == TargetStep::Chosen(x, y),
{
    let in_fov = (x < MAP_WIDTH) && (y < MAP_HEIGHT) && fov.is_in_fov(x, y);
    let in_reach = match max_range {
        None => true,
        Some(range) => {
            let d = objects[PLAYER].distance_sq(x, y) as i64;
            let r = range as i64;
            assert(r * r <= 0x4000_0000_0000_0000) by (nonlinear_arith)
                requires
                    i32::MIN <= r <= i32::MAX,
            ;
            r >= 0 && d <= r * r
        },
    };
    if lbutton_pressed && in_fov && in_reach {
        return TargetStep::Chosen(x, y);
    }
    if rbutton_pressed || escape {
        return TargetStep::Cancelled;
    }
    TargetStep::Waiting
}


/// The names, in order, of the objects at (x, y) that are in sight.
pub open spec fn names_seen(objects: Seq<Object>, fov: &Fov, x: int, y: int) -> Seq<Seq<char>>
    decreases objects.len(),
{
    if objects.len() == 0 {
        Seq::empty()
    } else {
        let rest = names_seen(objects.drop_last(), fov, x, y);
        let o = objects.last();
        if o.x == x && o.y == y && sees(fov, o.x as int, o.y as int) {
            rest.push(o.name@)
        } else {
            rest
        }
    }
}

/// The names joined with ", " between each two.
pub open spec fn joined(names: Seq<Seq<char>>) -> Seq<char>
    decreases names.len(),
{
    if names.len() == 0 {
        Seq::empty()
    } else if names.len() == 1 {
        names[0]
    } else {
        joined(names.drop_last()) + ", "@ + names.last()
    }
}

/// The names of the objects in sight at the mouse cell (x, y), joined with
/// ", ".
pub fn names_under_mouse(x: i32, y: i32, objects: &Vec<Object>, fov: &Fov) -> (s: String)
    requires
        forall|k: int|
            0 <= k < objects@.len() && (#[trigger] objects@[k]).x == x && objects@[k].y == y
                ==> in_fov_bounds(fov, x as int, y as int),
    ensures
        s@ == joined(names_seen(objects@, fov, x as int, y as int)),
{
    let mut s = String::new();
    let mut count: usize = 0;
    let mut i: usize = 0;
    while i < objects.len()
        invariant
            i <= objects@.len(),
            forall|k: int|
                0 <= k < objects@.len() && (#[trigger] objects@[k]).x == x && objects@[k].y == y
                    ==> in_fov_bounds(fov, x as int, y as int),
            count == names_seen(objects@.take(i as int), fov, x as int, y as int).len(),
            count <= i,
            s@ == joined(names_seen(objects@.take(i as int), fov, x as int, y as int)),
        decreases objects@.len() - i,
    {
        let ghost prefix = names_seen(objects@.take(i as int), fov, x as int, y as int);
        assert(objects@.take(i + 1).drop_last() =~= objects@.take(i as int));
        assert(objects@.take(i + 1).last() == objects@[i as int]);
        if objects[i].x == x && objects[i].y == y && fov.is_in_fov(objects[i].x, objects[i].y) {
            let ghost named = prefix.push(objects@[i as int].name@);
            assert(names_seen(objects@.take(i + 1), fov, x as int, y as int) == named);
            if count > 0 {
                s.append(", ");
                assert(named.drop_last() =~= prefix);
            }
            s.append(objects[i].name.as_str());
            count = count + 1;
        }
        i = i + 1;
    }
    assert(objects@.take(objects@.len() as int) =~= objects@);
    s
}

/// The indices of the first `n` objects that are in sight and do or do not
/// block, as `blocks` says, in order.
pub open spec fn seen_with(objects: Seq<Object>, fov: &Fov, blocks: bool, n: int) -> Seq<usize>
    decreases n,
{
    if n <= 0 {
        Seq::empty()
    } else {
        let rest = seen_with(objects, fov, blocks, n - 1);
        let o = objects[n - 1];
        if sees(fov, o.x as int, o.y as int) && o.blocks == blocks {
            rest.push((n - 1) as usize)
        } else {
            rest
        }
    }
}

/// Whether every object's cell lies in the field of view.
pub open spec fn all_in_fov_bounds(objects: Seq<Object>, fov: &Fov) -> bool {
    forall|k: int|
        0 <= k < objects.len() ==> in_fov_bounds(
            fov,
            (#[trigger] objects[k]).x as int,
            objects[k].y as int,
        )
}

/// Appends, in order, the indices of the objects in sight that do or do
/// not block, as `blocks` says.
fn collect_seen(objects: &Vec<Object>, fov: &Fov, blocks: bool, out: &mut Vec<usize>)
    requires
        all_in_fov_bounds(objects@, fov),
    ensures
        final(out)@ == old(out)@ + seen_with(objects@, fov, blocks, objects@.len() as int),
{
    let ghost start = out@;
    let mut i: usize = 0;
    while i < objects.len()
        invariant
            all_in_fov_bounds(objects@, fov),
            i <= objects@.len(),
            out@ == start + seen_with(objects@, fov, blocks, i as int),
        decreases objects@.len() - i,
    {
        if fov.is_in_fov(objects[i].x, objects[i].y) && objects[i].blocks == blocks {
            out.push(i);
            assert(out@ =~= start + seen_with(objects@, fov, blocks, i + 1));
        }
        i = i + 1;
    }
}

/// The objects to draw, by index: those in sight, the ones that do not
/// block first, each group in the order of the objects, so that creatures
/// are drawn over the items and corpses they stand on.
pub fn draw_order(objects: &Vec<Object>, fov: &Fov) -> (order: Vec<usize>)
    requires
        all_in_fov_bounds(objects@, fov),
    ensures
        order@ == seen_with(objects@, fov, false, objects@.len() as int) + seen_with(
            objects@,
            fov,
            true,
            objects@.len() as int,
        ),
{
    let mut order: Vec<usize> = Vec::new();
    collect_seen(objects, fov, false, &mut order);
    collect_seen(objects, fov, true, &mut order);
    order
}

/// Whether the map and the field of view both cover the game's grid of
/// `MAP_WIDTH` by `MAP_HEIGHT` cells.
pub open spec fn grid_covered(map: Seq<Vec<Tile>>, fov: &Fov) -> bool {
    &&& map.len() >= MAP_WIDTH
    &&& forall|x: int| 0 <= x < MAP_WIDTH ==> #[trigger] map[x]@.len() >= MAP_HEIGHT
    &&& fov.visible@.len() >= MAP_WIDTH
    &&& forall|x: int| 0 <= x < MAP_WIDTH ==> #[trigger] fov.visible@[x]@.len() >= MAP_HEIGHT
}

/// Whether (x, y) is a cell of the game's grid.
pub open spec fn in_grid(x: int, y: int) -> bool {
    0 <= x < MAP_WIDTH && 0 <= y < MAP_HEIGHT
}

/// The map after the cells of the grid that are in sight are marked
/// explored; nothing else changes.
pub open spec fn explored_after(map: Seq<Vec<Tile>>, fov: &Fov, after: Seq<Vec<Tile>>) -> bool {
    &&& same_shape(map, after)
    &&& forall|x: int, y: int|
        on_map(map, x, y) ==> #[trigger] tile_at(after, x, y) == if in_grid(x, y) && sees(fov, x, y) {
            Tile { explored: true, ..tile_at(map, x, y) }
        } else {
            tile_at(map, x, y)
        }
}

/// Exploring only ever adds: a cell explored before stays explored, and
/// nothing but the explored mark changes.
pub proof fn lemma_explored_stays(map: Seq<Vec<Tile>>, fov: &Fov, after: Seq<Vec<Tile>>)
    requires
        explored_after(map, fov, after),
    ensures
        forall|x: int, y: int|
            on_map(map, x, y) && #[trigger] tile_at(map, x, y).explored ==> tile_at(after, x, y).explored,
        forall|x: int, y: int|
            on_map(map, x, y) ==> (#[trigger] tile_at(after, x, y)).blocked == tile_at(map, x, y).blocked
                && tile_at(after, x, y).block_sight == tile_at(map, x, y).block_sight,
{
    assert forall|x: int, y: int| on_map(map, x, y) && #[trigger] tile_at(map, x, y).explored implies tile_at(
        after,
        x,
        y,
    ).explored by {
        assert(tile_at(after, x, y) == if in_grid(x, y) && sees(fov, x, y) {
            Tile { explored: true, ..tile_at(map, x, y) }
        } else {
            tile_at(map, x, y)
        });
    }
}

/// Marks every cell of the grid that is in sight as explored.
pub fn update_explored(map: &mut TileMap, fov: &Fov)
    requires
        grid_covered(old(map)@, fov),
    ensures
        explored_after(old(map)@, fov, final(map)@),
        forall|objects: Seq<Object>| all_on_floor(old(map)@, objects)
            ==> #[trigger] all_on_floor(final(map)@, objects),
        forall|objects: Seq<Object>| world_ok(old(map)@, objects)
            ==> #[trigger] world_ok(final(map)@, objects),
{
    let ghost before = map@;
    let mut y: i32 = 0;
    while y < MAP_HEIGHT
        invariant
            0 <= y <= MAP_HEIGHT,
            grid_covered(before, fov),
            same_shape(before, map@),
            forall|i: int, j: int|
                on_map(before, i, j) ==> #[trigger] tile_at(map@, i, j) == if in_grid(i, j) && sees(
                    fov,
                    i,
                    j,
                ) && j < y {
                    Tile { explored: true, ..tile_at(before, i, j) }
                } else {
                    tile_at(before, i, j)
                },
        decreases MAP_HEIGHT - y,
    {
        let mut x: i32 = 0;
        while x < MAP_WIDTH
            invariant
                0 <= y < MAP_HEIGHT,
                0 <= x <= MAP_WIDTH,
                grid_covered(before, fov),
                same_shape(before, map@),
                forall|i: int, j: int|
                    on_map(before, i, j) ==> #[trigger] tile_at(map@, i, j) == if in_grid(i, j)
                        && sees(fov, i, j) && (j < y || (j == y && i < x)) {
                        Tile { explored: true, ..tile_at(before, i, j) }
                    } else {
                        tile_at(before, i, j)
                    },
            decreases MAP_WIDTH - x,
        {
            assert(before[x as int]@.len() >= MAP_HEIGHT);
            assert(fov.visible@[x as int]@.len() >= MAP_HEIGHT);
            assert(on_map(map@, x as int, y as int));
            if fov.is_in_fov(x, y) {
                let t = map[x as usize][y as usize];
                assert(t == tile_at(map@, x as int, y as int));
                assert(t == tile_at(before, x as int, y as int));
                crate::map::set_tile(map, x as usize, y as usize, Tile { explored: true, ..t });
            }
            x = x + 1;
        }
        y = y + 1;
    }
    proof {
        assert(explored_after(before, fov, map@));
        assert forall|x: int| 0 <= x < map@.len() implies #[trigger] map@[x]@.len() == before[x]@.len() by {
        }
        assert forall|x: int, y: int| #[trigger] open_cell(map@, x, y) == open_cell(before, x, y) by {
            if on_map(before, x, y) {
                assert(tile_at(map@, x, y).blocked == tile_at(before, x, y).blocked);
            }
        }
        assert forall|objects: Seq<Object>| world_ok(before, objects) implies #[trigger] world_ok(
            map@,
            objects,
        ) by {
            assert forall|x: int| 0 <= x < map@.len() implies #[trigger] map@[x]@.len() == MAP_HEIGHT by {
                assert(before[x]@.len() == MAP_HEIGHT);
            }
        }
    }
}


/// The action a key's outcome amounts to once what it left to do is done:
/// its own action when it was done at once; a turn taken after the drop or
/// use menu; no turn after switching full screen.
pub fn outcome_action(outcome: KeyOutcome) -> (action: PlayerAction)
    ensures
        action == match outcome {
            KeyOutcome::Done(a) => a,
            KeyOutcome::DropMenu => PlayerAction::TookTurn,
            KeyOutcome::UseMenu => PlayerAction::TookTurn,
            KeyOutcome::ToggleFullscreen => PlayerAction::DidntTakeTurn,
        },
{
    match outcome {
        KeyOutcome::Done(a) => a,
        KeyOutcome::DropMenu => PlayerAction::TookTurn,
        KeyOutcome::UseMenu => PlayerAction::TookTurn,
        KeyOutcome::ToggleFullscreen => PlayerAction::DidntTakeTurn,
    }
}

/// Whether the monsters take their turns after the player's key: only while
/// the player is alive and the key took a turn.
pub fn monsters_act(player_alive: bool, action: PlayerAction) -> (b: bool)
    ensures
        b == (player_alive && action != PlayerAction::DidntTakeTurn),
{
    player_alive && action != PlayerAction::DidntTakeTurn
}


/// While the player is dead no key moves, attacks, picks up, drops or uses:
/// only Alt+Enter and Escape stand for anything.
pub proof fn lemma_dead_player_commands(key: Key)
    ensures
        command(key, false) == if key.code == KeyCode::Enter && key.alt {
            Command::Fullscreen
        } else if key.code == KeyCode::Escape {
            Command::Exit
        } else {
            Command::Nothing
        },
{
}

/// With a range, a cell is in range exactly when its squared distance to
/// the player is at most the square of the range; without one, every cell
/// is.
pub proof fn lemma_in_range_exact(objects: Seq<Object>, x: int, y: int, r: i32)
    ensures
        in_range(objects, x, y, Some(r)) == (r >= 0 && (x - objects[0].x) * (x - objects[0].x) + (y
            - objects[0].y) * (y - objects[0].y) <= r * r),
        in_range(objects, x, y, None),
{
}


/// While the player is alive each arrow key moves by one cell its way: up
/// lowers the row, down raises it, left lowers the column, right raises it.
pub proof fn lemma_live_player_arrows(key: Key)
    ensures
        key.code == KeyCode::Up ==> command(key, true) == Command::Move(0i32, -1i32),
        key.code == KeyCode::Down ==> command(key, true) == Command::Move(0i32, 1i32),
        key.code == KeyCode::Left ==> command(key, true) == Command::Move(-1i32, 0i32),
        key.code == KeyCode::Right ==> command(key, true) == Command::Move(1i32, 0i32),
{
}

} // verus!

