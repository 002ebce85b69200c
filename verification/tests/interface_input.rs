use roguelike::fov::Fov;
use roguelike::interface::{
    draw_order, handle_keys, inventory_menu, inventory_options, item_under, menu_choice,
    monster_at, names_under_mouse, target_tile_step, update_explored, Key, KeyCode, KeyOutcome,
    PlayerAction, TargetStep,
};
use roguelike::map::{new_map, Tile};
use roguelike::messages::Color;
use roguelike::object::{Ai, DeathCallback, Fighter, Item, Object};
use roguelike::world::{Game, MAP_HEIGHT, MAP_WIDTH, PLAYER};

fn open_map(w: usize, h: usize) -> Vec<Vec<Tile>> {
    vec![vec![Tile::empty(); h]; w]
}

fn all_seen(w: usize, h: usize) -> Fov {
    Fov { visible: vec![vec![true; h]; w] }
}

fn game() -> Game {
    Game { map: open_map(10, 10), log: Vec::new(), inventory: Vec::new() }
}

fn player(x: i32, y: i32) -> Object {
    let mut p = Object::new(x, y, '@', "player", Color::White, true);
    p.alive = true;
    p.fighter = Some(Fighter { max_hp: 30, hp: 30, defense: 2, power: 5, on_death: DeathCallback::Player });
    p
}

fn orc(x: i32, y: i32) -> Object {
    let mut o = Object::new(x, y, 'o', "orc", Color::DesaturatedGreen, true);
    o.alive = true;
    o.fighter = Some(Fighter { max_hp: 10, hp: 10, defense: 0, power: 3, on_death: DeathCallback::Monster });
    o.ai = Some(Ai::Basic);
    o
}

fn potion(x: i32, y: i32) -> Object {
    let mut o = Object::new(x, y, '!', "healing potion", Color::Violet, false);
    o.item = Some(Item::Heal);
    o
}

fn key(code: KeyCode, printable: char) -> Key {
    Key { code, printable, alt: false }
}

#[test]
fn arrows_move_the_player() {
    let mut g = game();
    let mut objects = vec![player(5, 5)];
    let cases = [
        (KeyCode::Up, (5, 4)),
        (KeyCode::Right, (6, 4)),
        (KeyCode::Down, (6, 5)),
        (KeyCode::Left, (5, 5)),
    ];
    for (code, pos) in cases {
        let r = handle_keys(key(code, '\0'), &mut g, &mut objects);
        assert_eq!(r, KeyOutcome::Done(PlayerAction::TookTurn));
        assert_eq!(objects[PLAYER].pos(), pos);
    }
}

#[test]
fn arrow_into_monster_attacks() {
    let mut g = game();
    let mut objects = vec![player(5, 5), orc(5, 4)];
    let r = handle_keys(key(KeyCode::Up, '\0'), &mut g, &mut objects);
    assert_eq!(r, KeyOutcome::Done(PlayerAction::TookTurn));
    assert_eq!(objects[PLAYER].pos(), (5, 5));
    assert_eq!(objects[1].fighter.unwrap().hp, 5);
}

#[test]
fn g_picks_up_item_underfoot() {
    let mut g = game();
    let mut objects = vec![player(5, 5), potion(4, 4), potion(5, 5)];
    let r = handle_keys(key(KeyCode::Other, 'g'), &mut g, &mut objects);
    assert_eq!(r, KeyOutcome::Done(PlayerAction::TookTurn));
    assert_eq!(objects.len(), 2);
    assert_eq!(g.inventory.len(), 1);
    let r = handle_keys(key(KeyCode::Other, 'g'), &mut g, &mut objects);
    assert_eq!(r, KeyOutcome::Done(PlayerAction::TookTurn));
    assert_eq!(objects.len(), 2);
    assert_eq!(g.inventory.len(), 1);
}

#[test]
fn menus_fullscreen_exit_and_others() {
    let mut g = game();
    let mut objects = vec![player(5, 5)];
    assert_eq!(handle_keys(key(KeyCode::Other, 'd'), &mut g, &mut objects), KeyOutcome::DropMenu);
    assert_eq!(handle_keys(key(KeyCode::Other, 'i'), &mut g, &mut objects), KeyOutcome::UseMenu);
    let alt_enter = Key { code: KeyCode::Enter, printable: '\r', alt: true };
    assert_eq!(handle_keys(alt_enter, &mut g, &mut objects), KeyOutcome::ToggleFullscreen);
    assert_eq!(handle_keys(key(KeyCode::Enter, '\r'), &mut g, &mut objects), KeyOutcome::Done(PlayerAction::DidntTakeTurn));
    assert_eq!(handle_keys(key(KeyCode::Escape, '\0'), &mut g, &mut objects), KeyOutcome::Done(PlayerAction::Exit));
    assert_eq!(handle_keys(key(KeyCode::Other, 'x'), &mut g, &mut objects), KeyOutcome::Done(PlayerAction::DidntTakeTurn));
    assert_eq!(objects[PLAYER].pos(), (5, 5));
    assert!(g.log.is_empty());
}

#[test]
fn dead_player_cannot_act() {
    let mut g = game();
    let mut p = player(5, 5);
    p.alive = false;
    let mut objects = vec![p, potion(5, 5)];
    assert_eq!(handle_keys(key(KeyCode::Up, '\0'), &mut g, &mut objects), KeyOutcome::Done(PlayerAction::DidntTakeTurn));
    assert_eq!(handle_keys(key(KeyCode::Other, 'g'), &mut g, &mut objects), KeyOutcome::Done(PlayerAction::DidntTakeTurn));
    assert_eq!(handle_keys(key(KeyCode::Other, 'i'), &mut g, &mut objects), KeyOutcome::Done(PlayerAction::DidntTakeTurn));
    assert_eq!(handle_keys(key(KeyCode::Escape, '\0'), &mut g, &mut objects), KeyOutcome::Done(PlayerAction::Exit));
    assert_eq!(objects[PLAYER].pos(), (5, 5));
    assert!(g.inventory.is_empty());
}

#[test]
fn item_under_finds_first() {
    let objects = vec![player(5, 5), orc(5, 5), potion(5, 5), potion(5, 5)];
    assert_eq!(item_under(&objects), Some(2));
    let objects = vec![player(5, 5), potion(1, 1)];
    assert_eq!(item_under(&objects), None);
}

#[test]
fn menu_letters() {
    assert_eq!(menu_choice('a', 3), Some(0));
    assert_eq!(menu_choice('c', 3), Some(2));
    assert_eq!(menu_choice('d', 3), None);
    assert_eq!(menu_choice('B', 3), Some(1));
    assert_eq!(menu_choice('z', 26), Some(25));
    assert_eq!(menu_choice('Z', 26), Some(25));
    assert_eq!(menu_choice('1', 26), None);
    assert_eq!(menu_choice('é', 26), None);
}

#[test]
fn inventory_menu_lines_and_choice() {
    let empty: Vec<Object> = Vec::new();
    assert_eq!(inventory_options(&empty), vec![String::from("Inventory is empty.")]);
    assert_eq!(inventory_menu(&empty, 'a'), None);
    let inventory = vec![potion(0, 0), orc(0, 0)];
    assert_eq!(inventory_options(&inventory), vec![String::from("healing potion"), String::from("orc")]);
    assert_eq!(inventory_menu(&inventory, 'b'), Some(1));
    assert_eq!(inventory_menu(&inventory, 'c'), None);
}

#[test]
fn monster_at_skips_player_and_items() {
    let objects = vec![player(3, 3), potion(4, 4), orc(4, 4), orc(4, 4)];
    assert_eq!(monster_at(4, 4, &objects), Some(2));
    assert_eq!(monster_at(3, 3, &objects), None);
    assert_eq!(monster_at(7, 7, &objects), None);
}

#[test]
fn target_tile_choices() {
    let objects = vec![player(5, 5)];
    let mut fov = all_seen(MAP_WIDTH as usize, MAP_HEIGHT as usize);
    fov.visible[6][6] = false;
    assert_eq!(target_tile_step(7, 5, true, false, false, &objects, &fov, None), TargetStep::Chosen(7, 5));
    assert_eq!(target_tile_step(6, 6, true, false, false, &objects, &fov, None), TargetStep::Waiting);
    assert_eq!(target_tile_step(6, 6, true, true, false, &objects, &fov, None), TargetStep::Cancelled);
    assert_eq!(target_tile_step(7, 5, false, false, true, &objects, &fov, None), TargetStep::Cancelled);
    assert_eq!(target_tile_step(7, 5, false, false, false, &objects, &fov, None), TargetStep::Waiting);
    assert_eq!(target_tile_step(13, 5, true, false, false, &objects, &fov, Some(8)), TargetStep::Chosen(13, 5));
    assert_eq!(target_tile_step(14, 5, true, false, false, &objects, &fov, Some(8)), TargetStep::Waiting);
    assert_eq!(target_tile_step(MAP_WIDTH, 5, true, false, false, &objects, &fov, None), TargetStep::Waiting);
}

#[test]
fn names_under_mouse_joins_seen_names() {
    let mut fov = all_seen(10, 10);
    let objects = vec![player(2, 2), orc(3, 3), potion(3, 3), orc(4, 4)];
    assert_eq!(names_under_mouse(3, 3, &objects, &fov), "orc, healing potion");
    assert_eq!(names_under_mouse(2, 2, &objects, &fov), "player");
    assert_eq!(names_under_mouse(8, 8, &objects, &fov), "");
    fov.visible[3][3] = false;
    assert_eq!(names_under_mouse(3, 3, &objects, &fov), "");
}

#[test]
fn draw_order_puts_blocking_last() {
    let mut fov = all_seen(10, 10);
    fov.visible[4][4] = false;
    let objects = vec![player(2, 2), orc(3, 3), potion(3, 3), orc(4, 4), potion(1, 1)];
    assert_eq!(draw_order(&objects, &fov), vec![2, 4, 0, 1]);
}

#[test]
fn update_explored_marks_seen_cells() {
    let mut map = new_map(MAP_WIDTH as usize, MAP_HEIGHT as usize);
    let mut fov = Fov { visible: vec![vec![false; MAP_HEIGHT as usize]; MAP_WIDTH as usize] };
    fov.visible[3][4] = true;
    fov.visible[10][20] = true;
    update_explored(&mut map, &fov);
    for x in 0..MAP_WIDTH as usize {
        for y in 0..MAP_HEIGHT as usize {
            let seen = (x, y) == (3, 4) || (x, y) == (10, 20);
            assert_eq!(map[x][y].explored, seen);
            assert!(map[x][y].blocked);
        }
    }
    fov.visible[3][4] = false;
    update_explored(&mut map, &fov);
    assert!(map[3][4].explored);
}

#[test]
fn update_explored_stays_in_the_grid() {
    let w = MAP_WIDTH as usize + 2;
    let h = MAP_HEIGHT as usize + 1;
    let mut map = new_map(w, h);
    let fov = Fov { visible: vec![vec![true; h]; w] };
    update_explored(&mut map, &fov);
    assert!(map[0][0].explored);
    assert!(map[MAP_WIDTH as usize - 1][MAP_HEIGHT as usize - 1].explored);
    assert!(!map[MAP_WIDTH as usize][0].explored);
    assert!(!map[0][MAP_HEIGHT as usize].explored);
}

#[test]
fn item_under_nobody() {
    let objects: Vec<Object> = Vec::new();
    assert_eq!(item_under(&objects), None);
    let fov = all_seen(MAP_WIDTH as usize, MAP_HEIGHT as usize);
    assert_eq!(target_tile_step(1, 1, true, false, false, &objects, &fov, None), TargetStep::Chosen(1, 1));
}
