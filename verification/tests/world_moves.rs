use roguelike::map::Tile;
use roguelike::messages::Color;
use roguelike::object::{Ai, DeathCallback, Fighter, Item, Object};
use roguelike::world::{
    drop_item, fighter_position, is_blocked, move_by, move_towards, pick_item_up,
    player_move_or_attack, Game, INVENTORY_SIZE, PLAYER,
};

fn open_map(w: usize, h: usize) -> Vec<Vec<Tile>> {
    vec![vec![Tile::empty(); h]; w]
}

fn player(x: i32, y: i32) -> Object {
    let mut p = Object::new(x, y, '@', "player", Color::White, true);
    p.alive = true;
    p.fighter = Some(Fighter { max_hp: 30, hp: 30, defense: 2, power: 5, on_death: DeathCallback::Player });
    p
}

fn troll(x: i32, y: i32) -> Object {
    let mut t = Object::new(x, y, 'T', "troll", Color::DarkerGreen, true);
    t.alive = true;
    t.fighter = Some(Fighter { max_hp: 16, hp: 16, defense: 1, power: 4, on_death: DeathCallback::Monster });
    t.ai = Some(Ai::Basic);
    t
}

fn potion(x: i32, y: i32) -> Object {
    let mut o = Object::new(x, y, '!', "healing potion", Color::Violet, false);
    o.item = Some(Item::Heal);
    o
}

fn game(w: usize, h: usize) -> Game {
    Game { map: open_map(w, h), log: Vec::new(), inventory: Vec::new() }
}

#[test]
fn blocked_by_wall_or_blocking_object() {
    let mut map = open_map(5, 5);
    map[1][1] = Tile::wall();
    let objects = vec![player(2, 2), potion(3, 3)];
    assert!(is_blocked(1, 1, &map, &objects));
    assert!(is_blocked(2, 2, &map, &objects));
    assert!(!is_blocked(3, 3, &map, &objects));
    assert!(!is_blocked(4, 4, &map, &objects));
}

#[test]
fn move_by_steps_unless_blocked() {
    let mut map = open_map(5, 5);
    map[3][2] = Tile::wall();
    let mut objects = vec![player(2, 2), troll(2, 3)];
    move_by(0, 1, 0, &map, &mut objects);
    assert_eq!(objects[0].pos(), (2, 2));
    move_by(0, 0, 1, &map, &mut objects);
    assert_eq!(objects[0].pos(), (2, 2));
    move_by(0, -1, -1, &map, &mut objects);
    assert_eq!(objects[0].pos(), (1, 1));
}

#[test]
fn move_towards_takes_rounded_unit_step() {
    let map = open_map(20, 20);
    let mut objects = vec![player(10, 10), troll(2, 2)];
    move_towards(1, 10, 10, &map, &mut objects);
    assert_eq!(objects[1].pos(), (3, 3));
    let mut objects = vec![player(10, 3), troll(2, 2)];
    move_towards(1, 10, 3, &map, &mut objects);
    assert_eq!(objects[1].pos(), (3, 2));
    let mut objects = vec![player(3, 10), troll(2, 2)];
    move_towards(1, 3, 10, &map, &mut objects);
    assert_eq!(objects[1].pos(), (2, 3));
    let mut objects = vec![player(2, 2), troll(5, 4)];
    move_towards(1, 2, 2, &map, &mut objects);
    assert_eq!(objects[1].pos(), (4, 3));
}

#[test]
fn move_towards_own_cell_stays() {
    let map = open_map(5, 5);
    let mut objects = vec![player(1, 1), troll(3, 3)];
    move_towards(1, 3, 3, &map, &mut objects);
    assert_eq!(objects[1].pos(), (3, 3));
}

#[test]
fn fighter_position_finds_first_fighter() {
    let objects = vec![player(1, 1), potion(2, 2), troll(2, 2), troll(2, 2)];
    assert_eq!(fighter_position(&objects, 2, 2), Some(2));
    assert_eq!(fighter_position(&objects, 1, 1), Some(0));
    assert_eq!(fighter_position(&objects, 3, 3), None);
}

#[test]
fn player_moves_onto_free_cell() {
    let mut g = game(5, 5);
    let mut objects = vec![player(2, 2), potion(3, 2)];
    player_move_or_attack(1, 0, &mut g, &mut objects);
    assert_eq!(objects[PLAYER].pos(), (3, 2));
    assert!(g.log.is_empty());
}

#[test]
fn player_attacks_fighter_in_the_way() {
    let mut g = game(5, 5);
    let mut objects = vec![player(2, 2), troll(2, 1)];
    player_move_or_attack(0, -1, &mut g, &mut objects);
    assert_eq!(objects[PLAYER].pos(), (2, 2));
    assert_eq!(objects[1].fighter.unwrap().hp, 12);
    assert_eq!(g.log, vec![(String::from("player attacks troll for 4 hit points."), Color::White)]);
}

#[test]
fn player_attacks_corpse_free_cell_moves() {
    let mut g = game(5, 5);
    let mut objects = vec![player(2, 2), troll(2, 1)];
    for _ in 0..4 {
        player_move_or_attack(0, -1, &mut g, &mut objects);
    }
    assert_eq!(objects[1].name, "remains of troll");
    assert_eq!(g.log.last().unwrap().0, "troll is dead!");
    player_move_or_attack(0, -1, &mut g, &mut objects);
    assert_eq!(objects[PLAYER].pos(), (2, 1));
}

#[test]
fn pick_up_moves_item_to_inventory() {
    let mut g = game(5, 5);
    let mut objects = vec![player(2, 2), potion(2, 2), troll(4, 4)];
    pick_item_up(1, &mut g, &mut objects);
    assert_eq!(objects.len(), 2);
    assert_eq!(objects[1].name, "troll");
    assert_eq!(g.inventory.len(), 1);
    assert_eq!(g.inventory[0].name, "healing potion");
    assert_eq!(g.log, vec![(String::from("You picked up a healing potion!"), Color::Green)]);
}

#[test]
fn pick_up_refused_when_full() {
    let mut g = game(5, 5);
    for _ in 0..INVENTORY_SIZE {
        g.inventory.push(potion(0, 0));
    }
    let mut objects = vec![player(2, 2), potion(2, 2)];
    pick_item_up(1, &mut g, &mut objects);
    assert_eq!(objects.len(), 2);
    assert_eq!(g.inventory.len(), INVENTORY_SIZE);
    assert_eq!(
        g.log,
        vec![(String::from("Your inventory is full, cannot pick up healing potion."), Color::Red)]
    );
}

#[test]
fn drop_places_item_under_player() {
    let mut g = game(5, 5);
    g.inventory.push(potion(0, 0));
    let mut objects = vec![player(3, 1)];
    drop_item(0, &mut g, &mut objects);
    assert!(g.inventory.is_empty());
    assert_eq!(objects.len(), 2);
    assert_eq!(objects[1].pos(), (3, 1));
    assert_eq!(objects[1].name, "healing potion");
    assert_eq!(g.log, vec![(String::from("You dropped a healing potion"), Color::Yellow)]);
}

#[test]
fn pick_then_drop_restores_counts() {
    let mut g = game(5, 5);
    let mut objects = vec![player(2, 2), potion(2, 2)];
    pick_item_up(1, &mut g, &mut objects);
    drop_item(0, &mut g, &mut objects);
    assert_eq!(objects.len(), 2);
    assert!(g.inventory.is_empty());
    assert_eq!(objects[1].pos(), (2, 2));
    assert_eq!(objects[1].item, Some(Item::Heal));
}
