use roguelike::ai::{ai_basic, ai_confused, ai_take_turn};
use roguelike::dungeon::{
    furnish_room, lay_out_map, make_item, make_monster, place_objects, MAX_ROOM_ITEMS, MAX_ROOM_MONSTERS,
};
use roguelike::fov::Fov;
use roguelike::map::{create_room, new_map, Rect, Tile};
use roguelike::messages::Color;
use roguelike::object::{Ai, DeathCallback, Fighter, Item, Object};
use roguelike::world::{Game, PLAYER};

fn open_map(w: usize, h: usize) -> Vec<Vec<Tile>> {
    vec![vec![Tile::empty(); h]; w]
}

fn all_seen(w: usize, h: usize) -> Fov {
    Fov { visible: vec![vec![true; h]; w] }
}

fn game() -> Game {
    Game { map: open_map(20, 20), log: Vec::new(), inventory: Vec::new() }
}

fn player(x: i32, y: i32) -> Object {
    let mut p = Object::new(x, y, '@', "player", Color::White, true);
    p.alive = true;
    p.fighter = Some(Fighter { max_hp: 30, hp: 30, defense: 2, power: 5, on_death: DeathCallback::Player });
    p
}

#[test]
fn monsters_made_with_their_stats() {
    let o = make_monster(3, 4, true);
    assert_eq!(o.name, "orc");
    assert_eq!(o.char, 'o');
    assert_eq!(o.color, Color::DesaturatedGreen);
    assert!(o.blocks && o.alive);
    assert_eq!(o.fighter, Some(Fighter { max_hp: 10, hp: 10, defense: 0, power: 3, on_death: DeathCallback::Monster }));
    assert!(matches!(o.ai, Some(Ai::Basic)));
    let t = make_monster(5, 6, false);
    assert_eq!(t.name, "troll");
    assert_eq!(t.char, 'T');
    assert_eq!(t.pos(), (5, 6));
    assert_eq!(t.fighter, Some(Fighter { max_hp: 16, hp: 16, defense: 1, power: 4, on_death: DeathCallback::Monster }));
}

#[test]
fn items_made_by_dice() {
    let cases = [
        (0, "healing potion", Item::Heal, '!'),
        (69, "healing potion", Item::Heal, '!'),
        (70, "scroll of confusion", Item::Confuse, '?'),
        (84, "scroll of confusion", Item::Confuse, '?'),
        (85, "scroll of lightning bolt", Item::Lightning, '?'),
        (94, "scroll of lightning bolt", Item::Lightning, '?'),
        (95, "scroll of fireball", Item::Fireball, '?'),
        (99, "scroll of fireball", Item::Fireball, '?'),
    ];
    for (dice, name, item, ch) in cases {
        let o = make_item(1, 2, dice);
        assert_eq!(o.name, name);
        assert_eq!(o.item, Some(item));
        assert_eq!(o.char, ch);
        assert!(!o.blocks);
        assert_eq!(o.pos(), (1, 2));
    }
}

#[test]
fn placed_objects_stay_inside_the_room() {
    let room = Rect::new(2, 3, 6, 5);
    for _ in 0..50 {
        let mut map = new_map(12, 12);
        create_room(room, &mut map);
        let mut objects = vec![player(0, 0)];
        place_objects(room, &map, &mut objects);
        assert!(objects.len() <= 1 + (MAX_ROOM_MONSTERS + MAX_ROOM_ITEMS) as usize);
        assert_eq!(objects[0].pos(), (0, 0));
        let mut seen_item = false;
        for (k, o) in objects.iter().enumerate().skip(1) {
            assert!(room.x1 < o.x && o.x < room.x2 && room.y1 < o.y && o.y < room.y2);
            if o.item.is_some() {
                seen_item = true;
            } else {
                assert!(!seen_item);
                assert!(o.fighter.is_some());
            }
            for earlier in &objects[..k] {
                assert!(!(earlier.blocks && earlier.pos() == o.pos()));
            }
        }
    }
}

#[test]
fn basic_monster_chases_then_attacks() {
    let fov = all_seen(20, 20);
    let mut g = game();
    let mut objects = vec![player(10, 10), make_monster(5, 10, true)];
    let ai = ai_basic(1, &mut g, &mut objects, &fov);
    assert!(matches!(ai, Ai::Basic));
    assert_eq!(objects[1].pos(), (6, 10));
    let mut objects = vec![player(10, 10), make_monster(11, 11, true)];
    ai_basic(1, &mut g, &mut objects, &fov);
    assert_eq!(objects[1].pos(), (11, 11));
    assert_eq!(objects[PLAYER].fighter.unwrap().hp, 29);
    assert_eq!(g.log, vec![(String::from("orc attacks player for 1 hit points."), Color::White)]);
}

#[test]
fn basic_monster_out_of_sight_waits() {
    let mut fov = all_seen(20, 20);
    fov.visible[5][10] = false;
    let mut g = game();
    let mut objects = vec![player(10, 10), make_monster(5, 10, false)];
    ai_basic(1, &mut g, &mut objects, &fov);
    assert_eq!(objects[1].pos(), (5, 10));
    assert!(g.log.is_empty());
}

#[test]
fn basic_monster_spares_dead_player() {
    let fov = all_seen(20, 20);
    let mut g = game();
    let mut p = player(10, 10);
    p.fighter = Some(Fighter { hp: 0, ..p.fighter.unwrap() });
    let mut objects = vec![p, make_monster(10, 11, false)];
    ai_basic(1, &mut g, &mut objects, &fov);
    assert!(g.log.is_empty());
    assert_eq!(objects[PLAYER].fighter.unwrap().hp, 0);
}

#[test]
fn confused_monster_stumbles_then_recovers() {
    let mut g = game();
    let mut objects = vec![player(1, 1), make_monster(10, 10, true)];
    let ai = ai_confused(1, &mut g, &mut objects, Box::new(Ai::Basic), 2);
    match ai {
        Ai::Confused { previous_ai, num_turns } => {
            assert!(matches!(*previous_ai, Ai::Basic));
            assert_eq!(num_turns, 1);
        }
        Ai::Basic => panic!("confusion ended early"),
    }
    let (x, y) = objects[1].pos();
    assert!((x - 10).abs() <= 1 && (y - 10).abs() <= 1);
    assert!(g.log.is_empty());
    let ai = ai_confused(1, &mut g, &mut objects, Box::new(Ai::Basic), -1);
    assert!(matches!(ai, Ai::Basic));
    assert_eq!(objects[1].pos(), (x, y));
    assert_eq!(g.log, vec![(String::from("The orc is no longer confused!"), Color::Red)]);
}

#[test]
fn take_turn_runs_the_behaviour() {
    let fov = all_seen(20, 20);
    let mut g = game();
    let mut objects = vec![player(10, 10), make_monster(5, 10, true)];
    ai_take_turn(1, &mut g, &mut objects, &fov);
    assert_eq!(objects[1].pos(), (6, 10));
    assert!(matches!(objects[1].ai, Some(Ai::Basic)));
    objects[1].ai = Some(Ai::Confused { previous_ai: Box::new(Ai::Basic), num_turns: 0 });
    ai_take_turn(1, &mut g, &mut objects, &fov);
    assert!(matches!(objects[1].ai, Some(Ai::Confused { num_turns: -1, .. })));
    ai_take_turn(1, &mut g, &mut objects, &fov);
    assert!(matches!(objects[1].ai, Some(Ai::Basic)));
    assert_eq!(g.log.last().unwrap().0, "The orc is no longer confused!");
    let mut potion = Object::new(3, 3, '!', "healing potion", Color::Violet, false);
    potion.item = Some(Item::Heal);
    objects.push(potion);
    ai_take_turn(2, &mut g, &mut objects, &fov);
    assert_eq!(objects[2].pos(), (3, 3));
}

#[test]
fn furnishing_draws_varied_cells_and_kinds() {
    let room = Rect::new(0, 0, 10, 10);
    let mut cells = Vec::new();
    let mut orcs = 0;
    let mut trolls = 0;
    for _ in 0..200 {
        let mut map = new_map(12, 12);
        create_room(room, &mut map);
        let mut objects = vec![player(11, 11)];
        place_objects(room, &map, &mut objects);
        for o in &objects[1..] {
            if !cells.contains(&o.pos()) {
                cells.push(o.pos());
            }
            if o.name == "orc" {
                orcs += 1;
            }
            if o.name == "troll" {
                trolls += 1;
            }
        }
    }
    assert!(cells.len() > 10);
    assert!(orcs > trolls);
    assert!(trolls > 0);
}

#[test]
fn furnishing_keeps_exactly_the_free_draws() {
    let room = Rect::new(2, 2, 6, 6);
    let mut map = new_map(12, 12);
    create_room(room, &mut map);
    let mut objects = vec![player(3, 3)];
    let monster_draws = vec![(3, 3, true), (4, 4, true), (4, 4, false), (5, 5, false)];
    let item_draws = vec![(4, 4, 0), (6, 6, 50), (6, 6, 99)];
    furnish_room(room, &map, &mut objects, &monster_draws, &item_draws);
    let names: Vec<&str> = objects.iter().map(|o| o.name.as_str()).collect();
    assert_eq!(names, vec!["player", "orc", "troll", "healing potion", "scroll of fireball"]);
    let cells: Vec<(i32, i32)> = objects.iter().map(|o| o.pos()).collect();
    assert_eq!(cells, vec![(3, 3), (4, 4), (5, 5), (6, 6), (6, 6)]);
}

#[test]
fn layout_keeps_rooms_that_meet_none_before() {
    let rooms = vec![Rect::new(1, 1, 6, 6), Rect::new(3, 3, 6, 6), Rect::new(20, 20, 6, 6)];
    let furnishings = vec![(vec![], vec![]), (vec![(5, 5, true)], vec![]), (vec![(22, 22, true)], vec![])];
    let bends = vec![false, false, true];
    let mut objects = vec![player(0, 0)];
    let map = lay_out_map(&mut objects, &rooms, &furnishings, &bends);
    assert_eq!(objects.len(), 2);
    assert_eq!(objects[PLAYER].pos(), (4, 4));
    assert_eq!(objects[1].name, "orc");
    assert_eq!(objects[1].pos(), (22, 22));
    assert!(!map[10][4].blocked);
    assert!(!map[23][10].blocked);
    assert!(!map[22][22].blocked);
    assert!(map[4][10].blocked);
    assert!(map[8][8].blocked);
}
