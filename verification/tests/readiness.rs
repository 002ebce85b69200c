use roguelike::ai::{monsters_take_turns, turn_ready};
use roguelike::dungeon::{make_map, make_monster};
use roguelike::fov::Fov;
use roguelike::interface::{key_ready, monsters_act, outcome_action, Key, KeyCode, KeyOutcome, PlayerAction};
use roguelike::items::{fireball_ready, lightning_ready, use_ready};
use roguelike::map::{on_map_at, Tile};
use roguelike::messages::Color;
use roguelike::object::{Ai, DeathCallback, Fighter, Item, Object};
use roguelike::world::{move_ready, Game, MAP_HEIGHT, MAP_WIDTH, PLAYER};

fn open_map(w: usize, h: usize) -> Vec<Vec<Tile>> {
    vec![vec![Tile::empty(); h]; w]
}

fn all_seen(w: usize, h: usize) -> Fov {
    Fov { visible: vec![vec![true; h]; w] }
}

fn game(w: usize, h: usize) -> Game {
    Game { map: open_map(w, h), log: Vec::new(), inventory: Vec::new() }
}

fn player(x: i32, y: i32) -> Object {
    let mut p = Object::new(x, y, '@', "player", Color::White, true);
    p.alive = true;
    p.fighter = Some(Fighter { max_hp: 30, hp: 30, defense: 2, power: 5, on_death: DeathCallback::Player });
    p
}

#[test]
fn map_and_fov_bounds() {
    let map = open_map(3, 2);
    assert!(on_map_at(&map, 0, 0));
    assert!(on_map_at(&map, 2, 1));
    assert!(!on_map_at(&map, 3, 0));
    assert!(!on_map_at(&map, 0, 2));
    assert!(!on_map_at(&map, -1, 0));
    let fov = all_seen(3, 2);
    assert!(fov.covers(2, 1));
    assert!(!fov.covers(2, 2));
    assert!(!fov.covers(-1, 1));
    assert!(fov.is_in_fov(1, 1));
}

#[test]
fn player_move_readiness() {
    let map = open_map(5, 5);
    let objects = vec![player(4, 2)];
    assert!(!move_ready(1, 0, &map, &objects));
    assert!(move_ready(-1, 0, &map, &objects));
    let mut weird = make_monster(3, 2, true);
    weird.fighter = Some(Fighter { power: i32::MIN, ..weird.fighter.unwrap() });
    let mut p = player(4, 2);
    p.fighter = Some(Fighter { power: i32::MAX, ..p.fighter.unwrap() });
    let objects = vec![p, make_monster(3, 2, true)];
    assert!(move_ready(-1, 0, &map, &objects));
    let mut orc = make_monster(3, 2, true);
    orc.fighter = Some(Fighter { defense: -5, ..orc.fighter.unwrap() });
    let mut p = player(4, 2);
    p.fighter = Some(Fighter { power: i32::MAX, ..p.fighter.unwrap() });
    let objects = vec![p, orc];
    assert!(!move_ready(-1, 0, &map, &objects));
    assert!(!move_ready(0, 0, &map, &vec![player(1, 1)]));
    assert!(!move_ready(0, 0, &map, &Vec::new()));
}

#[test]
fn key_readiness() {
    let g = game(5, 5);
    let objects = vec![player(4, 4)];
    let right = Key { code: KeyCode::Right, printable: '\0', alt: false };
    let left = Key { code: KeyCode::Left, printable: '\0', alt: false };
    let other = Key { code: KeyCode::Other, printable: 'x', alt: false };
    assert!(!key_ready(right, &g, &objects));
    assert!(key_ready(left, &g, &objects));
    assert!(key_ready(other, &g, &objects));
    let mut dead = player(4, 4);
    dead.alive = false;
    assert!(key_ready(right, &g, &vec![dead]));
}

#[test]
fn monsters_act_after_a_turn() {
    assert!(monsters_act(true, PlayerAction::TookTurn));
    assert!(monsters_act(true, PlayerAction::Exit));
    assert!(!monsters_act(true, PlayerAction::DidntTakeTurn));
    assert!(!monsters_act(false, PlayerAction::TookTurn));
}

#[test]
fn lightning_and_use_readiness() {
    let fov = all_seen(10, 10);
    let objects = vec![player(1, 1), make_monster(2, 2, true)];
    assert!(lightning_ready(&objects, &fov));
    let mut far = make_monster(2, 2, false);
    far.set_pos(20, 20);
    assert!(!lightning_ready(&vec![player(1, 1), far], &fov));
    let mut low = make_monster(2, 2, true);
    low.fighter = Some(Fighter { hp: i32::MIN + 5, ..low.fighter.unwrap() });
    assert!(!lightning_ready(&vec![player(1, 1), low], &fov));
    assert!(lightning_ready(&Vec::new(), &fov));

    let mut g = game(10, 10);
    let mut potion = Object::new(0, 0, '!', "healing potion", Color::Violet, false);
    potion.item = Some(Item::Heal);
    g.inventory.push(potion);
    assert!(use_ready(0, &g, &objects, &fov));
    assert!(!use_ready(1, &g, &objects, &fov));
    let mut strong = player(1, 1);
    strong.fighter = Some(Fighter { hp: i32::MAX - 1, max_hp: i32::MAX, ..strong.fighter.unwrap() });
    assert!(!use_ready(0, &g, &vec![strong], &fov));
    let mut full = player(1, 1);
    full.fighter = Some(Fighter { hp: i32::MAX, max_hp: i32::MAX, ..full.fighter.unwrap() });
    assert!(use_ready(0, &g, &vec![full], &fov));
    let mut low_far = make_monster(9, 9, true);
    low_far.fighter = Some(Fighter { hp: i32::MIN + 5, ..low_far.fighter.unwrap() });
    assert!(lightning_ready(&vec![player(0, 0), make_monster(1, 1, true), low_far], &fov));
}

#[test]
fn fireball_readiness() {
    let objects = vec![player(1, 1), make_monster(2, 2, true)];
    assert!(fireball_ready(&objects, 2, 2));
    assert!(fireball_ready(&objects, 40000, 2));
    assert!(!fireball_ready(&objects, 50000, 2));
    let mut low = make_monster(2, 2, true);
    low.fighter = Some(Fighter { hp: i32::MIN + 5, ..low.fighter.unwrap() });
    assert!(!fireball_ready(&vec![player(1, 1), low], 2, 2));
    let mut low = make_monster(2, 2, true);
    low.fighter = Some(Fighter { hp: i32::MIN + 5, ..low.fighter.unwrap() });
    assert!(fireball_ready(&vec![player(1, 1), low], 9, 9));
}

#[test]
fn turn_readiness() {
    let fov = all_seen(10, 10);
    let map = open_map(10, 10);
    let objects = vec![player(5, 5), make_monster(2, 5, true), make_monster(0, 0, true)];
    assert!(turn_ready(0, &map, &objects, &fov));
    assert!(turn_ready(1, &map, &objects, &fov));
    assert!(!turn_ready(3, &map, &objects, &fov));
    let mut confused = make_monster(0, 3, true);
    confused.ai = Some(Ai::Confused { previous_ai: Box::new(Ai::Basic), num_turns: 3 });
    let objects = vec![player(5, 5), confused];
    assert!(!turn_ready(1, &map, &objects, &fov));
    let mut confused = make_monster(1, 3, true);
    confused.ai = Some(Ai::Confused { previous_ai: Box::new(Ai::Basic), num_turns: 3 });
    let objects = vec![player(5, 5), confused];
    assert!(turn_ready(1, &map, &objects, &fov));
    let small = Fov { visible: vec![vec![true; 3]; 3] };
    let objects = vec![player(5, 5), make_monster(4, 4, true)];
    assert!(!turn_ready(1, &map, &objects, &small));
}

#[test]
fn every_monster_takes_its_turn() {
    let fov = all_seen(20, 20);
    let mut g = game(20, 20);
    let mut potion = Object::new(3, 3, '!', "healing potion", Color::Violet, false);
    potion.item = Some(Item::Heal);
    let mut objects = vec![player(10, 10), make_monster(5, 10, true), potion, make_monster(10, 11, false)];
    assert_eq!(monsters_take_turns(&mut g, &mut objects, &fov), None);
    assert_eq!(objects[1].pos(), (6, 10));
    assert_eq!(objects[2].pos(), (3, 3));
    assert_eq!(objects[3].pos(), (10, 11));
    assert_eq!(objects[PLAYER].fighter.unwrap().hp, 28);
    assert_eq!(g.log, vec![(String::from("troll attacks player for 2 hit points."), Color::White)]);
}

#[test]
fn round_stops_where_a_turn_cannot_be_taken() {
    let fov = all_seen(20, 20);
    let mut g = game(20, 20);
    let mut confused = make_monster(0, 5, true);
    confused.ai = Some(Ai::Confused { previous_ai: Box::new(Ai::Basic), num_turns: 2 });
    let mut objects = vec![player(10, 10), make_monster(5, 10, true), confused, make_monster(15, 10, true)];
    assert_eq!(monsters_take_turns(&mut g, &mut objects, &fov), Some(2));
    assert_eq!(objects[1].pos(), (6, 10));
    assert_eq!(objects[3].pos(), (15, 10));
}

#[test]
fn fresh_world_rounds_never_stop() {
    for _ in 0..5 {
        let mut objects = vec![player(0, 0)];
        let map = make_map(&mut objects);
        let mut g = Game { map, log: Vec::new(), inventory: Vec::new() };
        let fov = all_seen(MAP_WIDTH as usize, MAP_HEIGHT as usize);
        for _ in 0..30 {
            assert_eq!(monsters_take_turns(&mut g, &mut objects, &fov), None);
            for o in &objects {
                assert!(!g.map[o.x as usize][o.y as usize].blocked);
                if let Some(f) = o.fighter {
                    assert!(f.hp <= f.max_hp);
                }
            }
        }
    }
}

#[test]
fn key_outcomes_as_actions() {
    use_outcome(KeyOutcome::Done(PlayerAction::Exit), PlayerAction::Exit);
    use_outcome(KeyOutcome::Done(PlayerAction::DidntTakeTurn), PlayerAction::DidntTakeTurn);
    use_outcome(KeyOutcome::DropMenu, PlayerAction::TookTurn);
    use_outcome(KeyOutcome::UseMenu, PlayerAction::TookTurn);
    use_outcome(KeyOutcome::ToggleFullscreen, PlayerAction::DidntTakeTurn);
}

fn use_outcome(outcome: KeyOutcome, expected: PlayerAction) {
    assert_eq!(outcome_action(outcome), expected);
}
