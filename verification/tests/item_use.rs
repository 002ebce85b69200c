use roguelike::fov::Fov;
use roguelike::items::{
    cast_confuse, cast_fireball, cast_heal, cast_lightning, closest_monster, eat_corpse,
    finish_use, use_item, UseStep, CONFUSE_NUM_TURNS, FIREBALL_DAMAGE, LIGHTNING_DAMAGE,
    LIGHTNING_RANGE,
};
use roguelike::map::Tile;
use roguelike::messages::Color;
use roguelike::object::{Ai, DeathCallback, Fighter, Item, Object, UseResult};
use roguelike::world::{Game, PLAYER};

fn open_map(w: usize, h: usize) -> Vec<Vec<Tile>> {
    vec![vec![Tile::empty(); h]; w]
}

fn all_seen(w: usize, h: usize) -> Fov {
    Fov { visible: vec![vec![true; h]; w] }
}

fn game() -> Game {
    Game { map: open_map(30, 30), log: Vec::new(), inventory: Vec::new() }
}

fn player(x: i32, y: i32) -> Object {
    let mut p = Object::new(x, y, '@', "player", Color::White, true);
    p.alive = true;
    p.fighter = Some(Fighter { max_hp: 30, hp: 30, defense: 2, power: 5, on_death: DeathCallback::Player });
    p
}

fn orc(x: i32, y: i32) -> Object {
    let mut o = Object::new(x, y, 'o', "orc", Color::DesaturatedGreen, true);
    o.alive = true;
    o.fighter = Some(Fighter { max_hp: 10, hp: 10, defense: 0, power: 3, on_death: DeathCallback::Monster });
    o.ai = Some(Ai::Basic);
    o
}

fn troll(x: i32, y: i32) -> Object {
    let mut t = Object::new(x, y, 'T', "troll", Color::DarkerGreen, true);
    t.alive = true;
    t.fighter = Some(Fighter { max_hp: 16, hp: 16, defense: 1, power: 4, on_death: DeathCallback::Monster });
    t.ai = Some(Ai::Basic);
    t
}

fn scroll(name: &str, item: Item) -> Object {
    let mut o = Object::new(0, 0, '?', name, Color::LightYellow, false);
    o.item = Some(item);
    o
}

#[test]
fn closest_monster_picks_nearest_in_sight_and_range() {
    let fov = all_seen(30, 30);
    let objects = vec![player(10, 10), orc(15, 10), troll(12, 11), orc(10, 19)];
    assert_eq!(closest_monster(LIGHTNING_RANGE, &objects, &fov), Some(2));
    assert_eq!(closest_monster(1, &objects, &fov), None);
    assert_eq!(closest_monster(2, &objects, &fov), Some(2));
}

#[test]
fn closest_monster_first_on_tie_and_skips_unseen() {
    let mut fov = all_seen(30, 30);
    let objects = vec![player(10, 10), orc(12, 10), orc(10, 12), troll(11, 10)];
    assert_eq!(closest_monster(LIGHTNING_RANGE, &objects, &fov), Some(3));
    fov.visible[11][10] = false;
    assert_eq!(closest_monster(LIGHTNING_RANGE, &objects, &fov), Some(1));
}

#[test]
fn closest_monster_range_edge() {
    let fov = all_seen(30, 30);
    let objects = vec![player(0, 0), orc(8, 0)];
    assert_eq!(closest_monster(8, &objects, &fov), Some(1));
    let objects = vec![player(0, 0), orc(9, 0)];
    assert_eq!(closest_monster(8, &objects, &fov), None);
    let objects = vec![player(0, 0), orc(0, 0)];
    assert_eq!(closest_monster(-1, &objects, &fov), None);
}

#[test]
fn lightning_strikes_closest() {
    let fov = all_seen(30, 30);
    let mut g = game();
    let mut objects = vec![player(10, 10), troll(13, 10), orc(20, 20)];
    let r = cast_lightning(0, &mut objects, &mut g, &fov);
    assert_eq!(r, UseResult::UsedUp);
    assert_eq!(objects[1].fighter.unwrap().hp, 16 - LIGHTNING_DAMAGE);
    assert_eq!(
        g.log,
        vec![(
            String::from("A lightning bold strikes the troll with a loud thunder! The damage is 12 hit points."),
            Color::LightBlue
        )]
    );
    assert_eq!(objects[2].fighter.unwrap().hp, 10);
}

#[test]
fn lightning_kills_orc() {
    let fov = all_seen(30, 30);
    let mut g = game();
    let mut objects = vec![player(10, 10), orc(11, 10)];
    let r = cast_lightning(0, &mut objects, &mut g, &fov);
    assert_eq!(r, UseResult::UsedUp);
    assert_eq!(g.log.len(), 2);
    assert_eq!(g.log[1], (String::from("orc is dead!"), Color::Orange));
    assert_eq!(objects[1].name, "remains of orc");
}

#[test]
fn lightning_without_target() {
    let fov = all_seen(30, 30);
    let mut g = game();
    let mut objects = vec![player(10, 10), orc(25, 25)];
    let r = cast_lightning(0, &mut objects, &mut g, &fov);
    assert_eq!(r, UseResult::Cancelled);
    assert_eq!(g.log, vec![(String::from("No enemy is close enough to strike."), Color::Red)]);
    assert_eq!(objects[1].fighter.unwrap().hp, 10);
}

#[test]
fn heal_at_full_health_is_cancelled() {
    let mut g = game();
    let mut objects = vec![player(1, 1)];
    assert_eq!(cast_heal(0, &mut objects, &mut g), UseResult::Cancelled);
    assert_eq!(g.log, vec![(String::from("You are already at full health."), Color::Red)]);
}

#[test]
fn heal_restores_hit_points() {
    let mut g = game();
    let mut p = player(1, 1);
    p.fighter = Some(Fighter { hp: 10, ..p.fighter.unwrap() });
    let mut objects = vec![p];
    assert_eq!(cast_heal(0, &mut objects, &mut g), UseResult::UsedUp);
    assert_eq!(objects[0].fighter.unwrap().hp, 14);
    assert_eq!(g.log, vec![(String::from("Your wounds start to feel better!"), Color::LightViolet)]);
}

#[test]
fn heal_without_fighter_is_cancelled_silently() {
    let mut g = game();
    let mut objects = vec![Object::new(1, 1, '@', "ghost", Color::White, true)];
    assert_eq!(cast_heal(0, &mut objects, &mut g), UseResult::Cancelled);
    assert!(g.log.is_empty());
}

#[test]
fn eating_a_corpse_is_declined() {
    let mut g = game();
    let mut objects = vec![player(1, 1)];
    assert_eq!(eat_corpse(0, &mut objects, &mut g), UseResult::Cancelled);
    assert_eq!(
        g.log,
        vec![(String::from("You start to dine then think better of it."), Color::Green)]
    );
}

#[test]
fn fireball_burns_fighters_in_radius() {
    let mut g = game();
    let mut objects = vec![player(10, 10), orc(12, 12), troll(14, 10), orc(20, 20)];
    let r = cast_fireball(0, Some((12, 10)), &mut objects, &mut g);
    assert_eq!(r, UseResult::UsedUp);
    assert_eq!(objects[0].fighter.unwrap().hp, 30 - FIREBALL_DAMAGE);
    assert_eq!(objects[1].name, "remains of orc");
    assert_eq!(objects[2].fighter.unwrap().hp, 16 - FIREBALL_DAMAGE);
    assert_eq!(objects[3].fighter.unwrap().hp, 10);
    let texts: Vec<String> = g.log.iter().map(|m| m.0.clone()).collect();
    assert_eq!(
        texts,
        vec![
            String::from("The fireball explodes, burning everything within 3 tiles!"),
            String::from("The player gets burned for 10 hit points."),
            String::from("The orc gets burned for 10 hit points."),
            String::from("orc is dead!"),
            String::from("The troll gets burned for 10 hit points."),
        ]
    );
    assert_eq!(g.log[0].1, Color::Orange);
}

#[test]
fn fireball_cancelled_without_target() {
    let mut g = game();
    let mut objects = vec![player(10, 10)];
    assert_eq!(cast_fireball(0, None, &mut objects, &mut g), UseResult::Cancelled);
    assert!(g.log.is_empty());
    assert_eq!(objects[0].fighter.unwrap().hp, 30);
}

#[test]
fn confuse_replaces_behaviour() {
    let mut g = game();
    let mut objects = vec![player(10, 10), orc(12, 10)];
    let r = cast_confuse(0, Some(1), &mut objects, &mut g);
    assert_eq!(r, UseResult::UsedUp);
    match &objects[1].ai {
        Some(Ai::Confused { previous_ai, num_turns }) => {
            assert!(matches!(**previous_ai, Ai::Basic));
            assert_eq!(*num_turns, CONFUSE_NUM_TURNS);
        }
        _ => panic!("not confused"),
    }
    assert_eq!(
        g.log,
        vec![(
            String::from("The eyes of orc look vacent and he starts to stumble around!"),
            Color::LightGreen
        )]
    );
}

#[test]
fn confuse_without_target() {
    let mut g = game();
    let mut objects = vec![player(10, 10)];
    assert_eq!(cast_confuse(0, None, &mut objects, &mut g), UseResult::Cancelled);
    assert_eq!(g.log, vec![(String::from("No enemy is close enough to strike."), Color::Red)]);
}

#[test]
fn finish_use_removes_or_logs() {
    let mut g = game();
    g.inventory.push(scroll("scroll of fireball", Item::Fireball));
    g.inventory.push(scroll("scroll of confusion", Item::Confuse));
    finish_use(1, UseResult::Cancelled, &mut g);
    assert_eq!(g.inventory.len(), 2);
    assert_eq!(g.log, vec![(String::from("Cancelled"), Color::White)]);
    finish_use(0, UseResult::UsedUp, &mut g);
    assert_eq!(g.inventory.len(), 1);
    assert_eq!(g.inventory[0].name, "scroll of confusion");
}

#[test]
fn use_potion_spends_it() {
    let fov = all_seen(30, 30);
    let mut g = game();
    let mut p = player(1, 1);
    p.fighter = Some(Fighter { hp: 5, ..p.fighter.unwrap() });
    let mut objects = vec![p];
    let mut potion = Object::new(0, 0, '!', "healing potion", Color::Violet, false);
    potion.item = Some(Item::Heal);
    g.inventory.push(potion);
    assert_eq!(use_item(0, &mut g, &mut objects, &fov), UseStep::Finished);
    assert!(g.inventory.is_empty());
    assert_eq!(objects[PLAYER].fighter.unwrap().hp, 9);
}

#[test]
fn use_potion_at_full_health_keeps_it() {
    let fov = all_seen(30, 30);
    let mut g = game();
    let mut objects = vec![player(1, 1)];
    let mut potion = Object::new(0, 0, '!', "healing potion", Color::Violet, false);
    potion.item = Some(Item::Heal);
    g.inventory.push(potion);
    assert_eq!(use_item(0, &mut g, &mut objects, &fov), UseStep::Finished);
    assert_eq!(g.inventory.len(), 1);
    let texts: Vec<String> = g.log.iter().map(|m| m.0.clone()).collect();
    assert_eq!(texts, vec![String::from("You are already at full health."), String::from("Cancelled")]);
}

#[test]
fn use_non_item_is_refused() {
    let fov = all_seen(30, 30);
    let mut g = game();
    let mut objects = vec![player(1, 1)];
    g.inventory.push(Object::new(0, 0, '*', "rock", Color::Grey, false));
    assert_eq!(use_item(0, &mut g, &mut objects, &fov), UseStep::Finished);
    assert_eq!(g.inventory.len(), 1);
    assert_eq!(g.log, vec![(String::from("The rock cannot be used."), Color::White)]);
}

#[test]
fn use_scrolls_that_need_a_target() {
    let fov = all_seen(30, 30);
    let mut g = game();
    let mut objects = vec![player(1, 1)];
    g.inventory.push(scroll("scroll of fireball", Item::Fireball));
    g.inventory.push(scroll("scroll of confusion", Item::Confuse));
    assert_eq!(use_item(0, &mut g, &mut objects, &fov), UseStep::ChooseTile);
    assert_eq!(use_item(1, &mut g, &mut objects, &fov), UseStep::ChooseMonster);
    assert_eq!(g.inventory.len(), 2);
    assert_eq!(
        g.log,
        vec![
            (
                String::from("Left-click a target tile for the fireball, or right-click to cancel."),
                Color::LightCyan
            ),
            (String::from("Left-click an enemy to confuse it, or right-click to cancel."), Color::LightCyan),
        ]
    );
}

#[test]
fn use_corpse_and_lightning() {
    let fov = all_seen(30, 30);
    let mut g = game();
    let mut objects = vec![player(1, 1), troll(2, 2)];
    g.inventory.push(scroll("remains of orc", Item::Corpse));
    g.inventory.push(scroll("scroll of lightning bolt", Item::Lightning));
    assert_eq!(use_item(0, &mut g, &mut objects, &fov), UseStep::Finished);
    assert_eq!(g.inventory.len(), 2);
    assert_eq!(use_item(1, &mut g, &mut objects, &fov), UseStep::Finished);
    assert_eq!(g.inventory.len(), 1);
    assert_eq!(objects[1].fighter.unwrap().hp, 4);
    let texts: Vec<String> = g.log.iter().map(|m| m.0.clone()).collect();
    assert_eq!(texts[0], "You start to dine then think better of it.");
    assert_eq!(texts[1], "Cancelled");
}

#[test]
fn heal_at_the_limit_of_hit_points() {
    let mut g = game();
    let mut p = player(1, 1);
    p.fighter = Some(Fighter { hp: i32::MAX, max_hp: i32::MAX, ..p.fighter.unwrap() });
    let mut objects = vec![p];
    assert_eq!(cast_heal(0, &mut objects, &mut g), UseResult::Cancelled);
    assert_eq!(objects[0].fighter.unwrap().hp, i32::MAX);
}
