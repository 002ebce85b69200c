use roguelike::messages::{add_message, add_str, decimal_string, Color, Messages};
use roguelike::object::{monster_death, player_death, Ai, DeathCallback, Fighter, Item, Object};

fn player() -> Object {
    let mut p = Object::new(5, 5, '@', "player", Color::White, true);
    p.alive = true;
    p.fighter = Some(Fighter { max_hp: 30, hp: 30, defense: 2, power: 5, on_death: DeathCallback::Player });
    p
}

fn orc(x: i32, y: i32) -> Object {
    let mut o = Object::new(x, y, 'o', "orc", Color::DesaturatedGreen, true);
    o.alive = true;
    o.fighter = Some(Fighter { max_hp: 10, hp: 10, defense: 0, power: 3, on_death: DeathCallback::Monster });
    o.ai = Some(Ai::Basic);
    o
}

fn texts(log: &Messages) -> Vec<(String, Color)> {
    log.clone()
}

#[test]
fn decimal_strings() {
    assert_eq!(decimal_string(0), "0");
    assert_eq!(decimal_string(7), "7");
    assert_eq!(decimal_string(10), "10");
    assert_eq!(decimal_string(4096), "4096");
    assert_eq!(decimal_string(u32::MAX), "4294967295");
}

#[test]
fn messages_append_in_order() {
    let mut log: Messages = Vec::new();
    add_str(&mut log, "first", Color::Red);
    add_message(&mut log, String::from("second"), Color::Green);
    assert_eq!(texts(&log), vec![(String::from("first"), Color::Red), (String::from("second"), Color::Green)]);
}

#[test]
fn new_object_fields() {
    let o = Object::new(3, 4, '!', "healing potion", Color::Violet, false);
    assert_eq!((o.x, o.y), (3, 4));
    assert_eq!(o.pos(), (3, 4));
    assert_eq!(o.char, '!');
    assert_eq!(o.name, "healing potion");
    assert_eq!(o.color, Color::Violet);
    assert!(!o.blocks);
    assert!(!o.alive);
    assert!(o.fighter.is_none() && o.ai.is_none() && o.item.is_none());
}

#[test]
fn set_pos_moves_only() {
    let mut o = orc(1, 1);
    o.set_pos(8, -2);
    assert_eq!(o.pos(), (8, -2));
    assert_eq!(o.name, "orc");
    assert_eq!(o.fighter.unwrap().hp, 10);
}

#[test]
fn distance_squared() {
    let o = orc(1, 2);
    assert_eq!(o.distance_sq(4, 6), 25);
    assert_eq!(o.distance_sq(1, 2), 0);
    assert_eq!(o.distance_sq(-2, 2), 9);
}

#[test]
fn take_damage_lowers_hp() {
    let mut o = orc(1, 1);
    let mut log = Vec::new();
    o.take_damage(4, &mut log);
    assert_eq!(o.fighter.unwrap().hp, 6);
    assert!(o.alive);
    assert!(log.is_empty());
}

#[test]
fn take_damage_ignores_non_positive() {
    let mut o = orc(1, 1);
    let mut log = Vec::new();
    o.take_damage(0, &mut log);
    o.take_damage(-5, &mut log);
    assert_eq!(o.fighter.unwrap().hp, 10);
    assert!(log.is_empty());
}

#[test]
fn monster_killed_becomes_corpse() {
    let mut o = orc(2, 3);
    let mut log = Vec::new();
    o.take_damage(10, &mut log);
    assert_eq!(log, vec![(String::from("orc is dead!"), Color::Orange)]);
    assert_eq!(o.name, "remains of orc");
    assert_eq!(o.char, '%');
    assert_eq!(o.color, Color::DarkRed);
    assert!(!o.blocks);
    assert!(!o.alive);
    assert!(o.fighter.is_none());
    assert!(o.ai.is_none());
    assert_eq!(o.item, Some(Item::Corpse));
    assert_eq!(o.pos(), (2, 3));
}

#[test]
fn player_killed_keeps_fighter() {
    let mut p = player();
    let mut log = Vec::new();
    p.take_damage(31, &mut log);
    assert_eq!(log, vec![(String::from("You died!"), Color::DarkRed)]);
    assert_eq!(p.char, '%');
    assert_eq!(p.color, Color::DarkRed);
    assert!(!p.alive);
    assert_eq!(p.fighter.unwrap().hp, -1);
    assert_eq!(p.name, "player");
    assert!(p.blocks);
}

#[test]
fn death_callbacks_directly() {
    let mut log = Vec::new();
    let mut p = player();
    player_death(&mut p, &mut log);
    let mut o = orc(0, 0);
    monster_death(&mut o, &mut log);
    let mut t = orc(0, 0);
    DeathCallback::Monster.callback(&mut t, &mut log);
    assert_eq!(log.len(), 3);
    assert_eq!(log[0].0, "You died!");
    assert_eq!(log[1].0, "orc is dead!");
    assert_eq!(t.name, "remains of orc");
}

#[test]
fn heal_caps_at_max() {
    let mut p = player();
    p.fighter = Some(Fighter { hp: 20, ..p.fighter.unwrap() });
    p.heal(4);
    assert_eq!(p.fighter.unwrap().hp, 24);
    p.heal(100);
    assert_eq!(p.fighter.unwrap().hp, 30);
    let mut potion = Object::new(0, 0, '!', "healing potion", Color::Violet, false);
    potion.heal(4);
    assert!(potion.fighter.is_none());
}

#[test]
fn attack_deals_power_minus_defense() {
    let mut p = player();
    let mut o = orc(6, 5);
    let mut log = Vec::new();
    p.attack(&mut o, &mut log);
    assert_eq!(log, vec![(String::from("player attacks orc for 5 hit points."), Color::White)]);
    assert_eq!(o.fighter.unwrap().hp, 5);
    p.attack(&mut o, &mut log);
    assert_eq!(log.len(), 3);
    assert_eq!(log[2], (String::from("orc is dead!"), Color::Orange));
    assert_eq!(o.name, "remains of orc");
}

#[test]
fn attack_without_effect() {
    let mut o = orc(6, 5);
    let mut p = player();
    p.fighter = Some(Fighter { defense: 3, ..p.fighter.unwrap() });
    let mut log = Vec::new();
    o.attack(&mut p, &mut log);
    assert_eq!(log, vec![(String::from("orc attacks player but it has no effect!"), Color::Grey)]);
    assert_eq!(p.fighter.unwrap().hp, 30);
}

#[test]
fn distance_squared_up_to_the_limit() {
    let o = orc(0, 0);
    assert_eq!(o.distance_sq(46340, 0), 2147395600);
    assert_eq!(o.distance_sq(-46340, 0), 2147395600);
    assert_eq!(o.distance_sq(30000, 30000), 1800000000);
}
