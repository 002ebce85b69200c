use roguelike::dungeon::{dig_tunnel, make_map, room_is_free};
use roguelike::map::{create_h_tunnel, create_room, create_v_tunnel, new_map, set_tile, tile_color, Rect, Tile};
use roguelike::messages::Color;
use roguelike::object::Object;
use roguelike::world::{MAP_HEIGHT, MAP_WIDTH, PLAYER};

fn open_cells(map: &Vec<Vec<Tile>>) -> Vec<(usize, usize)> {
    let mut cells = Vec::new();
    for x in 0..map.len() {
        for y in 0..map[x].len() {
            if !map[x][y].blocked {
                cells.push((x, y));
            }
        }
    }
    cells
}

#[test]
fn new_map_is_all_wall() {
    let map = new_map(4, 3);
    assert_eq!(map.len(), 4);
    for column in &map {
        assert_eq!(column.len(), 3);
        for tile in column {
            assert_eq!(*tile, Tile::wall());
        }
    }
}

#[test]
fn set_tile_changes_one_cell() {
    let mut map = new_map(3, 3);
    set_tile(&mut map, 1, 2, Tile::empty());
    assert_eq!(open_cells(&map), vec![(1, 2)]);
}

#[test]
fn room_carves_only_its_interior() {
    let mut map = new_map(10, 10);
    create_room(Rect::new(2, 3, 4, 3), &mut map);
    let mut expected = Vec::new();
    for x in 3..6 {
        for y in 4..6 {
            expected.push((x, y));
        }
    }
    assert_eq!(open_cells(&map), expected);
}

#[test]
fn tunnels_carve_both_ends_in_either_order() {
    let mut map = new_map(10, 10);
    create_h_tunnel(7, 3, 2, &mut map);
    assert_eq!(open_cells(&map), vec![(3, 2), (4, 2), (5, 2), (6, 2), (7, 2)]);
    let mut map = new_map(10, 10);
    create_v_tunnel(1, 4, 8, &mut map);
    assert_eq!(open_cells(&map), vec![(8, 1), (8, 2), (8, 3), (8, 4)]);
}

#[test]
fn tile_colors() {
    assert_eq!(tile_color(false, true), Color::Rgb(0, 0, 100));
    assert_eq!(tile_color(false, false), Color::Rgb(50, 50, 150));
    assert_eq!(tile_color(true, true), Color::Rgb(130, 110, 50));
    assert_eq!(tile_color(true, false), Color::Rgb(200, 180, 50));
}

#[test]
fn room_is_free_checks_every_room() {
    let rooms = vec![Rect::new(0, 0, 6, 6), Rect::new(20, 20, 6, 6)];
    assert!(room_is_free(&Rect::new(10, 10, 6, 6), &rooms));
    assert!(!room_is_free(&Rect::new(26, 10, 6, 10), &rooms));
    assert!(!room_is_free(&Rect::new(3, 3, 6, 6), &rooms));
    assert!(room_is_free(&Rect::new(3, 3, 6, 6), &Vec::new()));
}

#[test]
fn made_map_places_player_on_floor() {
    for _ in 0..20 {
        let player = Object::new(0, 0, '@', "player", Color::White, true);
        let mut objects = vec![player];
        let map = make_map(&mut objects);
        assert_eq!(map.len(), MAP_WIDTH as usize);
        for column in &map {
            assert_eq!(column.len(), MAP_HEIGHT as usize);
        }
        let (px, py) = objects[PLAYER].pos();
        assert!(!map[px as usize][py as usize].blocked);
        assert_eq!(objects[PLAYER].name, "player");
        for o in &objects[1..] {
            assert!(!map[o.x as usize][o.y as usize].blocked);
            assert!(o.fighter.is_some() || o.item.is_some());
        }
    }
}

#[test]
fn made_map_edges_stay_wall() {
    let mut objects = vec![Object::new(0, 0, '@', "player", Color::White, true)];
    let map = make_map(&mut objects);
    for x in 0..MAP_WIDTH as usize {
        assert!(map[x][0].blocked);
    }
    for y in 0..MAP_HEIGHT as usize {
        assert!(map[0][y].blocked);
    }
}

#[test]
fn tunnels_bend_as_asked() {
    use_bend(true, vec![(2, 2), (3, 2), (4, 2), (5, 2), (5, 3), (5, 4)]);
    use_bend(false, vec![(2, 2), (2, 3), (2, 4), (3, 4), (4, 4), (5, 4)]);
}

fn use_bend(horizontal_first: bool, expected: Vec<(usize, usize)>) {
    let mut map = new_map(MAP_WIDTH as usize, MAP_HEIGHT as usize);
    dig_tunnel((2, 2), (5, 4), horizontal_first, &mut map);
    assert_eq!(open_cells(&map), expected);
}

#[test]
fn made_map_is_connected() {
    for _ in 0..10 {
        let mut objects = vec![Object::new(0, 0, '@', "player", Color::White, true)];
        let map = make_map(&mut objects);
        let (px, py) = objects[PLAYER].pos();
        let mut seen = vec![vec![false; MAP_HEIGHT as usize]; MAP_WIDTH as usize];
        let mut stack = vec![(px as usize, py as usize)];
        seen[px as usize][py as usize] = true;
        while let Some((x, y)) = stack.pop() {
            let around = [(x + 1, y), (x - 1, y), (x, y + 1), (x, y - 1)];
            for (nx, ny) in around {
                if !map[nx][ny].blocked && !seen[nx][ny] {
                    seen[nx][ny] = true;
                    stack.push((nx, ny));
                }
            }
        }
        for (x, y) in open_cells(&map) {
            assert!(seen[x][y]);
        }
    }
}
