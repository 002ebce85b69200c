use vstd::prelude::*;
use crate::map::{
    Rect, Tile, TileMap, carved, closed_border, create_h_tunnel, create_room, create_v_tunnel,
    floor, in_interior, lemma_carving_keeps_border, lemma_center_inside, map_shape, new_map,
    on_h_run, on_map, on_v_run, open_cell, rect_center, rects_meet, same_shape, tile_at, wall,
};
use crate::messages::Color;
use crate::paths::{
    connected, lemma_connected_column, lemma_connected_here, lemma_connected_row,
    lemma_connected_trans,
};
use crate::object::{Ai, DeathCallback, Fighter, Item, Object, all_modest, all_within_max};
use crate::random::{random_bool, random_range, random_ratio};
use crate::world::{
    MAP_HEIGHT, MAP_WIDTH, PLAYER, all_on_floor, blocked_at, is_blocked, object_blocks, placed,
    world_ok,
};

verus! {

/// Largest width and height of a room.
pub const ROOM_MAX_SIZE: i32 = 10;
/// Smallest width and height of a room.
pub const ROOM_MIN_SIZE: i32 = 6;
/// How many rooms the map generator tries to place.
pub const MAX_ROOMS: i32 = 40;
/// Most monsters placed in one room.
pub const MAX_ROOM_MONSTERS: i32 = 3;
/// Most items placed in one room.
pub const MAX_ROOM_ITEMS: i32 = 3;

/// An orc standing at (x, y).
pub open spec fn is_orc(o: Object, x: int, y: int) -> bool {
    &&& o.x == x && o.y == y
    &&& o.char == 'o'
    &&& o.name@ == "orc"@
    &&& o.color == Color::DesaturatedGreen
    &&& o.blocks
    &&& o.alive
    &&& o.fighter == Some(
        Fighter { max_hp: 10, hp: 10, defense: 0, power: 3, on_death: DeathCallback::Monster },
    )
    &&& o.ai == Some(Ai::Basic)
    &&& o.item is None
}

/// A troll standing at (x, y).
pub open spec fn is_troll(o: Object, x: int, y: int) -> bool {
    &&& o.x == x && o.y == y
    &&& o.char == 'T'
    &&& o.name@ == "troll"@
    &&& o.color == Color::DarkerGreen
    &&& o.blocks
    &&& o.alive
    &&& o.fighter == Some(
        Fighter { max_hp: 16, hp: 16, defense: 1, power: 4, on_death: DeathCallback::Monster },
    )
    &&& o.ai == Some(Ai::Basic)
    &&& o.item is None
}

/// The item lying at (x, y) for a die roll from 0 to 99: a healing potion
/// below 70, a confusion scroll below 85, a lightning scroll below 95, and a
/// fireball scroll otherwise.
pub open spec fn is_item_for(o: Object, x: int, y: int, dice: int) -> bool {
    &&& o.x == x && o.y == y
    &&& !o.blocks
    &&& !o.alive
    &&& o.fighter is None
    &&& o.ai is None
    &&& if dice < 70 {
        &&& o.char == '!'
        &&& o.name@ == "healing potion"@
        &&& o.color == Color::Violet
        &&& o.item == Some(Item::Heal)
    } else if dice < 85 {
        &&& o.char == '?'
        &&& o.name@ == "scroll of confusion"@
        &&& o.color == Color::LightYellow
        &&& o.item == Some(Item::Confuse)
    } else if dice < 95 {
        &&& o.char == '?'
        &&& o.name@ == "scroll of lightning bolt"@
        &&& o.color == Color::LightYellow
        &&& o.item == Some(Item::Lightning)
    } else {
        &&& o.char == '?'
        &&& o.name@ == "scroll of fireball"@
        &&& o.color == Color::LightYellow
        &&& o.item == Some(Item::Fireball)
    }
}

/// A new monster at (x, y): an orc when `orc` holds, else a troll.
pub fn make_monster(x: i32, y: i32, orc: bool) -> (m: Object)
    ensures
        if orc {
            is_orc(m, x as int, y as int)
        } else {
            is_troll(m, x as int, y as int)
        },
{
    let mut monster = if orc {
        let mut orc = Object::new(x, y, 'o', "orc", Color::DesaturatedGreen, true);
        orc.fighter = Some(
            Fighter { max_hp: 10, hp: 10, defense: 0, power: 3, on_death: DeathCallback::Monster },
        );
        orc.ai = Some(Ai::Basic);
        orc
    } else {
        let mut troll = Object::new(x, y, 'T', "troll", Color::DarkerGreen, true);
        troll.fighter = Some(
            Fighter { max_hp: 16, hp: 16, defense: 1, power: 4, on_death: DeathCallback::Monster },
        );
        troll.ai = Some(Ai::Basic);
        troll
    };
    monster.alive = true;
    monster
}

/// A new item at (x, y) for the die roll `dice`.
pub fn make_item(x: i32, y: i32, dice: i32) -> (o: Object)
    ensures
        is_item_for(o, x as int, y as int, dice as int),
{
    if dice < 70 {
        let mut object = Object::new(x, y, '!', "healing potion", Color::Violet, false);
        object.item = Some(Item::Heal);
        object
    } else if dice < 85 {
        let mut object = Object::new(x, y, '?', "scroll of confusion", Color::LightYellow, false);
        object.item = Some(Item::Confuse);
        object
    } else if dice < 95 {
        let mut object = Object::new(
            x,
            y,
            '?',
            "scroll of lightning bolt",
            Color::LightYellow,
            false,
        );
        object.item = Some(Item::Lightning);
        object
    } else {
        let mut object = Object::new(x, y, '?', "scroll of fireball", Color::LightYellow, false);
        object.item = Some(Item::Fireball);
        object
    }
}

/// Whether the room has an inside, and that inside lies on the map.
pub open spec fn room_inside_map(room: Rect, map: Seq<Vec<Tile>>) -> bool {
    &&& room.x1 + 1 < room.x2
    &&& room.y1 + 1 < room.y2
    &&& forall|x: int, y: int| in_interior(room, x, y) ==> #[trigger] on_map(map, x, y)
}

/// Whether the object at `k` was placed by room furnishing: a monster or an
/// item inside the room, on a cell that no wall and no earlier object
/// blocked.
pub open spec fn furnished(map: Seq<Vec<Tile>>, objects: Seq<Object>, room: Rect, k: int) -> bool {
    let o = objects[k];
    &&& in_interior(room, o.x as int, o.y as int)
    &&& !blocked_at(map, objects.take(k), o.x as int, o.y as int)
    &&& (is_orc(o, o.x as int, o.y as int) || is_troll(o, o.x as int, o.y as int) || exists|dice: int|
        0 <= dice < 100 && #[trigger] is_item_for(o, o.x as int, o.y as int, dice))
}

/// An orc or a troll.
pub open spec fn is_monster(o: Object) -> bool {
    is_orc(o, o.x as int, o.y as int) || is_troll(o, o.x as int, o.y as int)
}

/// An item that room furnishing lays out, for some die roll.
pub open spec fn is_room_item(o: Object) -> bool {
    exists|dice: int| 0 <= dice < 100 && #[trigger] is_item_for(o, o.x as int, o.y as int, dice)
}

/// How the objects from `start` on were laid out: at most
/// `MAX_ROOM_MONSTERS` monsters up to `m`, then at most `MAX_ROOM_ITEMS`
/// items.
pub open spec fn laid_out(objects: Seq<Object>, start: int, m: int) -> bool {
    &&& start <= m <= objects.len()
    &&& m <= start + MAX_ROOM_MONSTERS
    &&& objects.len() <= m + MAX_ROOM_ITEMS
    &&& forall|k: int| start <= k < m ==> is_monster(#[trigger] objects[k])
    &&& forall|k: int| m <= k < objects.len() ==> is_room_item(#[trigger] objects[k])
}

/// Whether one of the cells holds (x, y).
pub open spec fn cell_taken(cells: Seq<(i32, i32, bool)>, x: int, y: int) -> bool {
    exists|j: int| 0 <= j < cells.len() && (#[trigger] cells[j]).0 == x && cells[j].1 == y
}

/// The monster draws, among the first `n`, that furnishing keeps, in order:
/// each one whose cell neither the map nor an object already there blocks,
/// nor a monster kept before it.
pub open spec fn kept_monsters(
    map: Seq<Vec<Tile>>,
    before: Seq<Object>,
    draws: Seq<(i32, i32, bool)>,
    n: int,
) -> Seq<(i32, i32, bool)>
    decreases n,
{
    if n <= 0 {
        Seq::empty()
    } else {
        let prev = kept_monsters(map, before, draws, n - 1);
        let d = draws[n - 1];
        if blocked_at(map, before, d.0 as int, d.1 as int) || cell_taken(prev, d.0 as int, d.1 as int) {
            prev
        } else {
            prev.push(d)
        }
    }
}

/// The item draws, among the first `n`, that furnishing keeps, in order:
/// each one whose cell neither the map nor an object already there blocks,
/// nor a kept monster. Items do not block one another.
pub open spec fn kept_items(
    map: Seq<Vec<Tile>>,
    before: Seq<Object>,
    monsters: Seq<(i32, i32, bool)>,
    draws: Seq<(i32, i32, i32)>,
    n: int,
) -> Seq<(i32, i32, i32)>
    decreases n,
{
    if n <= 0 {
        Seq::empty()
    } else {
        let prev = kept_items(map, before, monsters, draws, n - 1);
        let d = draws[n - 1];
        if blocked_at(map, before, d.0 as int, d.1 as int) || cell_taken(monsters, d.0 as int, d.1 as int) {
            prev
        } else {
            prev.push(d)
        }
    }
}

/// The monster a draw (x, y, orc) makes: an orc at (x, y) when `orc`
/// holds, else a troll there.
pub open spec fn monster_for(o: Object, d: (i32, i32, bool)) -> bool {
    if d.2 {
        is_orc(o, d.0 as int, d.1 as int)
    } else {
        is_troll(o, d.0 as int, d.1 as int)
    }
}

/// What furnishing with the given draws does to the objects: those there
/// stay, then come the kept monsters in the order of their draws, then the
/// kept items in the order of theirs.
pub open spec fn furnished_with(
    map: Seq<Vec<Tile>>,
    before: Seq<Object>,
    monster_draws: Seq<(i32, i32, bool)>,
    item_draws: Seq<(i32, i32, i32)>,
    after: Seq<Object>,
) -> bool {
    let km = kept_monsters(map, before, monster_draws, monster_draws.len() as int);
    let ki = kept_items(map, before, km, item_draws, item_draws.len() as int);
    &&& after.len() == before.len() + km.len() + ki.len()
    &&& forall|k: int| 0 <= k < before.len() ==> #[trigger] after[k] == before[k]
    &&& forall|j: int| 0 <= j < km.len() ==> monster_for(#[trigger] after[before.len() + j], km[j])
    &&& forall|j: int|
        0 <= j < ki.len() ==> is_item_for(
            #[trigger] after[before.len() + km.len() + j],
            ki[j].0 as int,
            ki[j].1 as int,
            ki[j].2 as int,
        )
}

/// Adding an object adds its cell to the blocked ones exactly when it
/// blocks.
pub proof fn lemma_blocks_push(objects: Seq<Object>, o: Object, x: int, y: int)
    ensures
        object_blocks(objects.push(o), x, y) == (object_blocks(objects, x, y) || (o.blocks && o.x
            == x && o.y == y)),
{
    let s = objects.push(o);
    if object_blocks(s, x, y) {
        let i = choose|i: int|
            0 <= i < s.len() && #[trigger] s[i].blocks && s[i].x == x && s[i].y == y;
        if i < objects.len() {
            assert(objects[i].blocks && objects[i].x == x && objects[i].y == y);
        }
    }
    if object_blocks(objects, x, y) {
        let i = choose|i: int|
            0 <= i < objects.len() && #[trigger] objects[i].blocks && objects[i].x == x
                && objects[i].y == y;
        assert(s[i] == objects[i]);
    }
    if o.blocks && o.x == x && o.y == y {
        assert(s[objects.len() as int] == o);
    }
}

/// Adding a cell adds exactly it to the cells held.
pub proof fn lemma_taken_push(cells: Seq<(i32, i32, bool)>, d: (i32, i32, bool), x: int, y: int)
    ensures
        cell_taken(cells.push(d), x, y) == (cell_taken(cells, x, y) || (d.0 == x && d.1 == y)),
{
    let s = cells.push(d);
    if cell_taken(s, x, y) {
        let j = choose|j: int| 0 <= j < s.len() && (#[trigger] s[j]).0 == x && s[j].1 == y;
        if j < cells.len() {
            assert(cells[j] == s[j]);
        }
    }
    if cell_taken(cells, x, y) {
        let j = choose|j: int| 0 <= j < cells.len() && (#[trigger] cells[j]).0 == x && cells[j].1
            == y;
        assert(s[j] == cells[j]);
    }
    if d.0 == x && d.1 == y {
        assert(s[cells.len() as int] == d);
    }
}

/// Furnishing never keeps more draws than it is given.
pub proof fn lemma_kept_counts(
    map: Seq<Vec<Tile>>,
    before: Seq<Object>,
    monsters: Seq<(i32, i32, bool)>,
    mdraws: Seq<(i32, i32, bool)>,
    idraws: Seq<(i32, i32, i32)>,
    n: int,
)
    requires
        n >= 0,
    ensures
        kept_monsters(map, before, mdraws, n).len() <= n,
        kept_items(map, before, monsters, idraws, n).len() <= n,
    decreases n,
{
    if n > 0 {
        lemma_kept_counts(map, before, monsters, mdraws, idraws, n - 1);
    }
}

/// Furnishes a room with the given draws: for each monster draw (x, y, orc)
/// in order, an orc or a troll at (x, y) unless that cell is blocked; then
/// for each item draw (x, y, dice) in order, the item of that die roll at
/// (x, y) unless that cell is blocked.
pub fn furnish_room(
    room: Rect,
    map: &TileMap,
    objects: &mut Vec<Object>,
    monster_draws: &Vec<(i32, i32, bool)>,
    item_draws: &Vec<(i32, i32, i32)>,
)
    requires
        room_inside_map(room, map@),
        forall|j: int|
            0 <= j < monster_draws@.len() ==> in_interior(
                room,
                (#[trigger] monster_draws@[j]).0 as int,
                monster_draws@[j].1 as int,
            ),
        forall|j: int|
            0 <= j < item_draws@.len() ==> {
                &&& in_interior(room, (#[trigger] item_draws@[j]).0 as int, item_draws@[j].1 as int)
                &&& 0 <= item_draws@[j].2 < 100
            },
    ensures
        furnished_with(map@, old(objects)@, monster_draws@, item_draws@, final(objects)@),
        final(objects)@.take(old(objects)@.len() as int) == old(objects)@,
        forall|k: int|
            old(objects)@.len() <= k < final(objects)@.len() ==> #[trigger] furnished(
                map@,
                final(objects)@,
                room,
                k,
            ),
        all_within_max(old(objects)@) ==> all_within_max(final(objects)@),
        all_modest(old(objects)@) ==> all_modest(final(objects)@),
{
    let ghost start = objects@.len();
    let ghost before = objects@;
    let mut i: usize = 0;
    while i < monster_draws.len()
        invariant
            room_inside_map(room, map@),
            i <= monster_draws@.len(),
            forall|j: int|
                0 <= j < monster_draws@.len() ==> in_interior(
                    room,
                    (#[trigger] monster_draws@[j]).0 as int,
                    monster_draws@[j].1 as int,
                ),
            before == old(objects)@,
            start == before.len(),
            objects@.len() == start + kept_monsters(map@, before, monster_draws@, i as int).len(),
            forall|k: int| 0 <= k < start ==> #[trigger] objects@[k] == before[k],
            forall|j: int|
                0 <= j < kept_monsters(map@, before, monster_draws@, i as int).len() ==> monster_for(
                    #[trigger] objects@[start + j],
                    kept_monsters(map@, before, monster_draws@, i as int)[j],
                ),
            forall|x: int, y: int|
                #[trigger] object_blocks(objects@, x, y) == (object_blocks(before, x, y)
                    || cell_taken(kept_monsters(map@, before, monster_draws@, i as int), x, y)),
            objects@.take(start as int) == old(objects)@,
            all_within_max(old(objects)@) ==> all_within_max(objects@),
            all_modest(old(objects)@) ==> all_modest(objects@),
            forall|k: int| start <= k < objects@.len()
                ==> #[trigger] furnished(map@, objects@, room, k),
        decreases monster_draws@.len() - i,
    {
        let (x, y, orc) = monster_draws[i];
        let ghost km = kept_monsters(map@, before, monster_draws@, i as int);
        assert(in_interior(room, x as int, y as int));
        assert(on_map(map@, x as int, y as int));
        if !is_blocked(x, y, map, objects) {
            let monster = make_monster(x, y, orc);
            let ghost prev = objects@;
            objects.push(monster);
            proof {
                assert(kept_monsters(map@, before, monster_draws@, i + 1) == km.push((x, y, orc)));
                assert forall|a: int, b: int|
                    #[trigger] object_blocks(objects@, a, b) == (object_blocks(before, a, b)
                        || cell_taken(km.push((x, y, orc)), a, b)) by {
                    lemma_blocks_push(prev, monster, a, b);
                    lemma_taken_push(km, (x, y, orc), a, b);
                }
                assert forall|j: int| 0 <= j < km.len() + 1 implies monster_for(
                    #[trigger] objects@[start + j],
                    km.push((x, y, orc))[j],
                ) by {
                    if j < km.len() {
                        assert(objects@[start + j] == prev[start + j]);
                    }
                }
                assert(objects@.take(prev.len() as int) =~= prev);
                assert(objects@.take(start as int) =~= old(objects)@);
                assert forall|k: int| start <= k < objects@.len() implies #[trigger] furnished(
                    map@,
                    objects@,
                    room,
                    k,
                ) by {
                    if k < prev.len() {
                        assert(objects@.take(k) =~= prev.take(k));
                        assert(objects@[k] == prev[k]);
                        assert(furnished(map@, prev, room, k));
                    } else {
                        assert(objects@.take(k) =~= prev);
                    }
                }
            }
        } else {
            assert(kept_monsters(map@, before, monster_draws@, i + 1) == km);
        }
        i = i + 1;
    }
    let ghost km = kept_monsters(map@, before, monster_draws@, monster_draws@.len() as int);
    let ghost mid = objects@;
    let mut i: usize = 0;
    while i < item_draws.len()
        invariant
            room_inside_map(room, map@),
            i <= item_draws@.len(),
            forall|j: int|
                0 <= j < item_draws@.len() ==> {
                    &&& in_interior(room, (#[trigger] item_draws@[j]).0 as int, item_draws@[j].1 as int)
                    &&& 0 <= item_draws@[j].2 < 100
                },
            before == old(objects)@,
            start == before.len(),
            km == kept_monsters(map@, before, monster_draws@, monster_draws@.len() as int),
            mid.len() == start + km.len(),
            objects@.len() == mid.len() + kept_items(map@, before, km, item_draws@, i as int).len(),
            forall|k: int| 0 <= k < mid.len() ==> #[trigger] objects@[k] == mid[k],
            forall|k: int| 0 <= k < start ==> #[trigger] mid[k] == before[k],
            forall|j: int| 0 <= j < km.len() ==> monster_for(#[trigger] mid[start + j], km[j]),
            forall|j: int|
                0 <= j < kept_items(map@, before, km, item_draws@, i as int).len() ==> is_item_for(
                    #[trigger] objects@[mid.len() + j],
                    kept_items(map@, before, km, item_draws@, i as int)[j].0 as int,
                    kept_items(map@, before, km, item_draws@, i as int)[j].1 as int,
                    kept_items(map@, before, km, item_draws@, i as int)[j].2 as int,
                ),
            forall|x: int, y: int|
                #[trigger] object_blocks(objects@, x, y) == (object_blocks(before, x, y)
                    || cell_taken(km, x, y)),
            objects@.take(start as int) == old(objects)@,
            all_within_max(old(objects)@) ==> all_within_max(objects@),
            all_modest(old(objects)@) ==> all_modest(objects@),
            forall|k: int| start <= k < objects@.len()
                ==> #[trigger] furnished(map@, objects@, room, k),
        decreases item_draws@.len() - i,
    {
        let (x, y, dice) = item_draws[i];
        let ghost ki = kept_items(map@, before, km, item_draws@, i as int);
        assert(in_interior(room, x as int, y as int));
        assert(on_map(map@, x as int, y as int));
        if !is_blocked(x, y, map, objects) {
            let item = make_item(x, y, dice);
            let ghost prev = objects@;
            objects.push(item);
            proof {
                assert(kept_items(map@, before, km, item_draws@, i + 1) == ki.push((x, y, dice)));
                assert forall|a: int, b: int|
                    #[trigger] object_blocks(objects@, a, b) == (object_blocks(before, a, b)
                        || cell_taken(km, a, b)) by {
                    lemma_blocks_push(prev, item, a, b);
                }
                assert forall|j: int| 0 <= j < ki.len() + 1 implies is_item_for(
                    #[trigger] objects@[mid.len() + j],
                    ki.push((x, y, dice))[j].0 as int,
                    ki.push((x, y, dice))[j].1 as int,
                    ki.push((x, y, dice))[j].2 as int,
                ) by {
                    if j < ki.len() {
                        assert(objects@[mid.len() + j] == prev[mid.len() + j]);
                    }
                }
                assert(objects@.take(prev.len() as int) =~= prev);
                assert(objects@.take(start as int) =~= old(objects)@);
                assert forall|k: int| start <= k < objects@.len() implies #[trigger] furnished(
                    map@,
                    objects@,
                    room,
                    k,
                ) by {
                    if k < prev.len() {
                        assert(objects@.take(k) =~= prev.take(k));
                        assert(objects@[k] == prev[k]);
                        assert(furnished(map@, prev, room, k));
                    } else {
                        assert(objects@.take(k) =~= prev);
                        assert(is_item_for(objects@[k], x as int, y as int, dice as int));
                    }
                }
            }
        } else {
            assert(kept_items(map@, before, km, item_draws@, i + 1) == ki);
        }
        i = i + 1;
    }
    proof {
        let ki = kept_items(map@, before, km, item_draws@, item_draws@.len() as int);
        assert forall|j: int| 0 <= j < km.len() implies monster_for(
            #[trigger] objects@[before.len() + j],
            km[j],
        ) by {
            assert(objects@[start + j] == mid[start + j]);
        }
        assert forall|k: int| 0 <= k < before.len() implies #[trigger] objects@[k] == before[k] by {
            assert(objects@[k] == mid[k]);
        }
    }
}

/// Places up to `MAX_ROOM_MONSTERS` monsters and then up to `MAX_ROOM_ITEMS`
/// items at random cells inside the room, each only where the cell is not
/// blocked. A monster is an orc four times in five and a troll otherwise.
/// The draws are made first and then handed to `furnish_room`.
pub fn place_objects(room: Rect, map: &TileMap, objects: &mut Vec<Object>)
    requires
        room_inside_map(room, map@),
    ensures
        exists|monster_draws: Seq<(i32, i32, bool)>, item_draws: Seq<(i32, i32, i32)>|
            #[trigger] furnished_with(map@, old(objects)@, monster_draws, item_draws, final(objects)@)
                && draws_fit(room, monster_draws, item_draws),
        final(objects)@.len() >= old(objects)@.len(),
        final(objects)@.take(old(objects)@.len() as int) == old(objects)@,
        forall|k: int|
            old(objects)@.len() <= k < final(objects)@.len() ==> #[trigger] furnished(
                map@,
                final(objects)@,
                room,
                k,
            ),
        exists|m: int| #[trigger] laid_out(final(objects)@, old(objects)@.len() as int, m),
        all_within_max(old(objects)@) ==> all_within_max(final(objects)@),
        all_modest(old(objects)@) ==> all_modest(final(objects)@),
{
    let (monster_draws, item_draws) = draw_furnishing(room);
    furnish_room(room, map, objects, &monster_draws, &item_draws);
    proof {
        let before = old(objects)@;
        let km = kept_monsters(map@, before, monster_draws@, monster_draws@.len() as int);
        let ki = kept_items(map@, before, km, item_draws@, item_draws@.len() as int);
        lemma_kept_counts(map@, before, km, monster_draws@, item_draws@, monster_draws@.len() as int);
        lemma_kept_counts(map@, before, km, monster_draws@, item_draws@, item_draws@.len() as int);
        let m: int = (before.len() + km.len()) as int;
        assert forall|k: int| before.len() <= k < m implies is_monster(#[trigger] objects@[k]) by {
            assert(monster_for(objects@[before.len() + (k - before.len())], km[k - before.len()]));
        }
        assert forall|k: int| m <= k < objects@.len() implies is_room_item(#[trigger] objects@[k]) by {
            let j = k - m;
            assert(is_item_for(
                objects@[before.len() + km.len() + j],
                ki[j].0 as int,
                ki[j].1 as int,
                ki[j].2 as int,
            ));
            lemma_kept_items_from_draws(map@, before, km, item_draws@, item_draws@.len() as int, j);
        }
        assert(laid_out(objects@, before.len() as int, m));
    }
}

/// Whether furnishing draws suit a room: at most `MAX_ROOM_MONSTERS`
/// monster draws and `MAX_ROOM_ITEMS` item draws, every cell inside the
/// room, every die roll from 0 to 99.
pub open spec fn draws_fit(
    room: Rect,
    monster_draws: Seq<(i32, i32, bool)>,
    item_draws: Seq<(i32, i32, i32)>,
) -> bool {
    &&& monster_draws.len() <= MAX_ROOM_MONSTERS
    &&& item_draws.len() <= MAX_ROOM_ITEMS
    &&& forall|j: int|
        0 <= j < monster_draws.len() ==> in_interior(
            room,
            (#[trigger] monster_draws[j]).0 as int,
            monster_draws[j].1 as int,
        )
    &&& forall|j: int|
        0 <= j < item_draws.len() ==> {
            &&& in_interior(room, (#[trigger] item_draws[j]).0 as int, item_draws[j].1 as int)
            &&& 0 <= item_draws[j].2 < 100
        }
}

/// Every kept item draw is one of the draws.
pub proof fn lemma_kept_items_from_draws(
    map: Seq<Vec<Tile>>,
    before: Seq<Object>,
    monsters: Seq<(i32, i32, bool)>,
    draws: Seq<(i32, i32, i32)>,
    n: int,
    j: int,
)
    requires
        0 <= n <= draws.len(),
        0 <= j < kept_items(map, before, monsters, draws, n).len(),
    ensures
        exists|i: int| 0 <= i < n && draws[i] == kept_items(map, before, monsters, draws, n)[j],
    decreases n,
{
    let prev = kept_items(map, before, monsters, draws, n - 1);
    if j < prev.len() {
        lemma_kept_items_from_draws(map, before, monsters, draws, n - 1, j);
        let i = choose|i: int| 0 <= i < n - 1 && draws[i] == prev[j];
        assert(draws[i] == kept_items(map, before, monsters, draws, n)[j]);
    } else {
        assert(draws[n - 1] == kept_items(map, before, monsters, draws, n)[j]);
    }
}

/// Draws what furnishing a room needs: the number of monsters and then a
/// cell and an orc-or-troll choice for each, the number of items and then a
/// cell and a die roll for each.
fn draw_furnishing(room: Rect) -> (draws: (Vec<(i32, i32, bool)>, Vec<(i32, i32, i32)>))
    requires
        room.x1 + 1 < room.x2,
        room.y1 + 1 < room.y2,
    ensures
        draws_fit(room, draws.0@, draws.1@),
{
    let num_monsters = random_range(0, MAX_ROOM_MONSTERS + 1);
    let mut monster_draws: Vec<(i32, i32, bool)> = Vec::new();
    let mut i: i32 = 0;
    while i < num_monsters
        invariant
            room.x1 + 1 < room.x2,
            room.y1 + 1 < room.y2,
            0 <= i <= num_monsters <= MAX_ROOM_MONSTERS,
            monster_draws@.len() == i,
            forall|j: int|
                0 <= j < monster_draws@.len() ==> in_interior(
                    room,
                    (#[trigger] monster_draws@[j]).0 as int,
                    monster_draws@[j].1 as int,
                ),
        decreases num_monsters - i,
    {
        let x = random_range(room.x1 + 1, room.x2);
        let y = random_range(room.y1 + 1, room.y2);
        let orc = random_ratio(4, 5);
        monster_draws.push((x, y, orc));
        i = i + 1;
    }
    let num_items = random_range(0, MAX_ROOM_ITEMS + 1);
    let mut item_draws: Vec<(i32, i32, i32)> = Vec::new();
    let mut i: i32 = 0;
    while i < num_items
        invariant
            room.x1 + 1 < room.x2,
            room.y1 + 1 < room.y2,
            0 <= i <= num_items <= MAX_ROOM_ITEMS,
            item_draws@.len() == i,
            forall|j: int|
                0 <= j < item_draws@.len() ==> {
                    &&& in_interior(room, (#[trigger] item_draws@[j]).0 as int, item_draws@[j].1 as int)
                    &&& 0 <= item_draws@[j].2 < 100
                },
        decreases num_items - i,
    {
        let x = random_range(room.x1 + 1, room.x2);
        let y = random_range(room.y1 + 1, room.y2);
        let dice = random_range(0, 100);
        item_draws.push((x, y, dice));
        i = i + 1;
    }
    (monster_draws, item_draws)
}


/// Whether the object is one that room furnishing creates: an orc, a troll
/// or an item.
pub open spec fn spawned(o: Object) -> bool {
    ||| is_orc(o, o.x as int, o.y as int)
    ||| is_troll(o, o.x as int, o.y as int)
    ||| exists|dice: int| 0 <= dice < 100 && #[trigger] is_item_for(o, o.x as int, o.y as int, dice)
}

/// Digging never closes a cell: what was open stays open.
pub proof fn lemma_carving_keeps_open(
    before: Seq<Vec<Tile>>,
    after: Seq<Vec<Tile>>,
    dig: spec_fn(int, int) -> bool,
)
    requires
        carved(before, after, dig),
    ensures
        forall|x: int, y: int| #[trigger] open_cell(before, x, y) ==> open_cell(after, x, y),
        forall|x: int, y: int| dig(x, y) && on_map(before, x, y)
            ==> #[trigger] open_cell(after, x, y),
{
    assert forall|x: int, y: int| #[trigger] open_cell(before, x, y) implies open_cell(after, x, y) by {
        assert(tile_at(after, x, y) == if dig(x, y) { floor() } else { tile_at(before, x, y) });
    }
    assert forall|x: int, y: int| dig(x, y) && on_map(before, x, y) implies #[trigger] open_cell(
        after,
        x,
        y,
    ) by {
        assert(tile_at(after, x, y) == floor());
    }
}

/// Digging keeps the size of the map.
pub proof fn lemma_carving_keeps_shape(
    before: Seq<Vec<Tile>>,
    after: Seq<Vec<Tile>>,
    width: int,
    height: int,
)
    requires
        same_shape(before, after),
        map_shape(before, width, height),
    ensures
        map_shape(after, width, height),
{
    assert forall|x: int| 0 <= x < after.len() implies #[trigger] after[x]@.len() == height by {
        assert(before[x]@.len() == height);
    }
}

/// Whether a new room meets none of the rooms made before.
pub fn room_is_free(new_room: &Rect, rooms: &Vec<Rect>) -> (free: bool)
    ensures
        free <==> forall|r: int| 0 <= r < rooms@.len()
            ==> !rects_meet(*new_room, #[trigger] rooms@[r]),
{
    let mut r: usize = 0;
    while r < rooms.len()
        invariant
            r <= rooms@.len(),
            forall|j: int| 0 <= j < r ==> !rects_meet(*new_room, #[trigger] rooms@[j]),
        decreases rooms@.len() - r,
    {
        if new_room.intersects_with(&rooms[r]) {
            return false;
        }
        r = r + 1;
    }
    true
}

/// Whether a room lies on a map of the game's size, from `ROOM_MIN_SIZE` to
/// `ROOM_MAX_SIZE` wide and high.
pub open spec fn room_placed(r: Rect) -> bool {
    &&& 0 <= r.x1
    &&& r.x1 + ROOM_MIN_SIZE <= r.x2 < MAP_WIDTH
    &&& 0 <= r.y1
    &&& r.y1 + ROOM_MIN_SIZE <= r.y2 < MAP_HEIGHT
    &&& r.x2 <= r.x1 + ROOM_MAX_SIZE
    &&& r.y2 <= r.y1 + ROOM_MAX_SIZE
}

/// What the objects of a freshly made map look like: the player is placed on
/// an open cell, the other objects that were there are left alone, and every
/// object added is a monster or an item standing on an open cell.
pub open spec fn populated(map: Seq<Vec<Tile>>, before: Seq<Object>, after: Seq<Object>) -> bool {
    &&& after.len() >= before.len()
    &&& after[0] == placed(before[0], after[0].x as int, after[0].y as int)
    &&& open_cell(map, after[0].x as int, after[0].y as int)
    &&& forall|k: int| 0 < k < before.len() ==> #[trigger] after[k] == before[k]
    &&& forall|k: int|
        before.len() <= k < after.len() ==> {
            &&& open_cell(map, (#[trigger] after[k]).x as int, after[k].y as int)
            &&& spawned(after[k])
        }
}

/// Whether (x, y) lies on the L-shaped tunnel from centre `a` to centre
/// `b`: along a's row and then b's column when `horizontal_first`, else
/// along a's column and then b's row.
pub open spec fn on_tunnel(a: (int, int), b: (int, int), horizontal_first: bool, x: int, y: int) -> bool {
    if horizontal_first {
        on_h_run(a.0, b.0, a.1, x, y) || on_v_run(a.1, b.1, b.0, x, y)
    } else {
        on_v_run(a.1, b.1, a.0, x, y) || on_h_run(a.0, b.0, b.1, x, y)
    }
}

/// Whether (x, y) was dug out by the first `n` rooms, each joined to the one
/// before it by a tunnel bent as `bends` says.
pub open spec fn dug(rooms: Seq<Rect>, bends: Seq<bool>, n: int, x: int, y: int) -> bool
    decreases n,
{
    if n <= 0 {
        false
    } else {
        ||| dug(rooms, bends, n - 1, x, y)
        ||| in_interior(rooms[n - 1], x, y)
        ||| (n >= 2 && on_tunnel(
            rect_center(rooms[n - 2]),
            rect_center(rooms[n - 1]),
            bends[n - 1],
            x,
            y,
        ))
    }
}

/// Whether the map is solid rock of the game's size with exactly the rooms
/// and their tunnels dug out as open floor.
pub open spec fn dug_map(map: Seq<Vec<Tile>>, rooms: Seq<Rect>, bends: Seq<bool>) -> bool {
    &&& map_shape(map, MAP_WIDTH as int, MAP_HEIGHT as int)
    &&& forall|x: int, y: int|
        on_map(map, x, y) ==> #[trigger] tile_at(map, x, y) == if dug(
            rooms,
            bends,
            rooms.len() as int,
            x,
            y,
        ) {
            floor()
        } else {
            wall()
        }
}

/// Whether every room lies on the map and no two rooms meet.
pub open spec fn rooms_apart(rooms: Seq<Rect>) -> bool {
    &&& forall|i: int| 0 <= i < rooms.len() ==> room_placed(#[trigger] rooms[i])
    &&& forall|i: int, j: int|
        0 <= i < j < rooms.len() ==> !rects_meet(#[trigger] rooms[i], #[trigger] rooms[j])
}

/// Whether (x, y) lies inside one of the rooms.
pub open spec fn in_some_room(rooms: Seq<Rect>, x: int, y: int) -> bool {
    exists|i: int| 0 <= i < rooms.len() && #[trigger] in_interior(rooms[i], x, y)
}

/// How a new map was laid out: at least one room, no two meeting; exactly
/// the rooms and the tunnels joining each to the one before dug out; the
/// player at the centre of the first room; and every object added inside a
/// room.
pub open spec fn laid_out_map(
    map: Seq<Vec<Tile>>,
    rooms: Seq<Rect>,
    bends: Seq<bool>,
    before: Seq<Object>,
    after: Seq<Object>,
) -> bool {
    &&& rooms.len() >= 1
    &&& bends.len() == rooms.len()
    &&& rooms_apart(rooms)
    &&& dug_map(map, rooms, bends)
    &&& (after[0].x as int, after[0].y as int) == rect_center(rooms[0])
    &&& forall|k: int|
        before.len() <= k < after.len() ==> in_some_room(
            rooms,
            (#[trigger] after[k]).x as int,
            after[k].y as int,
        )
}

/// Adding a room and its bend leaves what the earlier rooms dug as it was.
pub proof fn lemma_dug_push(rooms: Seq<Rect>, bends: Seq<bool>, r: Rect, b: bool, n: int, x: int, y: int)
    requires
        0 <= n <= rooms.len(),
        n <= bends.len(),
    ensures
        dug(rooms.push(r), bends.push(b), n, x, y) == dug(rooms, bends, n, x, y),
    decreases n,
{
    if n > 0 {
        lemma_dug_push(rooms, bends, r, b, n - 1, x, y);
    }
}

/// Digging twice digs the cells of either.
pub proof fn lemma_carved_twice(
    m0: Seq<Vec<Tile>>,
    m1: Seq<Vec<Tile>>,
    m2: Seq<Vec<Tile>>,
    d1: spec_fn(int, int) -> bool,
    d2: spec_fn(int, int) -> bool,
)
    requires
        carved(m0, m1, d1),
        carved(m1, m2, d2),
    ensures
        carved(m0, m2, |x: int, y: int| d1(x, y) || d2(x, y)),
{
    assert forall|x: int| 0 <= x < m0.len() implies #[trigger] m0[x]@.len() == m2[x]@.len() by {
        assert(m0[x]@.len() == m1[x]@.len());
    }
    assert forall|x: int, y: int| on_map(m0, x, y) implies #[trigger] tile_at(m2, x, y) == if d1(x, y)
        || d2(x, y) {
        floor()
    } else {
        tile_at(m0, x, y)
    } by {
        assert(on_map(m1, x, y));
        assert(tile_at(m1, x, y) == if d1(x, y) { floor() } else { tile_at(m0, x, y) });
    }
}

/// Digs the L-shaped tunnel between two room centres, bent as
/// `horizontal_first` says.
pub fn dig_tunnel(from: (i32, i32), to: (i32, i32), horizontal_first: bool, map: &mut TileMap)
    requires
        map_shape(old(map)@, MAP_WIDTH as int, MAP_HEIGHT as int),
        0 <= from.0 < MAP_WIDTH,
        0 <= from.1 < MAP_HEIGHT,
        0 <= to.0 < MAP_WIDTH,
        0 <= to.1 < MAP_HEIGHT,
    ensures
        carved(
            old(map)@,
            final(map)@,
            |x: int, y: int|
                on_tunnel(
                    (from.0 as int, from.1 as int),
                    (to.0 as int, to.1 as int),
                    horizontal_first,
                    x,
                    y,
                ),
        ),
{
    let ghost m0 = map@;
    if horizontal_first {
        create_h_tunnel(from.0, to.0, from.1, map);
        let ghost m1 = map@;
        proof {
            lemma_carving_keeps_shape(m0, m1, MAP_WIDTH as int, MAP_HEIGHT as int);
        }
        create_v_tunnel(from.1, to.1, to.0, map);
        proof {
            lemma_carved_twice(
                m0,
                m1,
                map@,
                |x: int, y: int| on_h_run(from.0 as int, to.0 as int, from.1 as int, x, y),
                |x: int, y: int| on_v_run(from.1 as int, to.1 as int, to.0 as int, x, y),
            );
        }
    } else {
        create_v_tunnel(from.1, to.1, from.0, map);
        let ghost m1 = map@;
        proof {
            lemma_carving_keeps_shape(m0, m1, MAP_WIDTH as int, MAP_HEIGHT as int);
        }
        create_h_tunnel(from.0, to.0, to.1, map);
        proof {
            lemma_carved_twice(
                m0,
                m1,
                map@,
                |x: int, y: int| on_v_run(from.1 as int, to.1 as int, from.0 as int, x, y),
                |x: int, y: int| on_h_run(from.0 as int, to.0 as int, to.1 as int, x, y),
            );
        }
    }
    assert(carved(
        m0,
        map@,
        |x: int, y: int|
            on_tunnel((from.0 as int, from.1 as int), (to.0 as int, to.1 as int), horizontal_first, x, y),
    ));
}

/// The indices of the room draws, among the first `n`, that are kept, in
/// order: each one that meets no room kept before it.
pub open spec fn kept_attempts(room_draws: Seq<Rect>, n: int) -> Seq<int>
    decreases n,
{
    if n <= 0 {
        Seq::empty()
    } else {
        let prev = kept_attempts(room_draws, n - 1);
        if forall|j: int|
            0 <= j < prev.len() ==> !rects_meet(room_draws[n - 1], room_draws[#[trigger] prev[j]]) {
            prev.push(n - 1)
        } else {
            prev
        }
    }
}

/// The rooms kept from the draws, in order.
pub open spec fn kept_rooms(room_draws: Seq<Rect>) -> Seq<Rect> {
    kept_attempts(room_draws, room_draws.len() as int).map_values(|i: int| room_draws[i])
}

/// The bends of the tunnels into the kept rooms, in order.
pub open spec fn kept_bends(room_draws: Seq<Rect>, bends: Seq<bool>) -> Seq<bool> {
    kept_attempts(room_draws, room_draws.len() as int).map_values(|i: int| bends[i])
}

/// The furnishing of the `t`-th kept room, whose index among the draws is
/// `kept[t]`: from the objects `states[t]` it makes `states[t + 1]`. After
/// the first room is furnished, the player moves to its centre.
pub open spec fn furnish_step(
    map: Seq<Vec<Tile>>,
    room_draws: Seq<Rect>,
    furnishings: Seq<(Vec<(i32, i32, bool)>, Vec<(i32, i32, i32)>)>,
    kept: Seq<int>,
    states: Seq<Seq<Object>>,
    t: int,
) -> bool {
    let d = furnishings[kept[t]];
    if t == 0 {
        let c = rect_center(room_draws[kept[0]]);
        &&& states[1].len() > 0
        &&& states[1][0] == placed(states[0][0], c.0, c.1)
        &&& furnished_with(map, states[0], d.0@, d.1@, states[1].update(0, states[0][0]))
    } else {
        furnished_with(map, states[t], d.0@, d.1@, states[t + 1])
    }
}

/// The objects before and after each kept room is furnished, in order.
pub open spec fn furnish_chain(
    map: Seq<Vec<Tile>>,
    before: Seq<Object>,
    room_draws: Seq<Rect>,
    furnishings: Seq<(Vec<(i32, i32, bool)>, Vec<(i32, i32, i32)>)>,
    kept: Seq<int>,
    states: Seq<Seq<Object>>,
) -> bool {
    &&& states.len() == kept.len() + 1
    &&& states[0] == before
    &&& forall|t: int|
        0 <= t < kept.len() ==> #[trigger] furnish_step(map, room_draws, furnishings, kept, states, t)
}

/// What laying out a map with the given draws makes: exactly the kept rooms
/// and the tunnels into them, bent as their draws say, dug out of rock; and
/// the objects as each kept room's furnishing, in order, leaves them, with
/// the player moved to the centre of the first kept room.
pub open spec fn laid_out_exactly(
    map: Seq<Vec<Tile>>,
    before: Seq<Object>,
    after: Seq<Object>,
    room_draws: Seq<Rect>,
    furnishings: Seq<(Vec<(i32, i32, bool)>, Vec<(i32, i32, i32)>)>,
    bends: Seq<bool>,
) -> bool {
    let kept = kept_attempts(room_draws, room_draws.len() as int);
    &&& dug_map(map, kept_rooms(room_draws), kept_bends(room_draws, bends))
    &&& exists|states: Seq<Seq<Object>>|
        #[trigger] furnish_chain(map, before, room_draws, furnishings, kept, states) && after
            == states.last()
}

/// Whether draws suit laying out a map: one room, one furnishing and one
/// bend per attempt; every room on the map at least `ROOM_MIN_SIZE` wide
/// and high; every furnishing suited to its room.
pub open spec fn map_draws_fit(
    room_draws: Seq<Rect>,
    furnishings: Seq<(Vec<(i32, i32, bool)>, Vec<(i32, i32, i32)>)>,
    bends: Seq<bool>,
) -> bool {
    &&& furnishings.len() == room_draws.len()
    &&& bends.len() == room_draws.len()
    &&& forall|i: int| 0 <= i < room_draws.len() ==> room_placed(#[trigger] room_draws[i])
    &&& forall|i: int|
        0 <= i < room_draws.len() ==> draws_fit(
            room_draws[i],
            (#[trigger] furnishings[i]).0@,
            furnishings[i].1@,
        )
}

/// Furnishing decides only by whether the drawn cells' tiles block: two
/// maps that agree there give the same furnishing.
pub proof fn lemma_furnished_remap(
    m1: Seq<Vec<Tile>>,
    m2: Seq<Vec<Tile>>,
    before: Seq<Object>,
    md: Seq<(i32, i32, bool)>,
    id: Seq<(i32, i32, i32)>,
    after: Seq<Object>,
)
    requires
        furnished_with(m1, before, md, id, after),
        forall|j: int|
            0 <= j < md.len() ==> tile_at(m1, (#[trigger] md[j]).0 as int, md[j].1 as int).blocked
                == tile_at(m2, md[j].0 as int, md[j].1 as int).blocked,
        forall|j: int|
            0 <= j < id.len() ==> tile_at(m1, (#[trigger] id[j]).0 as int, id[j].1 as int).blocked
                == tile_at(m2, id[j].0 as int, id[j].1 as int).blocked,
    ensures
        furnished_with(m2, before, md, id, after),
{
    lemma_kept_monsters_remap(m1, m2, before, md, md.len() as int);
    let km = kept_monsters(m1, before, md, md.len() as int);
    lemma_kept_items_remap(m1, m2, before, km, id, id.len() as int);
}

proof fn lemma_kept_monsters_remap(
    m1: Seq<Vec<Tile>>,
    m2: Seq<Vec<Tile>>,
    before: Seq<Object>,
    md: Seq<(i32, i32, bool)>,
    n: int,
)
    requires
        n <= md.len(),
        forall|j: int|
            0 <= j < md.len() ==> tile_at(m1, (#[trigger] md[j]).0 as int, md[j].1 as int).blocked
                == tile_at(m2, md[j].0 as int, md[j].1 as int).blocked,
    ensures
        kept_monsters(m1, before, md, n) == kept_monsters(m2, before, md, n),
    decreases n,
{
    if n > 0 {
        lemma_kept_monsters_remap(m1, m2, before, md, n - 1);
        assert(tile_at(m1, md[n - 1].0 as int, md[n - 1].1 as int).blocked == tile_at(
            m2,
            md[n - 1].0 as int,
            md[n - 1].1 as int,
        ).blocked);
    }
}

proof fn lemma_kept_items_remap(
    m1: Seq<Vec<Tile>>,
    m2: Seq<Vec<Tile>>,
    before: Seq<Object>,
    km: Seq<(i32, i32, bool)>,
    id: Seq<(i32, i32, i32)>,
    n: int,
)
    requires
        n <= id.len(),
        forall|j: int|
            0 <= j < id.len() ==> tile_at(m1, (#[trigger] id[j]).0 as int, id[j].1 as int).blocked
                == tile_at(m2, id[j].0 as int, id[j].1 as int).blocked,
    ensures
        kept_items(m1, before, km, id, n) == kept_items(m2, before, km, id, n),
    decreases n,
{
    if n > 0 {
        lemma_kept_items_remap(m1, m2, before, km, id, n - 1);
        assert(tile_at(m1, id[n - 1].0 as int, id[n - 1].1 as int).blocked == tile_at(
            m2,
            id[n - 1].0 as int,
            id[n - 1].1 as int,
        ).blocked);
    }
}

/// Every kept room's inside is dug.
pub proof fn lemma_dug_rooms(rooms: Seq<Rect>, bends: Seq<bool>, n: int, t: int, x: int, y: int)
    requires
        0 <= t < n <= rooms.len(),
        in_interior(rooms[t], x, y),
    ensures
        dug(rooms, bends, n, x, y),
    decreases n,
{
    if t < n - 1 {
        lemma_dug_rooms(rooms, bends, n - 1, t, x, y);
    }
}

/// A furnishing chain recorded on one map holds on another that agrees on
/// the insides of the kept rooms.
proof fn lemma_chain_remap(
    m1: Seq<Vec<Tile>>,
    m2: Seq<Vec<Tile>>,
    before: Seq<Object>,
    room_draws: Seq<Rect>,
    furnishings: Seq<(Vec<(i32, i32, bool)>, Vec<(i32, i32, i32)>)>,
    kept: Seq<int>,
    states: Seq<Seq<Object>>,
)
    requires
        furnish_chain(m1, before, room_draws, furnishings, kept, states),
        forall|t: int| 0 <= t < kept.len() ==> 0 <= #[trigger] kept[t] < room_draws.len(),
        furnishings.len() == room_draws.len(),
        forall|i: int|
            0 <= i < room_draws.len() ==> draws_fit(
                room_draws[i],
                (#[trigger] furnishings[i]).0@,
                furnishings[i].1@,
            ),
        forall|t: int, x: int, y: int|
            0 <= t < kept.len() && #[trigger] in_interior(room_draws[kept[t]], x, y) ==> tile_at(
                m1,
                x,
                y,
            ).blocked == tile_at(m2, x, y).blocked,
    ensures
        furnish_chain(m2, before, room_draws, furnishings, kept, states),
{
    assert forall|t: int| 0 <= t < kept.len() implies #[trigger] furnish_step(
        m2,
        room_draws,
        furnishings,
        kept,
        states,
        t,
    ) by {
        assert(furnish_step(m1, room_draws, furnishings, kept, states, t));
        let d = furnishings[kept[t]];
        let r = room_draws[kept[t]];
        assert(draws_fit(r, d.0@, d.1@));
        assert forall|j: int| 0 <= j < d.0@.len() implies tile_at(
            m1,
            (#[trigger] d.0@[j]).0 as int,
            d.0@[j].1 as int,
        ).blocked == tile_at(m2, d.0@[j].0 as int, d.0@[j].1 as int).blocked by {
            assert(in_interior(r, d.0@[j].0 as int, d.0@[j].1 as int));
        }
        assert forall|j: int| 0 <= j < d.1@.len() implies tile_at(
            m1,
            (#[trigger] d.1@[j]).0 as int,
            d.1@[j].1 as int,
        ).blocked == tile_at(m2, d.1@[j].0 as int, d.1@[j].1 as int).blocked by {
            assert(in_interior(r, d.1@[j].0 as int, d.1@[j].1 as int));
        }
        if t == 0 {
            lemma_furnished_remap(m1, m2, states[0], d.0@, d.1@, states[1].update(0, states[0][0]));
        } else {
            lemma_furnished_remap(m1, m2, states[t], d.0@, d.1@, states[t + 1]);
        }
    }
}

/// Lays out a new map from the given draws, one per attempt: each drawn
/// room that meets no room kept before is dug out, furnished with its
/// draws, and joined to the previous kept room by a tunnel bent as its
/// draw says; the player moves to the centre of the first kept room.
pub fn lay_out_map(
    objects: &mut Vec<Object>,
    room_draws: &Vec<Rect>,
    furnishings: &Vec<(Vec<(i32, i32, bool)>, Vec<(i32, i32, i32)>)>,
    bend_draws: &Vec<bool>,
) -> (map: TileMap)
    requires
        old(objects)@.len() > 0,
        map_draws_fit(room_draws@, furnishings@, bend_draws@),
    ensures
        laid_out_exactly(map@, old(objects)@, final(objects)@, room_draws@, furnishings@, bend_draws@),
        map_shape(map@, MAP_WIDTH as int, MAP_HEIGHT as int),
        room_draws@.len() > 0 ==> populated(map@, old(objects)@, final(objects)@),
        room_draws@.len() > 0 ==> exists|rooms: Seq<Rect>, bends: Seq<bool>|
            #[trigger] laid_out_map(map@, rooms, bends, old(objects)@, final(objects)@),
        room_draws@.len() > 0 && old(objects)@.len() == 1 ==> all_on_floor(map@, final(objects)@),
        all_within_max(old(objects)@) ==> all_within_max(final(objects)@),
        closed_border(map@, MAP_WIDTH as int, MAP_HEIGHT as int),
        all_modest(old(objects)@) ==> all_modest(final(objects)@),
        room_draws@.len() > 0 && ({
            let p = old(objects)@[0];
            &&& old(objects)@.len() == 1
            &&& all_modest(old(objects)@)
            &&& p.ai is None
            &&& p.item is None
            &&& p.fighter matches Some(f) ==> f.on_death == DeathCallback::Player
        }) ==> world_ok(map@, final(objects)@),
{
    let mut map = new_map(MAP_WIDTH as usize, MAP_HEIGHT as usize);
    assert(closed_border(map@, MAP_WIDTH as int, MAP_HEIGHT as int)) by {
        assert forall|x: int, y: int| #[trigger] open_cell(map@, x, y) implies 1 <= x <= MAP_WIDTH
            - 2 && 1 <= y <= MAP_HEIGHT - 2 by {
            assert(tile_at(map@, x, y) == wall());
        }
    }
    let mut rooms: Vec<Rect> = Vec::new();
    let ghost mut bends: Seq<bool> = Seq::empty();
    let ghost orig = objects@;
    let ghost mut states: Seq<Seq<Object>> = seq![objects@];
    let ghost draws = room_draws@;
    let ghost fdraws = furnishings@;
    let mut n: usize = 0;
    while n < room_draws.len()
        invariant
            n <= room_draws@.len(),
            draws == room_draws@,
            fdraws == furnishings@,
            map_draws_fit(draws, fdraws, bend_draws@),
            n > 0 ==> rooms@.len() > 0,
            rooms@ == kept_attempts(draws, n as int).map_values(|i: int| draws[i]),
            bends == kept_attempts(draws, n as int).map_values(|i: int| bend_draws@[i]),
            forall|t: int|
                0 <= t < kept_attempts(draws, n as int).len() ==> 0 <= #[trigger] kept_attempts(
                    draws,
                    n as int,
                )[t] < n,
            furnish_chain(map@, orig, draws, fdraws, kept_attempts(draws, n as int), states),
            objects@ == states.last(),
            bends.len() == rooms@.len(),
            dug_map(map@, rooms@, bends),
            rooms_apart(rooms@),
            closed_border(map@, MAP_WIDTH as int, MAP_HEIGHT as int),
            orig == old(objects)@,
            objects@.len() >= orig.len(),
            orig.len() > 0,
            forall|k: int| 0 < k < orig.len() ==> #[trigger] objects@[k] == orig[k],
            rooms@.len() == 0 ==> objects@[0] == orig[0] && objects@.len() == orig.len(),
            rooms@.len() > 0 ==> {
                &&& objects@[0] == placed(orig[0], objects@[0].x as int, objects@[0].y as int)
                &&& open_cell(map@, objects@[0].x as int, objects@[0].y as int)
                &&& (objects@[0].x as int, objects@[0].y as int) == rect_center(rooms@[0])
            },
            forall|k: int|
                orig.len() <= k < objects@.len() ==> {
                    &&& open_cell(map@, (#[trigger] objects@[k]).x as int, objects@[k].y as int)
                    &&& spawned(objects@[k])
                    &&& in_some_room(rooms@, objects@[k].x as int, objects@[k].y as int)
                },
            all_within_max(old(objects)@) ==> all_within_max(objects@),
            all_modest(old(objects)@) ==> all_modest(objects@),
        decreases room_draws@.len() - n,
    {
        let new_room = room_draws[n];
        let ghost kept0 = kept_attempts(draws, n as int);
        assert(room_placed(draws[n as int]));
        let free = room_is_free(&new_room, &rooms);
        proof {
            assert forall|j: int| 0 <= j < kept0.len() implies rooms@[j] == draws[#[trigger] kept0[j]] by {}
        }
        if free {
            let ghost m0 = map@;
            let ghost o0 = objects@;
            let ghost r0 = rooms@;
            create_room(new_room, &mut map);
            proof {
                lemma_carving_keeps_shape(m0, map@, MAP_WIDTH as int, MAP_HEIGHT as int);
                lemma_center_inside(new_room);
                assert forall|i: int, j: int| in_interior(new_room, i, j) implies #[trigger] on_map(
                    map@,
                    i,
                    j,
                ) by {
                    assert(map@[i]@.len() == MAP_HEIGHT);
                }
            }
            let ghost m1 = map@;
            let ghost s0 = objects@;
            assert(draws_fit(new_room, fdraws[n as int].0@, fdraws[n as int].1@));
            furnish_room(new_room, &map, objects, &furnishings[n].0, &furnishings[n].1);
            let ghost o1 = objects@;
            let (new_x, new_y) = new_room.center();
            let horizontal_first = bend_draws[n];
            if rooms.len() == 0 {
                objects[PLAYER].set_pos(new_x, new_y);
                proof {
                    lemma_carved_twice(
                        m0,
                        m1,
                        map@,
                        |i: int, j: int| in_interior(new_room, i, j),
                        |i: int, j: int| false,
                    );
                }
            } else {
                let last = rooms.len() - 1;
                assert(room_placed(rooms@[last as int]));
                let (prev_x, prev_y) = rooms[last].center();
                proof {
                    lemma_center_inside(rooms@[last as int]);
                }
                dig_tunnel((prev_x, prev_y), (new_x, new_y), horizontal_first, &mut map);
                proof {
                    lemma_carved_twice(
                        m0,
                        m1,
                        map@,
                        |i: int, j: int| in_interior(new_room, i, j),
                        |i: int, j: int|
                            on_tunnel(
                                (prev_x as int, prev_y as int),
                                (new_x as int, new_y as int),
                                horizontal_first,
                                i,
                                j,
                            ),
                    );
                }
            }
            rooms.push(new_room);
            proof {
                let ghost b0 = bends;
                bends = bends.push(horizontal_first);
                let ghost nr = r0.len() as int;
                let dig = |i: int, j: int|
                    in_interior(new_room, i, j) || (nr >= 1 && on_tunnel(
                        rect_center(r0[nr - 1]),
                        rect_center(new_room),
                        horizontal_first,
                        i,
                        j,
                    ));
                assert(carved(m0, map@, dig));
                lemma_carving_keeps_open(m0, map@, dig);
                lemma_carving_keeps_shape(m0, map@, MAP_WIDTH as int, MAP_HEIGHT as int);
                lemma_carving_keeps_border(m0, map@, dig, MAP_WIDTH as int, MAP_HEIGHT as int);
                assert forall|i: int, j: int| on_map(map@, i, j) implies #[trigger] tile_at(map@, i, j)
                    == if dug(rooms@, bends, rooms@.len() as int, i, j) {
                    floor()
                } else {
                    wall()
                } by {
                    lemma_dug_push(r0, b0, new_room, horizontal_first, nr, i, j);
                    assert(rooms@ == r0.push(new_room));
                    assert(on_map(m0, i, j));
                }
                assert(rooms_apart(rooms@));
                assert(objects@.len() == o1.len());
                assert forall|k: int| 0 < k < o1.len() implies #[trigger] objects@[k] == o1[k] by {}
                assert forall|k: int| 0 <= k < o0.len() implies #[trigger] o1[k] == o0[k] by {
                    assert(o1.take(o0.len() as int)[k] == o0[k]);
                }
                assert forall|k: int| 0 < k < orig.len() implies #[trigger] objects@[k] == orig[k] by {
                    assert(o1[k] == o0[k]);
                }
                assert(o1[0] == o0[0]);
                assert forall|k: int| orig.len() <= k < objects@.len() implies {
                    &&& open_cell(map@, (#[trigger] objects@[k]).x as int, objects@[k].y as int)
                    &&& spawned(objects@[k])
                    &&& in_some_room(rooms@, objects@[k].x as int, objects@[k].y as int)
                } by {
                    assert(objects@[k] == o1[k]);
                    if k < o0.len() {
                        assert(o1[k] == o0[k]);
                        let i = choose|i: int| 0 <= i < r0.len() && #[trigger] in_interior(
                            r0[i],
                            o0[k].x as int,
                            o0[k].y as int,
                        );
                        assert(rooms@[i] == r0[i]);
                    } else {
                        assert(furnished(m1, o1, new_room, k));
                        assert(rooms@[nr] == new_room);
                    }
                }
                // The kept attempts, rooms and bends grow by this attempt.
                let kept1 = kept_attempts(draws, n + 1);
                assert(kept1 == kept0.push(n as int));
                assert(rooms@ =~= kept1.map_values(|i: int| draws[i]));
                assert(bends =~= kept1.map_values(|i: int| bend_draws@[i]));
                // The furnishing chain carries over to the new map and grows by
                // this room's furnishing.
                let t_new = kept0.len() as int;
                let states1 = states.push(objects@);
                assert forall|t: int, x: int, y: int|
                    0 <= t < kept0.len() && #[trigger] in_interior(draws[kept0[t]], x, y) implies tile_at(
                        m0,
                        x,
                        y,
                    ).blocked == tile_at(map@, x, y).blocked by {
                    assert(r0[t] == draws[kept0[t]]);
                    assert(room_placed(r0[t]));
                    assert(m0[x]@.len() == MAP_HEIGHT);
                    lemma_dug_rooms(r0, b0, nr, t, x, y);
                    assert(tile_at(m0, x, y) == floor());
                    assert(open_cell(m0, x, y));
                    assert(open_cell(map@, x, y));
                }
                lemma_chain_remap(m0, map@, orig, draws, fdraws, kept0, states);
                assert forall|x: int, y: int| #[trigger] in_interior(new_room, x, y) implies tile_at(
                    m1,
                    x,
                    y,
                ).blocked == tile_at(map@, x, y).blocked by {
                    assert(on_map(m1, x, y));
                    assert(tile_at(m1, x, y) == floor());
                    assert(open_cell(map@, x, y));
                }
                let fd = fdraws[n as int];
                assert(draws_fit(new_room, fd.0@, fd.1@));
                assert forall|j: int| 0 <= j < fd.0@.len() implies tile_at(
                    m1,
                    (#[trigger] fd.0@[j]).0 as int,
                    fd.0@[j].1 as int,
                ).blocked == tile_at(map@, fd.0@[j].0 as int, fd.0@[j].1 as int).blocked by {
                    assert(in_interior(new_room, fd.0@[j].0 as int, fd.0@[j].1 as int));
                }
                assert forall|j: int| 0 <= j < fd.1@.len() implies tile_at(
                    m1,
                    (#[trigger] fd.1@[j]).0 as int,
                    fd.1@[j].1 as int,
                ).blocked == tile_at(map@, fd.1@[j].0 as int, fd.1@[j].1 as int).blocked by {
                    assert(in_interior(new_room, fd.1@[j].0 as int, fd.1@[j].1 as int));
                }
                lemma_furnished_remap(m1, map@, s0, fd.0@, fd.1@, o1);
                if t_new == 0 {
                    assert(states1[0] == s0);
                    assert(objects@.update(0, s0[0]) =~= o1);
                    assert(furnish_step(map@, draws, fdraws, kept1, states1, 0));
                } else {
                    assert(objects@ == o1);
                    assert(furnish_step(map@, draws, fdraws, kept1, states1, t_new));
                }
                assert forall|t: int| 0 <= t < kept1.len() implies #[trigger] furnish_step(
                    map@,
                    draws,
                    fdraws,
                    kept1,
                    states1,
                    t,
                ) by {
                    if t < t_new {
                        assert(furnish_step(map@, draws, fdraws, kept0, states, t));
                        assert(kept1[t] == kept0[t]);
                        assert(kept1[0] == kept0[0]);
                        assert(states1[t] == states[t]);
                        assert(states1[t + 1] == states[t + 1]);
                        assert(states1[0] == states[0]);
                        assert(states1[1] == states[1]);
                    }
                }
                states = states1;
            }
        } else {
            proof {
                let j = choose|j: int| 0 <= j < rooms@.len() && rects_meet(new_room, #[trigger] rooms@[j]);
                assert(rooms@[j] == draws[kept0[j]]);
                assert(kept_attempts(draws, n + 1) == kept0);
            }
        }
        n = n + 1;
    }
    proof {
        assert(rooms@ == kept_rooms(draws));
        assert(bends == kept_bends(draws, bend_draws@));
        assert(furnish_chain(map@, orig, draws, fdraws, kept_attempts(draws, draws.len() as int), states));
        assert(laid_out_exactly(map@, old(objects)@, objects@, draws, fdraws, bend_draws@));
        if draws.len() > 0 {
            assert(laid_out_map(map@, rooms@, bends, old(objects)@, objects@));
        }
    }
    map
}

/// Makes a new map: `MAX_ROOMS` attempts, each drawing a room of random size
/// and place, its furnishing and the bend of its tunnel; then lays the map
/// out with `lay_out_map`, which keeps each drawn room that meets no room
/// kept before it.
pub fn make_map(objects: &mut Vec<Object>) -> (map: TileMap)
    requires
        old(objects)@.len() > 0,
    ensures
        exists|
            room_draws: Seq<Rect>,
            furnishings: Seq<(Vec<(i32, i32, bool)>, Vec<(i32, i32, i32)>)>,
            bends: Seq<bool>,
        |
            #[trigger] laid_out_exactly(
                map@,
                old(objects)@,
                final(objects)@,
                room_draws,
                furnishings,
                bends,
            ) && map_draws_fit(room_draws, furnishings, bends) && room_draws.len() == MAX_ROOMS,
        map_shape(map@, MAP_WIDTH as int, MAP_HEIGHT as int),
        populated(map@, old(objects)@, final(objects)@),
        exists|rooms: Seq<Rect>, bends: Seq<bool>|
            #[trigger] laid_out_map(map@, rooms, bends, old(objects)@, final(objects)@),
        old(objects)@.len() == 1 ==> all_on_floor(map@, final(objects)@),
        all_within_max(old(objects)@) ==> all_within_max(final(objects)@),
        closed_border(map@, MAP_WIDTH as int, MAP_HEIGHT as int),
        all_modest(old(objects)@) ==> all_modest(final(objects)@),
        ({
            let p = old(objects)@[0];
            &&& old(objects)@.len() == 1
            &&& all_modest(old(objects)@)
            &&& p.ai is None
            &&& p.item is None
            &&& p.fighter matches Some(f) ==> f.on_death == DeathCallback::Player
        }) ==> world_ok(map@, final(objects)@),
{
    let mut room_draws: Vec<Rect> = Vec::new();
    let mut furnishings: Vec<(Vec<(i32, i32, bool)>, Vec<(i32, i32, i32)>)> = Vec::new();
    let mut bends: Vec<bool> = Vec::new();
    let mut n: i32 = 0;
    while n < MAX_ROOMS
        invariant
            0 <= n <= MAX_ROOMS,
            room_draws@.len() == n,
            map_draws_fit(room_draws@, furnishings@, bends@),
        decreases MAX_ROOMS - n,
    {
        let w = random_range(ROOM_MIN_SIZE, ROOM_MAX_SIZE + 1);
        let h = random_range(ROOM_MIN_SIZE, ROOM_MAX_SIZE + 1);
        let x = random_range(0, MAP_WIDTH - w);
        let y = random_range(0, MAP_HEIGHT - h);
        let room = Rect::new(x, y, w, h);
        let furnishing = draw_furnishing(room);
        let bend = random_bool();
        room_draws.push(room);
        furnishings.push(furnishing);
        bends.push(bend);
        n = n + 1;
    }
    lay_out_map(objects, &room_draws, &furnishings, &bends)
}

/// Digging with more rooms keeps what fewer rooms dug.
pub proof fn lemma_dug_grows(rooms: Seq<Rect>, bends: Seq<bool>, m: int, n: int, x: int, y: int)
    requires
        0 <= m <= n,
        dug(rooms, bends, m, x, y),
    ensures
        dug(rooms, bends, n, x, y),
    decreases n - m,
{
    if m < n {
        lemma_dug_grows(rooms, bends, m, n - 1, x, y);
    }
}

/// On a dug map every dug cell of the grid is open.
pub proof fn lemma_dug_open(map: Seq<Vec<Tile>>, rooms: Seq<Rect>, bends: Seq<bool>, x: int, y: int)
    requires
        dug_map(map, rooms, bends),
        0 <= x < MAP_WIDTH,
        0 <= y < MAP_HEIGHT,
        dug(rooms, bends, rooms.len() as int, x, y),
    ensures
        open_cell(map, x, y),
{
    assert(map[x]@.len() == MAP_HEIGHT);
    assert(on_map(map, x, y));
    assert(tile_at(map, x, y) == floor());
}

/// On a dug map every open cell was dug.
pub proof fn lemma_open_dug(map: Seq<Vec<Tile>>, rooms: Seq<Rect>, bends: Seq<bool>, x: int, y: int)
    requires
        dug_map(map, rooms, bends),
        open_cell(map, x, y),
    ensures
        dug(rooms, bends, rooms.len() as int, x, y),
{
    assert(tile_at(map, x, y) == if dug(rooms, bends, rooms.len() as int, x, y) {
        floor()
    } else {
        wall()
    });
}

/// The centre of every kept room is connected to the centre of the first.
pub proof fn lemma_centers_connected(map: Seq<Vec<Tile>>, rooms: Seq<Rect>, bends: Seq<bool>, k: int)
    requires
        dug_map(map, rooms, bends),
        rooms_apart(rooms),
        bends.len() == rooms.len(),
        0 <= k < rooms.len(),
    ensures
        connected(map, rect_center(rooms[k]), rect_center(rooms[0])),
    decreases k,
{
    let n = rooms.len() as int;
    assert(room_placed(rooms[k]));
    lemma_center_inside(rooms[k]);
    let b = rect_center(rooms[k]);
    if k == 0 {
        lemma_dug_rooms(rooms, bends, k + 1, k, b.0, b.1);
        lemma_dug_grows(rooms, bends, k + 1, n, b.0, b.1);
        lemma_dug_open(map, rooms, bends, b.0, b.1);
        lemma_connected_here(map, b);
    } else {
        lemma_centers_connected(map, rooms, bends, k - 1);
        assert(room_placed(rooms[k - 1]));
        lemma_center_inside(rooms[k - 1]);
        let a = rect_center(rooms[k - 1]);
        let hf = bends[k];
        assert forall|i: int, j: int| #[trigger] on_tunnel(a, b, hf, i, j) implies open_cell(map, i, j) by {
            assert(dug(rooms, bends, k + 1, i, j));
            lemma_dug_grows(rooms, bends, k + 1, n, i, j);
            lemma_dug_open(map, rooms, bends, i, j);
        }
        if hf {
            assert forall|y: int| (b.1 <= y <= a.1 || a.1 <= y <= b.1) implies #[trigger] open_cell(map, b.0, y) by {
                assert(on_tunnel(a, b, hf, b.0, y));
            }
            assert forall|x: int| (b.0 <= x <= a.0 || a.0 <= x <= b.0) implies #[trigger] open_cell(map, x, a.1) by {
                assert(on_tunnel(a, b, hf, x, a.1));
            }
            lemma_connected_column(map, b.0, b.1, a.1);
            lemma_connected_row(map, b.0, a.0, a.1);
            lemma_connected_trans(map, b, (b.0, a.1), a);
        } else {
            assert forall|x: int| (b.0 <= x <= a.0 || a.0 <= x <= b.0) implies #[trigger] open_cell(map, x, b.1) by {
                assert(on_tunnel(a, b, hf, x, b.1));
            }
            assert forall|y: int| (b.1 <= y <= a.1 || a.1 <= y <= b.1) implies #[trigger] open_cell(map, a.0, y) by {
                assert(on_tunnel(a, b, hf, a.0, y));
            }
            lemma_connected_row(map, b.0, a.0, b.1);
            lemma_connected_column(map, a.0, b.1, a.1);
            lemma_connected_trans(map, b, (a.0, b.1), a);
        }
        lemma_connected_trans(map, b, a, rect_center(rooms[0]));
    }
}

/// Every cell dug by the first `m` rooms and their tunnels is connected to
/// the centre of the first room.
proof fn lemma_dug_connected(map: Seq<Vec<Tile>>, rooms: Seq<Rect>, bends: Seq<bool>, m: int, x: int, y: int)
    requires
        dug_map(map, rooms, bends),
        rooms_apart(rooms),
        bends.len() == rooms.len(),
        0 <= m <= rooms.len(),
        dug(rooms, bends, m, x, y),
    ensures
        connected(map, (x, y), rect_center(rooms[0])),
    decreases m,
{
    let n = rooms.len() as int;
    let c0 = rect_center(rooms[0]);
    if dug(rooms, bends, m - 1, x, y) {
        lemma_dug_connected(map, rooms, bends, m - 1, x, y);
    } else if in_interior(rooms[m - 1], x, y) {
        let r = rooms[m - 1];
        assert(room_placed(r));
        lemma_center_inside(r);
        let c = rect_center(r);
        assert forall|i: int, j: int| #[trigger] in_interior(r, i, j) implies open_cell(map, i, j) by {
            lemma_dug_rooms(rooms, bends, n, m - 1, i, j);
            lemma_dug_open(map, rooms, bends, i, j);
        }
        assert forall|i: int| (x <= i <= c.0 || c.0 <= i <= x) implies #[trigger] open_cell(map, i, y) by {
            assert(in_interior(r, i, y));
        }
        assert forall|j: int| (y <= j <= c.1 || c.1 <= j <= y) implies #[trigger] open_cell(map, c.0, j) by {
            assert(in_interior(r, c.0, j));
        }
        lemma_connected_row(map, x, c.0, y);
        lemma_connected_column(map, c.0, y, c.1);
        lemma_connected_trans(map, (x, y), (c.0, y), c);
        lemma_centers_connected(map, rooms, bends, m - 1);
        lemma_connected_trans(map, (x, y), c, c0);
    } else {
        assert(m >= 2);
        assert(room_placed(rooms[m - 1]) && room_placed(rooms[m - 2]));
        lemma_center_inside(rooms[m - 1]);
        lemma_center_inside(rooms[m - 2]);
        let a = rect_center(rooms[m - 2]);
        let b = rect_center(rooms[m - 1]);
        let hf = bends[m - 1];
        assert(on_tunnel(a, b, hf, x, y));
        assert forall|i: int, j: int| #[trigger] on_tunnel(a, b, hf, i, j) implies open_cell(map, i, j) by {
            assert(dug(rooms, bends, m, i, j));
            lemma_dug_grows(rooms, bends, m, n, i, j);
            lemma_dug_open(map, rooms, bends, i, j);
        }
        // The end of the run the cell lies on, and the centre it reaches.
        let (end, centre_k) = if hf {
            if on_h_run(a.0, b.0, a.1, x, y) { ((a.0, a.1), m - 2) } else { ((b.0, b.1), m - 1) }
        } else {
            if on_v_run(a.1, b.1, a.0, x, y) { ((a.0, a.1), m - 2) } else { ((b.0, b.1), m - 1) }
        };
        if end.1 == y {
            assert forall|i: int| (x <= i <= end.0 || end.0 <= i <= x) implies #[trigger] open_cell(map, i, y) by {
                assert(on_tunnel(a, b, hf, i, y));
            }
            lemma_connected_row(map, x, end.0, y);
        } else {
            assert(end.0 == x);
            assert forall|j: int| (y <= j <= end.1 || end.1 <= j <= y) implies #[trigger] open_cell(map, x, j) by {
                assert(on_tunnel(a, b, hf, x, j));
            }
            lemma_connected_column(map, x, y, end.1);
        }
        lemma_centers_connected(map, rooms, bends, centre_k);
        lemma_connected_trans(map, (x, y), end, c0);
    }
}

/// A dug map is connected: from every open cell one can walk over open
/// cells to the centre of the first room, and so to every other open cell.
pub proof fn lemma_dug_map_connected(map: Seq<Vec<Tile>>, rooms: Seq<Rect>, bends: Seq<bool>, x: int, y: int)
    requires
        dug_map(map, rooms, bends),
        rooms_apart(rooms),
        rooms.len() >= 1,
        bends.len() == rooms.len(),
        open_cell(map, x, y),
    ensures
        connected(map, (x, y), rect_center(rooms[0])),
{
    lemma_open_dug(map, rooms, bends, x, y);
    lemma_dug_connected(map, rooms, bends, rooms.len() as int, x, y);
}


/// Whether a drawn room is kept depends only on the rooms kept before it: a
/// draw that meets none of them is always kept, and a draw that meets one
/// of them never is. Draws already rejected play no part.
pub proof fn lemma_kept_step(room_draws: Seq<Rect>, n: int)
    requires
        0 <= n < room_draws.len(),
    ensures
        (forall|t: int|
            0 <= t < kept_attempts(room_draws, n).len() ==> !rects_meet(
                room_draws[n],
                room_draws[#[trigger] kept_attempts(room_draws, n)[t]],
            )) ==> kept_attempts(room_draws, n + 1) == kept_attempts(room_draws, n).push(n),
        (exists|t: int|
            0 <= t < kept_attempts(room_draws, n).len() && rects_meet(
                room_draws[n],
                room_draws[#[trigger] kept_attempts(room_draws, n)[t]],
            )) ==> kept_attempts(room_draws, n + 1) == kept_attempts(room_draws, n),
{
}

} // verus!

