use vstd::prelude::*;
use crate::messages::Color;

verus! {

/// One cell of the map.
#[derive(Clone, Copy, Debug, PartialEq, Eq, Structural)]
pub struct Tile {
    pub blocked: bool,
    pub block_sight: bool,
    pub explored: bool,
}

impl Tile {
    /// Open floor, not yet explored.
    pub fn empty() -> (t: Tile)
        ensures
            t == floor(),
    {
        Tile { blocked: false, block_sight: false, explored: false }
    }

    /// A wall, not yet explored.
    pub fn wall() -> (t: Tile)
        ensures
            t == wall(),
    {
        Tile { blocked: true, block_sight: true, explored: false }
    }
}

/// Open floor, not yet explored.
pub open spec fn floor() -> Tile {
    Tile { blocked: false, block_sight: false, explored: false }
}

/// A wall, not yet explored.
pub open spec fn wall() -> Tile {
    Tile { blocked: true, block_sight: true, explored: false }
}

/// A rectangle by its two corners: (x1, y1) and (x2, y2).
#[derive(Clone, Copy, Debug, PartialEq, Eq, Structural)]
pub struct Rect {
    pub x1: i32,
    pub y1: i32,
    pub x2: i32,
    pub y2: i32,
}

/// Integer halving that rounds toward zero, as `/ 2` does on `i32`.
pub open spec fn half(s: int) -> int {
    if s >= 0 {
        s / 2
    } else {
        -((-s) / 2)
    }
}

/// Whether two rectangles overlap or touch, edges included.
pub open spec fn rects_meet(a: Rect, b: Rect) -> bool {
    &&& a.x1 <= b.x2
    &&& a.x2 >= b.x1
    &&& a.y1 <= b.y2
    &&& a.y2 >= b.y1
}

/// The centre of a rectangle, each coordinate halved toward zero.
pub open spec fn rect_center(r: Rect) -> (int, int) {
    (half(r.x1 + r.x2), half(r.y1 + r.y2))
}

/// Halves `s`, rounding toward zero.
fn halve(s: i32) -> (h: i32)
    ensures
        h == half(s as int),
{
    if s >= 0 {
        s / 2
    } else if s == i32::MIN {
        -(i32::MAX / 2) - 1
    } else {
        -((-s) / 2)
    }
}

impl Rect {
    /// The rectangle with corner (x, y), `w` wide and `h` high.
    pub fn new(x: i32, y: i32, w: i32, h: i32) -> (r: Rect)
        requires
            i32::MIN <= x + w <= i32::MAX,
            i32::MIN <= y + h <= i32::MAX,
        ensures
            r == (Rect { x1: x, y1: y, x2: (x + w) as i32, y2: (y + h) as i32 }),
    {
        Rect { x1: x, y1: y, x2: x + w, y2: y + h }
    }

    /// The middle of the rectangle.
    pub fn center(&self) -> (c: (i32, i32))
        requires
            i32::MIN <= self.x1 + self.x2 <= i32::MAX,
            i32::MIN <= self.y1 + self.y2 <= i32::MAX,
        ensures
            c.0 == rect_center(*self).0,
            c.1 == rect_center(*self).1,
    {
        let center_x = halve(self.x1 + self.x2);
        let center_y = halve(self.y1 + self.y2);
        (center_x, center_y)
    }

    /// Whether this rectangle overlaps or touches `other`.
    pub fn intersects_with(&self, other: &Rect) -> (b: bool)
        ensures
            b == rects_meet(*self, *other),
    {
        (self.x1 <= other.x2) && (self.x2 >= other.x1) && (self.y1 <= other.y2) && (self.y2
            >= other.y1)
    }
}

/// Overlapping is symmetric: a rectangle meets another exactly when the
/// other meets it.
pub proof fn lemma_intersects_symmetric(a: Rect, b: Rect)
    ensures
        rects_meet(a, b) == rects_meet(b, a),
{
}

/// A rectangle made with a positive width and height meets itself.
pub proof fn lemma_intersects_reflexive(a: Rect)
    requires
        a.x1 <= a.x2,
        a.y1 <= a.y2,
    ensures
        rects_meet(a, a),
{
}

/// The centre of a rectangle with non-negative corners that is at least
/// three cells wide and high lies strictly inside it, off its edges.
pub proof fn lemma_center_inside(r: Rect)
    requires
        0 <= r.x1,
        0 <= r.y1,
        r.x1 + 2 <= r.x2,
        r.y1 + 2 <= r.y2,
    ensures
        r.x1 < rect_center(r).0 < r.x2,
        r.y1 < rect_center(r).1 < r.y2,
{
}

/// The map, indexed first by column and then by row.
pub type TileMap = Vec<Vec<Tile>>;

/// Whether (x, y) names a cell of the map.
pub open spec fn on_map(map: Seq<Vec<Tile>>, x: int, y: int) -> bool {
    0 <= x < map.len() && 0 <= y < map[x]@.len()
}

/// The cell at (x, y).
pub open spec fn tile_at(map: Seq<Vec<Tile>>, x: int, y: int) -> Tile {
    map[x]@[y]
}

/// Whether two maps have the same columns of the same heights.
pub open spec fn same_shape(a: Seq<Vec<Tile>>, b: Seq<Vec<Tile>>) -> bool {
    &&& a.len() == b.len()
    &&& forall|x: int| 0 <= x < a.len() ==> #[trigger] a[x]@.len() == b[x]@.len()
}

/// Whether every column of the map has `height` cells.
pub open spec fn map_shape(map: Seq<Vec<Tile>>, width: int, height: int) -> bool {
    &&& map.len() == width
    &&& forall|x: int| 0 <= x < map.len() ==> #[trigger] map[x]@.len() == height
}

/// `after` is `before` with every cell for which `dig` holds turned into
/// open floor.
pub open spec fn carved(
    before: Seq<Vec<Tile>>,
    after: Seq<Vec<Tile>>,
    dig: spec_fn(int, int) -> bool,
) -> bool {
    &&& same_shape(before, after)
    &&& forall|x: int, y: int|
        on_map(before, x, y) ==> #[trigger] tile_at(after, x, y) == if dig(x, y) {
            floor()
        } else {
            tile_at(before, x, y)
        }
}

/// Whether (x, y) is a cell of the map that is open floor or otherwise not
/// blocked.
pub open spec fn open_cell(map: Seq<Vec<Tile>>, x: int, y: int) -> bool {
    on_map(map, x, y) && !tile_at(map, x, y).blocked
}

/// Whether every open cell lies off the outer ring of a `width` by
/// `height` map, so that the map is walled all around.
pub open spec fn closed_border(map: Seq<Vec<Tile>>, width: int, height: int) -> bool {
    forall|x: int, y: int|
        #[trigger] open_cell(map, x, y) ==> 1 <= x <= width - 2 && 1 <= y <= height - 2
}

/// Digging only inside the outer ring keeps the map walled all around.
pub proof fn lemma_carving_keeps_border(
    before: Seq<Vec<Tile>>,
    after: Seq<Vec<Tile>>,
    dig: spec_fn(int, int) -> bool,
    width: int,
    height: int,
)
    requires
        carved(before, after, dig),
        closed_border(before, width, height),
        forall|x: int, y: int| #[trigger] dig(x, y) ==> 1 <= x <= width - 2 && 1 <= y <= height - 2,
    ensures
        closed_border(after, width, height),
{
    assert forall|x: int, y: int| #[trigger] open_cell(after, x, y) implies 1 <= x <= width - 2 && 1
        <= y <= height - 2 by {
        assert(on_map(before, x, y));
        if !dig(x, y) {
            assert(open_cell(before, x, y));
        }
    }
}

/// Whether (x, y) is a cell of the map.
pub fn on_map_at(map: &TileMap, x: i64, y: i64) -> (b: bool)
    ensures
        b == on_map(map@, x as int, y as int),
{
    if x < 0 || y < 0 {
        return false;
    }
    if x as u64 >= map.len() as u64 {
        return false;
    }
    let column = x as usize;
    (y as u64) < map[column].len() as u64
}

/// Sets one cell of the map.
pub fn set_tile(map: &mut TileMap, x: usize, y: usize, t: Tile)
    requires
        on_map(old(map)@, x as int, y as int),
    ensures
        same_shape(old(map)@, final(map)@),
        forall|i: int, j: int|
            on_map(old(map)@, i, j) ==> #[trigger] tile_at(final(map)@, i, j) == if i == x && j
                == y {
                t
            } else {
                tile_at(old(map)@, i, j)
            },
{
    map[x][y] = t;
}

/// A new map `width` columns wide and `height` rows high, all wall.
pub fn new_map(width: usize, height: usize) -> (map: TileMap)
    ensures
        map_shape(map@, width as int, height as int),
        forall|x: int, y: int| on_map(map@, x, y) ==> #[trigger] tile_at(map@, x, y) == wall(),
{
    let mut map: TileMap = Vec::new();
    for i in 0..width
        invariant
            map@.len() == i,
            forall|x: int| 0 <= x < i ==> #[trigger] map@[x]@.len() == height,
            forall|x: int, y: int| on_map(map@, x, y) ==> #[trigger] tile_at(map@, x, y) == wall(),
    {
        let mut column: Vec<Tile> = Vec::new();
        for j in 0..height
            invariant
                column@.len() == j,
                forall|y: int| 0 <= y < j ==> #[trigger] column@[y] == wall(),
        {
            column.push(Tile::wall());
        }
        assert(column@.len() == height);
        let ghost prev = map@;
        let ghost col = column@;
        map.push(column);
        assert forall|x: int, y: int| on_map(map@, x, y) implies #[trigger] tile_at(map@, x, y)
            == wall() by {
            if x < i {
                assert(map@[x] == prev[x]);
                assert(on_map(prev, x, y));
                assert(tile_at(prev, x, y) == wall());
            } else {
                assert(map@[x]@ == col);
                assert(col[y] == wall());
            }
        }
    }
    map
}

/// Whether the interior of `room` can be dug out of `map`.
pub open spec fn room_fits(room: Rect, map: Seq<Vec<Tile>>) -> bool {
    &&& room.x1 < i32::MAX
    &&& room.y1 < i32::MAX
    &&& (room.x1 + 1 < room.x2 && room.y1 + 1 < room.y2) ==> {
        &&& 0 <= room.x1 + 1
        &&& room.x2 <= map.len()
        &&& 0 <= room.y1 + 1
        &&& forall|x: int| room.x1 < x < room.x2 ==> room.y2 <= #[trigger] map[x]@.len()
    }
}

/// Whether (x, y) lies strictly inside the rectangle.
pub open spec fn in_interior(room: Rect, x: int, y: int) -> bool {
    room.x1 < x < room.x2 && room.y1 < y < room.y2
}

/// Turns the inside of the room, its edges excluded, into open floor.
pub fn create_room(room: Rect, map: &mut TileMap)
    requires
        room_fits(room, old(map)@),
    ensures
        carved(old(map)@, final(map)@, |x: int, y: int| in_interior(room, x, y)),
{
    let ghost before = map@;
    let ghost dig = |x: int, y: int| in_interior(room, x, y);
    if room.x1 + 1 >= room.x2 || room.y1 + 1 >= room.y2 {
        assert(carved(before, map@, dig));
        return;
    }
    let mut x: i32 = room.x1 + 1;
    while x < room.x2
        invariant
            room_fits(room, before),
            room.x1 + 1 < room.x2,
            room.y1 + 1 < room.y2,
            room.x1 + 1 <= x <= room.x2,
            same_shape(before, map@),
            forall|i: int, j: int|
                on_map(before, i, j) ==> #[trigger] tile_at(map@, i, j) == if in_interior(
                    room,
                    i,
                    j,
                ) && i < x {
                    floor()
                } else {
                    tile_at(before, i, j)
                },
        decreases room.x2 - x,
    {
        let mut y: i32 = room.y1 + 1;
        while y < room.y2
            invariant
                room_fits(room, before),
                room.x1 + 1 < room.x2,
                room.y1 + 1 < room.y2,
                room.x1 + 1 <= x < room.x2,
                room.y1 + 1 <= y <= room.y2,
                same_shape(before, map@),
                forall|i: int, j: int|
                    on_map(before, i, j) ==> #[trigger] tile_at(map@, i, j) == if in_interior(
                        room,
                        i,
                        j,
                    ) && (i < x || (i == x && j < y)) {
                        floor()
                    } else {
                        tile_at(before, i, j)
                    },
            decreases room.y2 - y,
        {
            assert(room.y2 <= before[x as int]@.len());
            set_tile(map, x as usize, y as usize, Tile::empty());
            y = y + 1;
        }
        x = x + 1;
    }
    assert(carved(before, map@, dig));
}

/// Whether the tiles from column `a` to column `b`, both included, exist in
/// row `y`.
pub open spec fn h_tunnel_fits(x1: int, x2: int, y: int, map: Seq<Vec<Tile>>) -> bool {
    let lo = if x1 < x2 { x1 } else { x2 };
    let hi = if x1 < x2 { x2 } else { x1 };
    &&& 0 <= lo
    &&& hi < map.len()
    &&& hi < i32::MAX
    &&& 0 <= y
    &&& forall|x: int| lo <= x <= hi ==> y < #[trigger] map[x]@.len()
}

/// Whether (x, y) lies on the horizontal run from `x1` to `x2` in row `row`.
pub open spec fn on_h_run(x1: int, x2: int, row: int, x: int, y: int) -> bool {
    &&& y == row
    &&& (x1 <= x <= x2 || x2 <= x <= x1)
}

/// Digs a horizontal tunnel in row `y` from column `x1` to column `x2`,
/// both ends included.
pub fn create_h_tunnel(x1: i32, x2: i32, y: i32, map: &mut TileMap)
    requires
        h_tunnel_fits(x1 as int, x2 as int, y as int, old(map)@),
    ensures
        carved(
            old(map)@,
            final(map)@,
            |i: int, j: int| on_h_run(x1 as int, x2 as int, y as int, i, j),
        ),
{
    let ghost before = map@;
    let lo = if x1 < x2 { x1 } else { x2 };
    let hi = if x1 < x2 { x2 } else { x1 };
    let mut x: i32 = lo;
    while x <= hi
        invariant
            h_tunnel_fits(x1 as int, x2 as int, y as int, before),
            lo == (if x1 < x2 { x1 } else { x2 }),
            hi == (if x1 < x2 { x2 } else { x1 }),
            lo <= x <= hi + 1,
            same_shape(before, map@),
            forall|i: int, j: int|
                on_map(before, i, j) ==> #[trigger] tile_at(map@, i, j) == if on_h_run(
                    x1 as int,
                    x2 as int,
                    y as int,
                    i,
                    j,
                ) && i < x {
                    floor()
                } else {
                    tile_at(before, i, j)
                },
        decreases hi - x + 1,
    {
        assert(y < before[x as int]@.len());
        set_tile(map, x as usize, y as usize, Tile::empty());
        x = x + 1;
    }
    assert(carved(before, map@, |i: int, j: int| on_h_run(x1 as int, x2 as int, y as int, i, j)));
}

/// Whether the tiles from row `y1` to row `y2`, both included, exist in
/// column `x`.
pub open spec fn v_tunnel_fits(y1: int, y2: int, x: int, map: Seq<Vec<Tile>>) -> bool {
    let lo = if y1 < y2 { y1 } else { y2 };
    let hi = if y1 < y2 { y2 } else { y1 };
    &&& 0 <= lo
    &&& 0 <= x < map.len()
    &&& hi < map[x]@.len()
    &&& hi < i32::MAX
}

/// Whether (x, y) lies on the vertical run from `y1` to `y2` in column `col`.
pub open spec fn on_v_run(y1: int, y2: int, col: int, x: int, y: int) -> bool {
    &&& x == col
    &&& (y1 <= y <= y2 || y2 <= y <= y1)
}

/// Digs a vertical tunnel in column `x` from row `y1` to row `y2`, both ends
/// included.
pub fn create_v_tunnel(y1: i32, y2: i32, x: i32, map: &mut TileMap)
    requires
        v_tunnel_fits(y1 as int, y2 as int, x as int, old(map)@),
    ensures
        carved(
            old(map)@,
            final(map)@,
            |i: int, j: int| on_v_run(y1 as int, y2 as int, x as int, i, j),
        ),
{
    let ghost before = map@;
    let lo = if y1 < y2 { y1 } else { y2 };
    let hi = if y1 < y2 { y2 } else { y1 };
    let mut y: i32 = lo;
    while y <= hi
        invariant
            v_tunnel_fits(y1 as int, y2 as int, x as int, before),
            lo == (if y1 < y2 { y1 } else { y2 }),
            hi == (if y1 < y2 { y2 } else { y1 }),
            lo <= y <= hi + 1,
            same_shape(before, map@),
            forall|i: int, j: int|
                on_map(before, i, j) ==> #[trigger] tile_at(map@, i, j) == if on_v_run(
                    y1 as int,
                    y2 as int,
                    x as int,
                    i,
                    j,
                ) && j < y {
                    floor()
                } else {
                    tile_at(before, i, j)
                },
        decreases hi - y + 1,
    {
        set_tile(map, x as usize, y as usize, Tile::empty());
        y = y + 1;
    }
    assert(carved(before, map@, |i: int, j: int| on_v_run(y1 as int, y2 as int, x as int, i, j)));
}

/// The colour a map cell is drawn in: walls and floor each have a dark
/// colour when out of sight and a light one in sight.
pub open spec fn tile_color_spec(visible: bool, wall: bool) -> Color {
    match (visible, wall) {
        (false, true) => Color::Rgb(0, 0, 100),
        (false, false) => Color::Rgb(50, 50, 150),
        (true, true) => Color::Rgb(130, 110, 50),
        (true, false) => Color::Rgb(200, 180, 50),
    }
}

/// The colour of a cell that is or is not in sight and is or is not a wall.
pub fn tile_color(visible: bool, wall: bool) -> (c: Color)
    ensures
        c == tile_color_spec(visible, wall),
{
    match (visible, wall) {
        (false, true) => Color::Rgb(0, 0, 100),
        (false, false) => Color::Rgb(50, 50, 150),
        (true, true) => Color::Rgb(130, 110, 50),
        (true, false) => Color::Rgb(200, 180, 50),
    }
}

} // verus!
