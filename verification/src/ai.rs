use vstd::prelude::*;
use vstd::string::StringExecFns;
use crate::fov::{Fov, fov_shape, in_fov_bounds, sees};
use crate::map::{Tile, TileMap, on_map_at, open_cell};
use crate::messages::{Color, add_message, decimal, log_texts};
use crate::object::{
    Ai, Object, all_modest, all_within_max, attack_damage, attack_fits, attack_ok, attack_outcome,
    damage_texts, dist_sq,
    lemma_near_bounds, modest, near_enough, near_now,
};
use crate::random::random_range;
use crate::world::{
    Game, MAP_HEIGHT, MAP_WIDTH, PLAYER, all_on_floor, move_by, move_towards, step_component,
    step_fits, step_to, step_toward, stepped, world_ok,
};

verus! {

/// The squared distance between the objects at `a` and `b`.
pub open spec fn gap(objects: Seq<Object>, a: int, b: int) -> int {
    dist_sq(objects[a].x as int, objects[a].y as int, objects[b].x as int, objects[b].y as int)
}

/// Whether the player is alive enough to be attacked: a fighter with hit
/// points left.
pub open spec fn player_standing(objects: Seq<Object>) -> bool {
    objects[0].fighter matches Some(f) && f.hp > 0
}

/// The step a basic monster at `id` takes toward the player.
pub open spec fn chase_step(objects: Seq<Object>, id: int) -> (int, int) {
    step_to(
        objects[id].x as int,
        objects[id].y as int,
        objects[0].x as int,
        objects[0].y as int,
    )
}

/// Whether a basic monster's turn can be carried out.
pub open spec fn basic_turn_ok(map: Seq<Vec<Tile>>, objects: Seq<Object>, fov: &Fov, id: int) -> bool {
    &&& 0 <= id < objects.len()
    &&& in_fov_bounds(fov, objects[id].x as int, objects[id].y as int)
    &&& sees(fov, objects[id].x as int, objects[id].y as int) ==> {
        &&& near_enough(
            objects[id].x as int,
            objects[id].y as int,
            objects[0].x as int,
            objects[0].y as int,
        )
        &&& gap(objects, id, 0) >= 4 ==> step_fits(
            map,
            objects,
            id,
            chase_step(objects, id).0,
            chase_step(objects, id).1,
        )
        &&& (gap(objects, id, 0) < 4 && player_standing(objects)) ==> {
            &&& id != 0
            &&& attack_ok(objects[id], objects[0])
        }
    }
}

/// What a basic monster's turn does: out of sight it waits; in sight and two
/// or more cells away (compared by squares) it steps toward the player;
/// closer, it attacks the player if the player still has hit points.
pub open spec fn basic_turn(
    map: Seq<Vec<Tile>>,
    objects: Seq<Object>,
    fov: &Fov,
    id: int,
    objects_after: Seq<Object>,
    log_before: Seq<(Seq<char>, Color)>,
    log_after: Seq<(Seq<char>, Color)>,
) -> bool {
    if !sees(fov, objects[id].x as int, objects[id].y as int) {
        objects_after == objects && log_after == log_before
    } else if gap(objects, id, 0) >= 4 {
        &&& objects_after == stepped(
            map,
            objects,
            id,
            chase_step(objects, id).0,
            chase_step(objects, id).1,
        )
        &&& log_after == log_before
    } else if player_standing(objects) {
        &&& objects_after.len() == objects.len()
        &&& forall|j: int| 0 < j < objects.len() ==> objects_after[j] == objects[j]
        &&& attack_outcome(objects[id], objects[0], objects_after[0], log_before, log_after)
    } else {
        objects_after == objects && log_after == log_before
    }
}

/// A basic monster's turn: it chases the player it can see and attacks when
/// next to it. The monster keeps its basic behaviour.
pub fn ai_basic(monster_id: usize, game: &mut Game, objects: &mut Vec<Object>, fov: &Fov) -> (ai: Ai)
    requires
        basic_turn_ok(old(game).map@, old(objects)@, fov, monster_id as int),
    ensures
        ai == Ai::Basic,
        final(game).map == old(game).map,
        final(game).inventory == old(game).inventory,
        basic_turn(
            old(game).map@,
            old(objects)@,
            fov,
            monster_id as int,
            final(objects)@,
            log_texts(old(game).log@),
            log_texts(final(game).log@),
        ),
        all_on_floor(old(game).map@, old(objects)@)
            ==> all_on_floor(final(game).map@, final(objects)@),
        all_within_max(old(objects)@) ==> all_within_max(final(objects)@),
        all_modest(old(objects)@) ==> all_modest(final(objects)@),
        old(objects)@.len() > 0 && old(objects)@[0].ai is None && monster_id != 0
            ==> final(objects)@[0].ai is None,
        ({
            let o = old(objects)@[monster_id as int];
            let p = old(objects)@[0];
            monster_id != 0 && !(sees(fov, o.x as int, o.y as int) && (p.x - o.x) * (p.x - o.x) + (
            p.y - o.y) * (p.y - o.y) < 4)
        }) ==> log_texts(final(game).log@) == log_texts(old(game).log@) && final(objects)@[0]
            == old(objects)@[0],
{
    let (monster_x, monster_y) = objects[monster_id].pos();
    if fov.is_in_fov(monster_x, monster_y) {
        let (player_x, player_y) = objects[PLAYER].pos();
        let d = objects[monster_id].distance_sq(player_x, player_y);
        let standing = match objects[PLAYER].fighter {
            Some(f) => f.hp > 0,
            None => false,
        };
        if d >= 4 {
            move_towards(monster_id, player_x, player_y, &game.map, objects);
        } else if standing {
            let ghost before = objects@;
            let mut monster = objects.remove(monster_id);
            let mut player = objects.remove(PLAYER);
            monster.attack(&mut player, &mut game.log);
            objects.insert(PLAYER, player);
            objects.insert(monster_id, monster);
            assert forall|j: int| 0 < j < before.len() implies objects@[j] == before[j] by {
                if j < monster_id {
                } else {
                }
            }
        }
    }
    Ai::Basic
}

/// Whether a step of at most one cell each way from the object at `id`
/// stays on the map.
pub open spec fn can_stumble(map: Seq<Vec<Tile>>, objects: Seq<Object>, id: int) -> bool {
    forall|dx: int, dy: int|
        -1 <= dx <= 1 && -1 <= dy <= 1 ==> #[trigger] step_fits(map, objects, id, dx, dy)
}

/// The log line of a monster whose confusion wears off.
pub open spec fn unconfused_text(name: Seq<char>) -> Seq<char> {
    "The "@ + name + " is no longer confused!"@
}

/// What a confused monster's turn does: while turns remain it tries a step
/// of at most one cell each way, chosen at random, and has one turn less;
/// when they have run out the log says so and it returns to its former
/// behaviour.
pub open spec fn confused_turn(
    map: Seq<Vec<Tile>>,
    objects: Seq<Object>,
    id: int,
    previous_ai: Ai,
    num_turns: int,
    objects_after: Seq<Object>,
    log_before: Seq<(Seq<char>, Color)>,
    log_after: Seq<(Seq<char>, Color)>,
    ai: Ai,
) -> bool {
    if num_turns >= 0 {
        &&& exists|dx: int, dy: int|
            -1 <= dx <= 1 && -1 <= dy <= 1 && objects_after == #[trigger] stepped(
                map,
                objects,
                id,
                dx,
                dy,
            )
        &&& log_after == log_before
        &&& ai == Ai::Confused { previous_ai: Box::new(previous_ai), num_turns: (num_turns - 1) as i32 }
    } else {
        &&& objects_after == objects
        &&& log_after == log_before.push((unconfused_text(objects[id].name@), Color::Red))
        &&& ai == previous_ai
    }
}

/// A confused monster's turn: it stumbles in a random direction until the
/// confusion wears off.
pub fn ai_confused(
    monster_id: usize,
    game: &mut Game,
    objects: &mut Vec<Object>,
    previous_ai: Box<Ai>,
    num_turns: i32,
) -> (ai: Ai)
    requires
        monster_id < old(objects)@.len(),
        num_turns >= 0 ==> can_stumble(old(game).map@, old(objects)@, monster_id as int),
    ensures
        final(game).map == old(game).map,
        final(game).inventory == old(game).inventory,
        confused_turn(
            old(game).map@,
            old(objects)@,
            monster_id as int,
            *previous_ai,
            num_turns as int,
            final(objects)@,
            log_texts(old(game).log@),
            log_texts(final(game).log@),
            ai,
        ),
        all_on_floor(old(game).map@, old(objects)@)
            ==> all_on_floor(final(game).map@, final(objects)@),
        all_within_max(old(objects)@) ==> all_within_max(final(objects)@),
        all_modest(old(objects)@) ==> all_modest(final(objects)@),
        old(objects)@.len() > 0 && old(objects)@[0].ai is None && monster_id != 0
            ==> final(objects)@[0].ai is None,
{
    if num_turns >= 0 {
        let dx = random_range(-1, 2);
        let dy = random_range(-1, 2);
        assert(step_fits(game.map@, objects@, monster_id as int, dx as int, dy as int));
        move_by(monster_id, dx, dy, &game.map, objects);
        assert(objects@ == stepped(game.map@, old(objects)@, monster_id as int, dx as int, dy as int));
        Ai::Confused { previous_ai: previous_ai, num_turns: num_turns - 1 }
    } else {
        let mut text = String::from_str("The ");
        text.append(objects[monster_id].name.as_str());
        text.append(" is no longer confused!");
        add_message(&mut game.log, text, Color::Red);
        *previous_ai
    }
}


/// The objects with the behaviour of the one at `id` taken out, as it is
/// while that monster's turn is computed.
pub open spec fn without_ai(objects: Seq<Object>, id: int) -> Seq<Object> {
    objects.update(id, Object { ai: None, ..objects[id] })
}

/// The objects with the behaviour of the one at `id` set to `ai`.
pub open spec fn with_ai(objects: Seq<Object>, id: int, ai: Ai) -> Seq<Object> {
    objects.update(id, Object { ai: Some(ai), ..objects[id] })
}

/// Whether the turn of the monster at `id` can be carried out.
pub open spec fn turn_ok(map: Seq<Vec<Tile>>, objects: Seq<Object>, fov: &Fov, id: int) -> bool {
    &&& 0 <= id < objects.len()
    &&& match objects[id].ai {
        Some(Ai::Basic) => basic_turn_ok(map, without_ai(objects, id), fov, id),
        Some(Ai::Confused { previous_ai, num_turns }) => num_turns >= 0 ==> can_stumble(
            map,
            without_ai(objects, id),
            id,
        ),
        None => true,
    }
}

/// What the turn of the object at `id` does: the monster acts as its
/// behaviour says, with that behaviour taken out while it acts, and then
/// keeps the behaviour its turn leaves it with; an object without
/// behaviour does nothing.
pub open spec fn took_turn(
    map: Seq<Vec<Tile>>,
    fov: &Fov,
    objects: Seq<Object>,
    id: int,
    objects_after: Seq<Object>,
    log_before: Seq<(Seq<char>, Color)>,
    log_after: Seq<(Seq<char>, Color)>,
) -> bool {
    let taken = without_ai(objects, id);
    match objects[id].ai {
        None => objects_after == objects && log_after == log_before,
        Some(Ai::Basic) => exists|mid: Seq<Object>|
            #[trigger] basic_turn(map, taken, fov, id, mid, log_before, log_after) && objects_after
                == with_ai(mid, id, Ai::Basic),
        Some(Ai::Confused { previous_ai, num_turns }) => exists|mid: Seq<Object>, ai: Ai|
            #[trigger] confused_turn(
                map,
                taken,
                id,
                *previous_ai,
                num_turns as int,
                mid,
                log_before,
                log_after,
                ai,
            ) && objects_after == with_ai(mid, id, ai),
    }
}

/// The monster at `id` takes its turn as its behaviour says, and keeps the
/// behaviour that turn leaves it with; an object without behaviour does
/// nothing.
pub fn ai_take_turn(monster_id: usize, game: &mut Game, objects: &mut Vec<Object>, fov: &Fov)
    requires
        turn_ok(old(game).map@, old(objects)@, fov, monster_id as int),
    ensures
        final(game).map == old(game).map,
        final(game).inventory == old(game).inventory,
        final(objects)@.len() == old(objects)@.len(),
        took_turn(
            old(game).map@,
            fov,
            old(objects)@,
            monster_id as int,
            final(objects)@,
            log_texts(old(game).log@),
            log_texts(final(game).log@),
        ),
        all_on_floor(old(game).map@, old(objects)@)
            ==> all_on_floor(final(game).map@, final(objects)@),
        all_within_max(old(objects)@) ==> all_within_max(final(objects)@),
        all_modest(old(objects)@) ==> all_modest(final(objects)@),
        old(objects)@.len() > 0 && old(objects)@[0].ai is None && monster_id != 0
            ==> final(objects)@[0].ai is None,
{
    let ghost lb = log_texts(game.log@);
    let taken = objects[monster_id].ai.take();
    assert(objects@ == without_ai(old(objects)@, monster_id as int));
    assert(taken == old(objects)@[monster_id as int].ai);
    match taken {
        Some(Ai::Basic) => {
            let new_ai = ai_basic(monster_id, game, objects, fov);
            let ghost mid = objects@;
            objects[monster_id].ai = Some(new_ai);
            assert(objects@ == with_ai(mid, monster_id as int, Ai::Basic));
            assert(basic_turn(
                old(game).map@,
                without_ai(old(objects)@, monster_id as int),
                fov,
                monster_id as int,
                mid,
                lb,
                log_texts(game.log@),
            ));
        },
        Some(Ai::Confused { previous_ai, num_turns }) => {
            let ghost prev = *previous_ai;
            let new_ai = ai_confused(monster_id, game, objects, previous_ai, num_turns);
            let ghost mid = objects@;
            objects[monster_id].ai = Some(new_ai);
            assert(objects@ == with_ai(mid, monster_id as int, new_ai));
            assert(confused_turn(
                old(game).map@,
                without_ai(old(objects)@, monster_id as int),
                monster_id as int,
                prev,
                num_turns as int,
                mid,
                lb,
                log_texts(game.log@),
                new_ai,
            ));
        },
        None => {
            let ghost o = old(objects)@[monster_id as int];
            assert(Object { ai: None, ..o } == o);
            assert(objects@ =~= old(objects)@);
        },
    }
}


/// Whether the player still has hit points.
fn player_standing_now(objects: &Vec<Object>) -> (b: bool)
    requires
        objects@.len() > 0,
    ensures
        b == player_standing(objects@),
{
    match objects[PLAYER].fighter {
        Some(f) => f.hp > 0,
        None => false,
    }
}

/// Taking out a behaviour moves nobody: a step fits the same either way.
pub proof fn lemma_step_fits_without_ai(map: Seq<Vec<Tile>>, objects: Seq<Object>, id: int)
    requires
        0 <= id < objects.len(),
    ensures
        forall|dx: int, dy: int|
            #[trigger] step_fits(map, without_ai(objects, id), id, dx, dy) == step_fits(
                map,
                objects,
                id,
                dx,
                dy,
            ),
{
}

/// Whether the object at `id` can step by (dx, dy).
fn step_ready(map: &TileMap, objects: &Vec<Object>, id: usize, dx: i32, dy: i32) -> (b: bool)
    requires
        id < objects@.len(),
        -1 <= dx <= 1,
        -1 <= dy <= 1,
    ensures
        b == step_fits(map@, objects@, id as int, dx as int, dy as int),
{
    let x = objects[id].x as i64 + dx as i64;
    let y = objects[id].y as i64 + dy as i64;
    if x < i32::MIN as i64 || x > i32::MAX as i64 || y < i32::MIN as i64 || y > i32::MAX as i64 {
        return false;
    }
    on_map_at(map, x, y)
}

/// Whether a basic monster's turn at `id` can be carried out.
fn basic_ready(id: usize, map: &TileMap, objects: &Vec<Object>, fov: &Fov) -> (b: bool)
    requires
        id < objects@.len(),
    ensures
        b == basic_turn_ok(map@, without_ai(objects@, id as int), fov, id as int),
{
    let ghost w = without_ai(objects@, id as int);
    proof {
        lemma_step_fits_without_ai(map@, objects@, id as int);
        assert(w[id as int].x == objects@[id as int].x && w[id as int].y == objects@[id as int].y);
        assert(w[0].x == objects@[0].x && w[0].y == objects@[0].y);
        assert(w[0].fighter == objects@[0].fighter);
        assert(w[id as int].fighter == objects@[id as int].fighter);
    }
    let o = &objects[id];
    let p = &objects[PLAYER];
    if !fov.covers(o.x, o.y) {
        return false;
    }
    if !fov.is_in_fov(o.x, o.y) {
        return true;
    }
    if !near_now(o.x, o.y, p.x, p.y) {
        return false;
    }
    proof {
        lemma_near_bounds(o.x as int, o.y as int, p.x as int, p.y as int);
    }
    let dx = p.x as i64 - o.x as i64;
    let dy = p.y as i64 - o.y as i64;
    let d = o.distance_sq(p.x, p.y);
    if d >= 4 {
        let sx = step_component(dx as i32, dy as i32);
        let sy = step_component(dy as i32, dx as i32);
        step_ready(map, objects, id, sx, sy)
    } else if !player_standing_now(objects) {
        true
    } else if id == PLAYER {
        false
    } else {
        attack_fits(o, p)
    }
}

/// Whether a confused monster at `id` can stumble one cell in any
/// direction.
fn stumble_ready(id: usize, map: &TileMap, objects: &Vec<Object>) -> (b: bool)
    requires
        id < objects@.len(),
    ensures
        b == can_stumble(map@, without_ai(objects@, id as int), id as int),
{
    proof {
        lemma_step_fits_without_ai(map@, objects@, id as int);
    }
    let ghost w = without_ai(objects@, id as int);
    let mut dx: i32 = -1;
    while dx <= 1
        invariant
            -1 <= dx <= 2,
            id < objects@.len(),
            w == without_ai(objects@, id as int),
            forall|i: int, j: int|
                -1 <= i < dx && -1 <= j <= 1 ==> #[trigger] step_fits(map@, w, id as int, i, j),
        decreases 2 - dx,
    {
        let mut dy: i32 = -1;
        while dy <= 1
            invariant
                -1 <= dx <= 1,
                -1 <= dy <= 2,
                id < objects@.len(),
                w == without_ai(objects@, id as int),
                forall|i: int, j: int|
                    (-1 <= i < dx && -1 <= j <= 1) || (i == dx && -1 <= j < dy) ==> #[trigger] step_fits(
                        map@,
                        w,
                        id as int,
                        i,
                        j,
                    ),
            decreases 2 - dy,
        {
            let fits = step_ready(map, objects, id, dx, dy);
            proof {
                lemma_step_fits_without_ai(map@, objects@, id as int);
                assert(step_fits(map@, w, id as int, dx as int, dy as int) == fits);
            }
            if !fits {
                return false;
            }
            dy = dy + 1;
        }
        dx = dx + 1;
    }
    true
}

/// Whether the turn of the object at `id` can be carried out: exactly when
/// `turn_ok` holds.
pub fn turn_ready(id: usize, map: &TileMap, objects: &Vec<Object>, fov: &Fov) -> (b: bool)
    ensures
        b == turn_ok(map@, objects@, fov, id as int),
{
    if id >= objects.len() {
        return false;
    }
    match &objects[id].ai {
        None => true,
        Some(Ai::Basic) => basic_ready(id, map, objects, fov),
        Some(Ai::Confused { previous_ai: _, num_turns }) => {
            if *num_turns < 0 {
                true
            } else {
                stumble_ready(id, map, objects)
            }
        },
    }
}

/// A step toward anything is at most one cell each way.
pub proof fn lemma_step_toward_unit(d: int, other: int)
    ensures
        -1 <= step_toward(d, other) <= 1,
{
}

/// In a world in the game's shape every object can take its turn.
pub proof fn lemma_world_turn_ok(map: Seq<Vec<Tile>>, objects: Seq<Object>, fov: &Fov, id: int)
    requires
        world_ok(map, objects),
        fov_shape(fov, MAP_WIDTH as int, MAP_HEIGHT as int),
        0 <= id < objects.len(),
    ensures
        turn_ok(map, objects, fov, id),
{
    let w = without_ai(objects, id);
    let o = objects[id];
    let p = objects[0];
    assert(open_cell(map, o.x as int, o.y as int));
    assert(open_cell(map, p.x as int, p.y as int));
    assert(map[o.x as int]@.len() == MAP_HEIGHT);
    assert(modest(o));
    assert(modest(p));
    let ddx = p.x - o.x;
    let ddy = p.y - o.y;
    assert(ddx * ddx + ddy * ddy <= 90 * 90 + 90 * 90) by (nonlinear_arith)
        requires
            -90 <= ddx <= 90,
            -90 <= ddy <= 90,
    ;
    assert(near_enough(o.x as int, o.y as int, p.x as int, p.y as int));
    assert forall|dx: int, dy: int| -1 <= dx <= 1 && -1 <= dy <= 1 implies #[trigger] step_fits(
        map,
        w,
        id,
        dx,
        dy,
    ) by {
        assert(map[o.x + dx]@.len() == MAP_HEIGHT);
    }
    match o.ai {
        Some(Ai::Basic) => {
            let st = chase_step(w, id);
            lemma_step_toward_unit(p.x - o.x, p.y - o.y);
            lemma_step_toward_unit(p.y - o.y, p.x - o.x);
            assert(step_fits(map, w, id, st.0, st.1));
            assert(fov.visible@[o.x as int]@.len() == MAP_HEIGHT);
        },
        _ => {},
    }
}

/// The turns of the objects before `n`, one after another: `states[i]` and
/// `logs[i]` are the objects and the log before the turn of object `i`.
pub open spec fn turn_chain(
    map: Seq<Vec<Tile>>,
    fov: &Fov,
    states: Seq<Seq<Object>>,
    logs: Seq<Seq<(Seq<char>, Color)>>,
    n: int,
) -> bool {
    &&& states.len() == n + 1
    &&& logs.len() == n + 1
    &&& forall|i: int|
        0 <= i < n ==> #[trigger] took_turn(map, fov, states[i], i, states[i + 1], logs[i], logs[i + 1])
}

/// Whether the objects and log went from (`o0`, `l0`) to (`o1`, `l1`) by the
/// turns of the objects before `n`, in order.
pub open spec fn turns_taken(
    map: Seq<Vec<Tile>>,
    fov: &Fov,
    o0: Seq<Object>,
    l0: Seq<(Seq<char>, Color)>,
    n: int,
    o1: Seq<Object>,
    l1: Seq<(Seq<char>, Color)>,
) -> bool {
    exists|states: Seq<Seq<Object>>, logs: Seq<Seq<(Seq<char>, Color)>>|
        #[trigger] turn_chain(map, fov, states, logs, n) && states[0] == o0 && logs[0] == l0
            && states[n] == o1 && logs[n] == l1
}

/// Every object with a behaviour takes its turn, in the order of the
/// objects. Where a turn cannot be carried out the round stops before it
/// and its index is returned.
pub fn monsters_take_turns(game: &mut Game, objects: &mut Vec<Object>, fov: &Fov) -> (stopped: Option<usize>)
    ensures
        final(game).map == old(game).map,
        final(game).inventory == old(game).inventory,
        final(objects)@.len() == old(objects)@.len(),
        match stopped {
            None => turns_taken(
                old(game).map@,
                fov,
                old(objects)@,
                log_texts(old(game).log@),
                old(objects)@.len() as int,
                final(objects)@,
                log_texts(final(game).log@),
            ),
            Some(k) => {
                &&& k < old(objects)@.len()
                &&& turns_taken(
                    old(game).map@,
                    fov,
                    old(objects)@,
                    log_texts(old(game).log@),
                    k as int,
                    final(objects)@,
                    log_texts(final(game).log@),
                )
                &&& !turn_ok(old(game).map@, final(objects)@, fov, k as int)
            },
        },
        all_on_floor(old(game).map@, old(objects)@)
            ==> all_on_floor(final(game).map@, final(objects)@),
        all_within_max(old(objects)@) ==> all_within_max(final(objects)@),
        world_ok(old(game).map@, old(objects)@) && fov_shape(fov, MAP_WIDTH as int, MAP_HEIGHT as int)
            ==> stopped is None && world_ok(final(game).map@, final(objects)@),
{
    let ghost map0 = game.map@;
    let ghost mut states: Seq<Seq<Object>> = seq![objects@];
    let ghost mut logs: Seq<Seq<(Seq<char>, Color)>> = seq![log_texts(game.log@)];
    let mut id: usize = 0;
    while id < objects.len()
        invariant
            id <= objects@.len(),
            objects@.len() == old(objects)@.len(),
            game.map == old(game).map,
            game.inventory == old(game).inventory,
            map0 == game.map@,
            turn_chain(map0, fov, states, logs, id as int),
            states[0] == old(objects)@,
            logs[0] == log_texts(old(game).log@),
            states[id as int] == objects@,
            logs[id as int] == log_texts(game.log@),
            all_on_floor(map0, old(objects)@) ==> all_on_floor(map0, objects@),
            all_within_max(old(objects)@) ==> all_within_max(objects@),
            world_ok(map0, old(objects)@) && fov_shape(fov, MAP_WIDTH as int, MAP_HEIGHT as int)
                ==> world_ok(map0, objects@),
        decreases objects@.len() - id,
    {
        if objects[id].ai.is_some() {
            proof {
                if world_ok(map0, objects@) && fov_shape(fov, MAP_WIDTH as int, MAP_HEIGHT as int) {
                    lemma_world_turn_ok(map0, objects@, fov, id as int);
                }
            }
            if !turn_ready(id, &game.map, objects, fov) {
                assert(turn_chain(map0, fov, states, logs, id as int));
                return Some(id);
            }
            ai_take_turn(id, game, objects, fov);
        } else {
            assert(took_turn(map0, fov, objects@, id as int, objects@, log_texts(game.log@), log_texts(game.log@)));
        }
        proof {
            let ghost prev_states = states;
            let ghost prev_logs = logs;
            states = states.push(objects@);
            logs = logs.push(log_texts(game.log@));
            assert forall|i: int| 0 <= i < id + 1 implies #[trigger] took_turn(
                map0,
                fov,
                states[i],
                i,
                states[i + 1],
                logs[i],
                logs[i + 1],
            ) by {
                if i < id {
                    assert(took_turn(map0, fov, prev_states[i], i, prev_states[i + 1], prev_logs[i], prev_logs[i + 1]));
                }
            }
        }
        id = id + 1;
    }
    assert(turn_chain(map0, fov, states, logs, id as int));
    None
}


/// A basic monster attacks only from next to the player: unless it is in
/// sight with a squared distance to the player below 4, its turn leaves the
/// player and the log as they were and changes no object but itself.
pub proof fn lemma_basic_turn_attacks_only_near(
    map: Seq<Vec<Tile>>,
    objects: Seq<Object>,
    fov: &Fov,
    id: int,
    objects_after: Seq<Object>,
    log_before: Seq<(Seq<char>, Color)>,
    log_after: Seq<(Seq<char>, Color)>,
)
    requires
        0 < id < objects.len(),
        basic_turn(map, objects, fov, id, objects_after, log_before, log_after),
        !(sees(fov, objects[id].x as int, objects[id].y as int) && (objects[0].x - objects[id].x) * (
        objects[0].x - objects[id].x) + (objects[0].y - objects[id].y) * (objects[0].y
            - objects[id].y) < 4),
    ensures
        log_after == log_before,
        objects_after.len() == objects.len(),
        forall|j: int| 0 <= j < objects.len() && j != id ==> #[trigger] objects_after[j] == objects[j],
{
}

/// Next to the player and in sight, a basic monster whose target still has
/// hit points attacks without moving: it stays where it is and the log
/// gains the attack's message.
pub proof fn lemma_basic_turn_attacks_when_near(
    map: Seq<Vec<Tile>>,
    objects: Seq<Object>,
    fov: &Fov,
    id: int,
    objects_after: Seq<Object>,
    log_before: Seq<(Seq<char>, Color)>,
    log_after: Seq<(Seq<char>, Color)>,
)
    requires
        0 < id < objects.len(),
        basic_turn(map, objects, fov, id, objects_after, log_before, log_after),
        sees(fov, objects[id].x as int, objects[id].y as int),
        (objects[0].x - objects[id].x) * (objects[0].x - objects[id].x) + (objects[0].y
            - objects[id].y) * (objects[0].y - objects[id].y) < 4,
        objects[0].fighter matches Some(f) && f.hp > 0,
    ensures
        objects_after[id] == objects[id],
        log_after.len() > log_before.len(),
        log_after.take(log_before.len() as int) == log_before,
{
    let damage = attack_damage(objects[id], objects[0]);
    if damage > 0 {
        let lb1 = log_before.push(
            (
                objects[id].name@ + " attacks "@ + objects[0].name@ + " for "@ + decimal(
                    damage as nat,
                ) + " hit points."@,
                Color::White,
            ),
        );
        assert(log_after == damage_texts(objects[0], damage as i32, lb1));
        assert(lb1.take(log_before.len() as int) =~= log_before);
        assert(log_after.take(log_before.len() as int) =~= log_before);
    } else {
        assert(log_after.take(log_before.len() as int) =~= log_before);
    }
}

} // verus!

