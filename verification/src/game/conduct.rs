//! What can be counted on in every tick of play, and over many of them.
//!
//! Each law speaks of the state before and after and of nothing in between.

use vstd::prelude::*;

use crate::game::entities;
use crate::game::entities::{Bomb, Enemy, EnemyKind, ExplosionView, Player};
use crate::game::geometry;
use crate::game::laws;
use crate::game::map::MapView;
use crate::game::rules;
use crate::game::rules::{GameView, Luck, Scene};
use crate::game::ticks;
use crate::types::{Action, Coord, Direction, ItemKind, Nanos, Screen};

verus! {

// ---------------------------------------------------------------------------
// The enemies' pace

/// While the enemies wait, a tick takes its time off the wait and they stay where
/// they are. Once the wait is over they get a turn, and the next is 0.45 seconds
/// off.
pub proof fn lemma_enemies_wait(before: Scene, dt: Nanos, actions: Seq<Action>, after: Scene)
    requires
        ticks::in_play(before, dt, actions, after),
    ensures
        before.game.enemy_move_cooldown > 0 ==> after.game.enemy_move_cooldown
            == before.game.enemy_move_cooldown - dt,
        before.game.enemy_move_cooldown <= 0 ==> after.game.enemy_move_cooldown == 450_000_000,
        after.game.enemies.len() == before.game.enemies.len(),
        before.game.enemy_move_cooldown > 0 ==> forall|k: int|
            0 <= k < before.game.enemies.len() ==> (#[trigger] after.game.enemies[k]).pos
                == before.game.enemies[k].pos,
{
    let (luck, fresh) = ticks::lemma_story(before, dt, actions, after);
    let blown = ticks::after_blasts(before, dt, actions, luck).game;
    let turned = ticks::after_turn(before, dt, actions, luck).game;
    assert forall|k: int|
        before.game.enemy_move_cooldown > 0 && 0 <= k < before.game.enemies.len() implies (
    #[trigger] after.game.enemies[k]).pos == before.game.enemies[k].pos by {
        assert(turned.enemies[k].pos == blown.enemies[k].pos);
        assert(blown.enemies[k].pos == before.game.enemies[k].pos);
    }
}

/// On their turn, live enemies that come out of the tick alive go one cell on in
/// some direction, unless that cell is not to be walked on or holds a bomb.
pub proof fn lemma_enemies_prowl(
    before: Scene,
    dt: Nanos,
    actions: Seq<Action>,
    after: Scene,
    k: int,
)
    requires
        ticks::in_play(before, dt, actions, after),
        before.game.enemy_move_cooldown <= 0,
        before.game.players.len() > 0,
        0 <= k < before.game.enemies.len(),
        after.game.enemies[k].alive,
    ensures
        before.game.enemies[k].alive,
        exists|dir: Direction|
            ticks::prowled(
                before.game.enemies[k],
                after.game.enemies[k],
                dir,
                after.game.map,
                after.game.bombs,
            ),
{
    let (luck, fresh) = ticks::lemma_story(before, dt, actions, after);
    let blown = ticks::after_blasts(before, dt, actions, luck).game;
    let turned = ticks::after_turn(before, dt, actions, luck).game;
    let met = laws::after_hazards(before, dt, actions, luck).game;
    assert(met.enemies[k].alive);
    assert(turned.enemies[k].alive && turned.enemies[k] == met.enemies[k]);
    assert(ticks::prowled(
        blown.enemies[k],
        turned.enemies[k],
        luck.turns[k],
        blown.map,
        blown.bombs,
    ));
    assert(blown.enemies[k] == before.game.enemies[k]);
    assert(ticks::prowled(
        before.game.enemies[k],
        after.game.enemies[k],
        luck.turns[k],
        after.game.map,
        after.game.bombs,
    ));
}

/// How far apart two cells are, counted in moves.
pub open spec fn moves_apart(a: Coord, b: Coord) -> int {
    (if a.0 < b.0 {
        b.0 - a.0
    } else {
        a.0 - b.0
    }) + (if a.1 < b.1 {
        b.1 - a.1
    } else {
        a.1 - b.1
    })
}

/// Whether nobody is closer to a cell than that player.
pub open spec fn closest_to(players: Seq<Player>, j: int, pos: Coord) -> bool {
    &&& 0 <= j < players.len()
    &&& forall|i: int|
        0 <= i < players.len() ==> moves_apart(players[j].pos, pos) <= moves_apart(
            (#[trigger] players[i]).pos,
            pos,
        )
}

/// Whether `dir` leads to a cell to be walked on from which it is no farther to
/// `goal` than from any other neighbour to be walked on.
pub open spec fn approaches(map: MapView, from: Coord, dir: Direction, goal: Coord) -> bool {
    forall|other: Direction, to: Coord| #[trigger]
        ticks::next_cell(from, other, to) && ticks::on_foot(map, to) ==> exists|cell: Coord| #[trigger]
            ticks::next_cell(from, dir, cell) && ticks::on_foot(map, cell) && moves_apart(
                cell,
                goal,
            ) <= moves_apart(to, goal)
}

/// Whether `dir` leads to a cell to be walked on from which it is no closer to
/// `goal` than from any other neighbour to be walked on.
pub open spec fn retreats(map: MapView, from: Coord, dir: Direction, goal: Coord) -> bool {
    forall|other: Direction, to: Coord| #[trigger]
        ticks::next_cell(from, other, to) && ticks::on_foot(map, to) ==> exists|cell: Coord| #[trigger]
            ticks::next_cell(from, dir, cell) && ticks::on_foot(map, cell) && moves_apart(
                cell,
                goal,
            ) >= moves_apart(to, goal)
}

/// Whether `dir` leads to a cell to be walked on, if any neighbour is one.
pub open spec fn wanders(map: MapView, from: Coord, dir: Direction) -> bool {
    forall|other: Direction, to: Coord| #[trigger]
        ticks::next_cell(from, other, to) && ticks::on_foot(map, to) ==> exists|cell: Coord| #[trigger]
            ticks::next_cell(from, dir, cell) && ticks::on_foot(map, cell)
}

/// A direction is open if and only if its next cell is to be walked on.
proof fn lemma_open_direction(map: MapView, from: Coord, dir: Direction)
    requires
        geometry::has_neighbours(from),
    ensures
        entities::open_directions(map, from).contains(dir) <==> ticks::on_foot(
            map,
            geometry::stepped(from, dir),
        ),
        forall|to: Coord| #[trigger]
            ticks::next_cell(from, dir, to) <==> to == geometry::stepped(from, dir),
{
    let free = |d: Direction| map.walkable(geometry::stepped(from, d));
    let all = entities::directions();
    let open = entities::open_directions(map, from);
    assert(all[0] == Direction::Up && all[1] == Direction::Down && all[2] == Direction::Left
        && all[3] == Direction::Right);
    let at: int = match dir {
        Direction::Up => 0,
        Direction::Down => 1,
        Direction::Left => 2,
        Direction::Right => 3,
    };
    assert(all[at] == dir);
    if free(dir) {
        all.lemma_filter_contains(free, at);
    }
    if open.contains(dir) {
        let k = choose|k: int| 0 <= k < open.len() && open[k] == dir;
        all.lemma_filter_pred(free, k);
    }
}

/// What a direction that an enemy may choose has to offer.
pub proof fn lemma_choices(
    kind: EnemyKind,
    map: MapView,
    from: Coord,
    goal: Coord,
    dir: Direction,
)
    requires
        geometry::has_neighbours(from),
        entities::may_choose(kind, entities::open_directions(map, from), from, goal, dir),
    ensures
        kind is Chaser ==> approaches(map, from, dir, goal),
        kind is Avoider ==> retreats(map, from, dir, goal),
        wanders(map, from, dir),
{
    let open = entities::open_directions(map, from);
    let there = geometry::stepped(from, dir);
    lemma_open_direction(map, from, dir);
    assert forall|other: Direction, to: Coord| #[trigger]
        ticks::next_cell(from, other, to) && ticks::on_foot(map, to) implies ticks::next_cell(
        from,
        dir,
        there,
    ) && ticks::on_foot(map, there) && (kind is Chaser ==> moves_apart(there, goal)
        <= moves_apart(to, goal)) && (kind is Avoider ==> moves_apart(there, goal) >= moves_apart(
        to,
        goal,
    )) by {
        lemma_open_direction(map, from, other);
        assert(open.contains(other));
        let o = choose|o: int| 0 <= o < open.len() && open[o] == other;
        let keys = geometry::distances_after(open, from, goal);
        assert(keys[o] == moves_apart(to, goal));
        match kind {
            EnemyKind::Wander => {},
            EnemyKind::Chaser => {
                let i = choose|i: int| geometry::first_least(keys, i) && dir == open[i];
                assert(keys[i] == moves_apart(there, goal));
                assert(open.contains(dir));
            },
            EnemyKind::Avoider => {
                let i = choose|i: int| geometry::last_greatest(keys, i) && dir == open[i];
                assert(keys[i] == moves_apart(there, goal));
                assert(open.contains(dir));
            },
        }
    }
    if exists|other: Direction, to: Coord| #[trigger]
        ticks::next_cell(from, other, to) && ticks::on_foot(map, to) {
        assert(ticks::next_cell(from, dir, there));
    }
}

/// Where a direction comes when enemies look around: up, down, left, right.
pub open spec fn turn_of(dir: Direction) -> int {
    match dir {
        Direction::Up => 0,
        Direction::Down => 1,
        Direction::Left => 2,
        Direction::Right => 3,
    }
}

/// What is left of directions in order is in order.
proof fn lemma_filter_ranked(all: Seq<Direction>, p: spec_fn(Direction) -> bool, a: int, b: int)
    requires
        forall|i: int, j: int|
            0 <= i < j < all.len() ==> turn_of(#[trigger] all[i]) < turn_of(#[trigger] all[j]),
        0 <= a < b < all.filter(p).len(),
    ensures
        turn_of(all.filter(p)[a]) < turn_of(all.filter(p)[b]),
        all.contains(all.filter(p)[a]),
    decreases all.len(),
{
    reveal(Seq::filter);
    all.lemma_filter_contains_rev(p, all.filter(p)[a]);
    if all.len() > 0 {
        let shorter = all.drop_last();
        let rest = shorter.filter(p);
        assert forall|i: int, j: int| 0 <= i < j < shorter.len() implies turn_of(
            #[trigger] shorter[i],
        ) < turn_of(#[trigger] shorter[j]) by {
            assert(shorter[i] == all[i] && shorter[j] == all[j]);
        }
        if b < rest.len() {
            lemma_filter_ranked(shorter, p, a, b);
        } else {
            shorter.lemma_filter_contains_rev(p, rest[a]);
            let i = choose|i: int| 0 <= i < shorter.len() && shorter[i] == rest[a];
            assert(all[i] == rest[a]);
            assert(turn_of(all[i]) < turn_of(all[all.len() - 1]));
        }
    }
}

/// Of several directions that are equally good, a chaser takes the first and an
/// avoider the last, in the order up, down, left, right.
pub proof fn lemma_ties(
    kind: EnemyKind,
    map: MapView,
    from: Coord,
    goal: Coord,
    dir: Direction,
    other: Direction,
    to: Coord,
    cell: Coord,
)
    requires
        geometry::has_neighbours(from),
        entities::may_choose(kind, entities::open_directions(map, from), from, goal, dir),
        ticks::next_cell(from, dir, cell),
        ticks::next_cell(from, other, to),
        ticks::on_foot(map, to),
        moves_apart(cell, goal) == moves_apart(to, goal),
    ensures
        kind is Chaser ==> turn_of(dir) <= turn_of(other),
        kind is Avoider ==> turn_of(dir) >= turn_of(other),
{
    let all = entities::directions();
    let free = |d: Direction| map.walkable(geometry::stepped(from, d));
    let open = entities::open_directions(map, from);
    lemma_open_direction(map, from, dir);
    lemma_open_direction(map, from, other);
    let o = choose|o: int| 0 <= o < open.len() && open[o] == other;
    let keys = geometry::distances_after(open, from, goal);
    assert(keys[o] == moves_apart(to, goal));
    match kind {
        EnemyKind::Wander => {},
        EnemyKind::Chaser => {
            let i = choose|i: int| geometry::first_least(keys, i) && dir == open[i];
            assert(keys[i] == moves_apart(cell, goal));
            if i < o {
                lemma_filter_ranked(all, free, i, o);
            }
        },
        EnemyKind::Avoider => {
            let i = choose|i: int| geometry::last_greatest(keys, i) && dir == open[i];
            assert(keys[i] == moves_apart(cell, goal));
            if o < i {
                lemma_filter_ranked(all, free, o, i);
            }
        },
    }
}

/// Of several players who are equally close, all of them alive, enemies go by the
/// first.
pub proof fn lemma_the_first_of_the_closest(players: Seq<Player>, from: Coord)
    requires
        players.len() > 0,
        forall|i: int| 0 <= i < players.len() ==> (#[trigger] players[i]).alive,
    ensures
        exists|j: int|
            #![trigger players[j]]
            0 <= j < players.len() && rules::nearest_target(players, from) == Some(players[j].pos)
                && forall|i: int|
                0 <= i < j ==> moves_apart(players[j].pos, from) < moves_apart(
                    (#[trigger] players[i]).pos,
                    from,
                ),
        rules::nearest_target(Seq::<Player>::empty(), from) is None,
{
    let living = |player: Player| player.alive;
    assert(players.filter(living) =~= players) by {
        lemma_filter_all(players, living);
    }
    let keys = rules::player_distances(players, from);
    lemma_some_first_least(keys, keys.len());
    assert(keys.take(keys.len() as int) =~= keys);
    let j = choose|i: int| geometry::first_least(keys, i);
    assert(geometry::first_least(keys, j));
    assert forall|i: int| 0 <= i < j implies moves_apart(players[j].pos, from) < moves_apart(
        (#[trigger] players[i]).pos,
        from,
    ) by {
        assert(keys[j] < keys[i]);
    }
    assert(rules::nearest_target(players, from) == Some(players[j].pos));
    let none = Seq::<Player>::empty();
    lemma_filter_all(none, living);
}

/// The player that an enemy goes by is one of those alive, if any is, and nobody
/// alive is closer.
pub proof fn lemma_nearest_target(players: Seq<Player>, from: Coord)
    requires
        players.len() > 0,
        forall|i: int| 0 <= i < players.len() ==> (#[trigger] players[i]).alive,
    ensures
        exists|j: int|
            #![trigger players[j]]
            closest_to(players, j, from) && rules::nearest_target(players, from) == Some(
                players[j].pos,
            ),
{
    let living = |player: Player| player.alive;
    assert(players.filter(living) =~= players) by {
        lemma_filter_all(players, living);
    }
    let keys = rules::player_distances(players, from);
    lemma_some_first_least(keys, keys.len());
    assert(keys.take(keys.len() as int) =~= keys);
    let j = choose|i: int| geometry::first_least(keys, i);
    assert(geometry::first_least(keys, j));
    assert forall|i: int| 0 <= i < players.len() implies moves_apart(players[j].pos, from)
        <= moves_apart((#[trigger] players[i]).pos, from) by {
        assert(keys[j] <= keys[i]);
    }
    assert(closest_to(players, j, from));
}

/// Enemies go by the living: as long as anybody is alive, the player that an enemy
/// goes by is alive, and nobody alive is closer.
pub proof fn lemma_the_living_are_hunted(players: Seq<Player>, from: Coord, witness: int)
    requires
        0 <= witness < players.len(),
        players[witness].alive,
    ensures
        exists|j: int|
            0 <= j < players.len() && (#[trigger] players[j]).alive && rules::nearest_target(
                players,
                from,
            ) == Some(players[j].pos) && forall|i: int|
                0 <= i < players.len() && (#[trigger] players[i]).alive ==> moves_apart(
                    players[j].pos,
                    from,
                ) <= moves_apart(players[i].pos, from),
{
    let is_alive = |player: Player| player.alive;
    let living = players.filter(is_alive);
    players.lemma_filter_contains(is_alive, witness);
    let keys = rules::player_distances(living, from);
    lemma_some_first_least(keys, keys.len());
    assert(keys.take(keys.len() as int) =~= keys);
    let f = choose|i: int| geometry::first_least(keys, i);
    assert(geometry::first_least(keys, f));
    let target = living[f];
    players.lemma_filter_contains_rev(is_alive, target);
    players.lemma_filter_pred(is_alive, f);
    let j = choose|j: int| 0 <= j < players.len() && players[j] == target;
    assert forall|i: int| 0 <= i < players.len() && (#[trigger] players[i]).alive implies moves_apart(
        players[j].pos,
        from,
    ) <= moves_apart(players[i].pos, from) by {
        players.lemma_filter_contains(is_alive, i);
        let k = choose|k: int| 0 <= k < living.len() && living[k] == players[i];
        assert(keys[f] <= keys[k]);
    }
    assert(players[j].alive);
}

/// When nobody is alive any more enemies go by the dead: the closest of them.
pub proof fn lemma_the_dead_are_hunted_last(players: Seq<Player>, from: Coord)
    requires
        players.len() > 0,
        forall|i: int| 0 <= i < players.len() ==> !(#[trigger] players[i]).alive,
    ensures
        exists|j: int|
            #![trigger players[j]]
            closest_to(players, j, from) && rules::nearest_target(players, from) == Some(
                players[j].pos,
            ),
{
    let is_alive = |player: Player| player.alive;
    let living = players.filter(is_alive);
    if living.len() > 0 {
        players.lemma_filter_pred(is_alive, 0);
        players.lemma_filter_contains_rev(is_alive, living[0]);
        let i = choose|i: int| 0 <= i < players.len() && players[i] == living[0];
        assert(!players[i].alive);
    }
    let keys = rules::player_distances(players, from);
    lemma_some_first_least(keys, keys.len());
    assert(keys.take(keys.len() as int) =~= keys);
    let j = choose|i: int| geometry::first_least(keys, i);
    assert(geometry::first_least(keys, j));
    assert forall|i: int| 0 <= i < players.len() implies moves_apart(players[j].pos, from)
        <= moves_apart((#[trigger] players[i]).pos, from) by {
        assert(keys[j] <= keys[i]);
    }
    assert(closest_to(players, j, from));
}

/// Among some keys one is the first least.
proof fn lemma_some_first_least(keys: Seq<int>, upto: nat)
    requires
        0 < upto <= keys.len(),
    ensures
        exists|i: int| geometry::first_least(keys.take(upto as int), i),
    decreases upto,
{
    let part = keys.take(upto as int);
    if upto == 1 {
        assert(geometry::first_least(part, 0));
    } else {
        lemma_some_first_least(keys, (upto - 1) as nat);
        let shorter = keys.take(upto - 1);
        let i = choose|i: int| geometry::first_least(shorter, i);
        assert forall|k: int| 0 <= k < upto - 1 implies part[k] == shorter[k] by {}
        if part[upto - 1] < part[i] {
            assert(geometry::first_least(part, upto - 1)) by {
                assert forall|k: int| 0 <= k < upto - 1 implies part[upto - 1] < #[trigger] part[k] by {
                    assert(shorter[i] <= shorter[k]);
                }
            }
        } else {
            assert(geometry::first_least(part, i)) by {
                assert forall|k: int| 0 <= k < upto implies part[i] <= #[trigger] part[k] by {
                    if k < upto - 1 {
                        assert(shorter[i] <= shorter[k]);
                    }
                }
                assert forall|k: int| 0 <= k < i implies part[i] < #[trigger] part[k] by {
                    assert(shorter[i] < shorter[k]);
                }
            }
        }
    }
}

/// Nothing is left out where everything fits.
proof fn lemma_filter_all<T>(s: Seq<T>, p: spec_fn(T) -> bool)
    requires
        forall|i: int| 0 <= i < s.len() ==> p(#[trigger] s[i]),
    ensures
        s.filter(p) == s,
    decreases s.len(),
{
    reveal(Seq::filter);
    if s.len() > 0 {
        assert forall|i: int| 0 <= i < s.len() - 1 implies p(#[trigger] s.drop_last()[i]) by {
            assert(s[i] == s.drop_last()[i]);
        }
        lemma_filter_all(s.drop_last(), p);
        assert(p(s[s.len() - 1]));
        assert(s.drop_last().push(s.last()) =~= s);
    } else {
        assert(s.filter(p) =~= s);
    }
}

/// Whether nobody among the players has been hurt or brought back in a tick.
pub open spec fn nobody_hurt(before: Seq<Player>, after: Seq<Player>) -> bool {
    forall|i: int|
        0 <= i < before.len() ==> before[i].alive && (#[trigger] after[i]).alive && after[i].lives
            == before[i].lives
}

/// On its turn a chaser heads for the closest player and an avoider away from the
/// closest player, in a tick in which nobody is hurt; any other enemy goes where it
/// can.
pub proof fn lemma_enemies_have_a_mind(
    before: Scene,
    dt: Nanos,
    actions: Seq<Action>,
    after: Scene,
    k: int,
)
    requires
        ticks::in_play(before, dt, actions, after),
        before.game.enemy_move_cooldown <= 0,
        before.game.players.len() > 0,
        nobody_hurt(before.game.players, after.game.players),
        0 <= k < before.game.enemies.len(),
        after.game.enemies[k].alive,
    ensures
        ({
            let enemy = before.game.enemies[k];
            exists|dir: Direction, j: int|
                ticks::prowled(
                    enemy,
                    after.game.enemies[k],
                    dir,
                    after.game.map,
                    after.game.bombs,
                ) && #[trigger] wanders(after.game.map, enemy.pos, dir) && #[trigger] closest_to(
                    after.game.players,
                    j,
                    enemy.pos,
                ) && (enemy.kind is Chaser ==> approaches(
                    after.game.map,
                    enemy.pos,
                    dir,
                    after.game.players[j].pos,
                )) && (enemy.kind is Avoider ==> retreats(
                    after.game.map,
                    enemy.pos,
                    dir,
                    after.game.players[j].pos,
                ))
        }),
{
    let (luck, fresh) = ticks::lemma_story(before, dt, actions, after);
    let n = before.game.players.len();
    let moved = laws::after_input(before, dt, actions).game;
    let blown = ticks::after_blasts(before, dt, actions, luck).game;
    let turned = ticks::after_turn(before, dt, actions, luck).game;
    let met = laws::after_hazards(before, dt, actions, luck).game;
    assert forall|i: int| 0 <= i < n implies (#[trigger] blown.players[i]).alive
        && blown.players[i].pos == after.game.players[i].pos by {
        assert(after.game.players[i].alive);
        lemma_unhurt(before, dt, actions, luck, fresh, after, i);
    }
    assert(met.enemies[k].alive);
    assert(turned.enemies[k].alive && turned.enemies[k] == met.enemies[k]);
    let enemy = before.game.enemies[k];
    assert(blown.enemies[k] == enemy);
    let dir = luck.turns[k];
    assert(ticks::prowled(blown.enemies[k], turned.enemies[k], dir, blown.map, blown.bombs));
    assert(rules::before_enemies(before, dt, actions, luck.drops).game == blown);
    assert(rules::fair_turn(blown, blown.enemies[k], dir));
    assert(geometry::in_range(enemy.pos));
    lemma_nearest_target(blown.players, enemy.pos);
    let j = choose|j: int|
        #![trigger blown.players[j]]
        closest_to(blown.players, j, enemy.pos) && rules::nearest_target(blown.players, enemy.pos)
            == Some(blown.players[j].pos);
    lemma_choices(enemy.kind, blown.map, enemy.pos, blown.players[j].pos, dir);
    assert(blown.players[j].pos == after.game.players[j].pos);
    assert(closest_to(after.game.players, j, enemy.pos)) by {
        assert forall|i: int| 0 <= i < n implies moves_apart(after.game.players[j].pos, enemy.pos)
            <= moves_apart((#[trigger] after.game.players[i]).pos, enemy.pos) by {
            assert(blown.players[i].pos == after.game.players[i].pos);
        }
    }
    assert(wanders(after.game.map, enemy.pos, dir));
}

/// Who is alive before and after a tick with the same lives has been alive all
/// along, and is where the player's own input led.
proof fn lemma_unhurt(
    before: Scene,
    dt: Nanos,
    actions: Seq<Action>,
    luck: Luck,
    fresh: Seq<ExplosionView>,
    after: Scene,
    i: int,
)
    requires
        ticks::in_play(before, dt, actions, after),
        ticks::storied(before, dt, actions, luck, fresh, after),
        0 <= i < before.game.players.len(),
        before.game.players[i].alive,
        after.game.players[i].alive,
        after.game.players[i].lives == before.game.players[i].lives,
    ensures
        ({
            let moved = laws::after_input(before, dt, actions).game.players[i];
            let blown = ticks::after_blasts(before, dt, actions, luck).game.players[i];
            &&& moved.alive
            &&& blown.alive
            &&& blown == (Player { score: blown.score, ..moved })
            &&& after.game.players[i] == (Player { score: after.game.players[i].score, ..moved })
        }),
{
    let moved = laws::after_input(before, dt, actions).game;
    let burnt = ticks::after_fuses(before, dt, actions).game;
    let blown = ticks::after_blasts(before, dt, actions, luck).game;
    let turned = ticks::after_turn(before, dt, actions, luck).game;
    let met = laws::after_hazards(before, dt, actions, luck).game;
    let p = moved.players[i];
    assert(ticks::steered(
        before.game.players[i],
        p,
        dt,
        ticks::asked(actions, i),
        before.game.map,
        before.game.bombs,
    ));
    assert(ticks::blasted(burnt.players[i], blown.players[i], fresh));
    assert(turned.players[i] == blown.players[i]);
    assert(ticks::encountered(
        turned.players[i],
        met.players[i],
        i,
        turned.players,
        turned.enemies,
    ));
    if ticks::is_match(met) {
        assert(after.game.players[i] == met.players[i]);
    } else {
        assert(ticks::back_again(
            met.players[i],
            after.game.players[i],
            i,
            met.spawn_points,
        ));
        assert(met.players[i].alive);
    }
}

// ---------------------------------------------------------------------------
// Many ticks

/// A game under way: each scene follows from the one before by a tick of play.
pub open spec fn under_way(
    scenes: Seq<Scene>,
    times: Seq<Nanos>,
    inputs: Seq<Seq<Action>>,
) -> bool {
    &&& scenes.len() == times.len() + 1
    &&& inputs.len() == times.len()
    &&& forall|i: int|
        0 <= i < times.len() ==> ticks::in_play(
            scenes[i],
            #[trigger] times[i],
            inputs[i],
            scenes[i + 1],
        )
}

/// How long some ticks take together.
pub open spec fn total(times: Seq<Nanos>) -> int
    decreases times.len(),
{
    if times.len() == 0 {
        0
    } else {
        total(times.drop_last()) + times.last()
    }
}

/// The enemies' wait runs down with the time that passes, until their next turn.
pub proof fn lemma_wait_runs_down(
    scenes: Seq<Scene>,
    times: Seq<Nanos>,
    inputs: Seq<Seq<Action>>,
    k: int,
)
    requires
        under_way(scenes, times, inputs),
        0 <= k <= times.len(),
        forall|i: int| 0 <= i < k ==> (#[trigger] scenes[i]).game.enemy_move_cooldown > 0,
    ensures
        scenes[k].game.enemy_move_cooldown == scenes[0].game.enemy_move_cooldown - total(
            times.take(k),
        ),
    decreases k,
{
    if k > 0 {
        lemma_wait_runs_down(scenes, times, inputs, k - 1);
        assert(ticks::in_play(scenes[k - 1], times[k - 1], inputs[k - 1], scenes[k - 1 + 1]));
        assert(scenes[k - 1].game.enemy_move_cooldown > 0);
        lemma_enemies_wait(scenes[k - 1], times[k - 1], inputs[k - 1], scenes[k]);
        assert(times.take(k).drop_last() =~= times.take(k - 1));
    }
}

/// However the game goes, the enemies get a turn within the time that they wait: in
/// ticks that take at least so long together, and one more, there is one that
/// starts with the wait over and ends with it back at 0.45 seconds.
pub proof fn lemma_enemies_get_their_turn(
    scenes: Seq<Scene>,
    times: Seq<Nanos>,
    inputs: Seq<Seq<Action>>,
)
    requires
        under_way(scenes, times, inputs),
        times.len() > 0,
        total(times.drop_last()) >= scenes[0].game.enemy_move_cooldown,
    ensures
        exists|k: int|
            0 <= k < times.len() && (#[trigger] scenes[k]).game.enemy_move_cooldown <= 0 && scenes[k
                + 1].game.enemy_move_cooldown == 450_000_000,
{
    let last = times.len() - 1;
    if forall|i: int| 0 <= i < last ==> (#[trigger] scenes[i]).game.enemy_move_cooldown > 0 {
        lemma_wait_runs_down(scenes, times, inputs, last);
        assert(times.take(last) =~= times.drop_last());
        assert(ticks::in_play(scenes[last], times[last], inputs[last], scenes[last + 1]));
        lemma_enemies_wait(scenes[last], times[last], inputs[last], scenes[last + 1]);
        assert(scenes[last].game.enemy_move_cooldown <= 0);
    } else {
        let k = choose|i: int|
            0 <= i < last && (#[trigger] scenes[i]).game.enemy_move_cooldown <= 0;
        assert(ticks::in_play(scenes[k], times[k], inputs[k], scenes[k + 1]));
        lemma_enemies_wait(scenes[k], times[k], inputs[k], scenes[k + 1]);
    }
}

// ---------------------------------------------------------------------------
// Equipment

/// Whether a player walks into a cell where an item of that kind lies.
pub open spec fn heads_for_item(game: GameView, i: int, action: Action, kind: ItemKind) -> bool {
    exists|to: Coord| #[trigger]
        ticks::heads_for(game.players[i], action, to) && ticks::item_at(game.map, to, kind)
}

/// A player's equipment changes by items alone: by one item, which lay in the cell
/// that the player asked to walk into, or not at all, but for the time of
/// invincibility, which wears off. Only the hidden command switches forced
/// invincibility.
pub proof fn lemma_equipment(
    before: Scene,
    dt: Nanos,
    actions: Seq<Action>,
    after: Scene,
    i: int,
)
    requires
        ticks::in_play(before, dt, actions, after),
        0 <= i < before.game.players.len(),
    ensures
        ({
            let p = before.game.players[i];
            let q = after.game.players[i];
            let action = ticks::asked(actions, i);
            &&& q.god_mode == (p.god_mode != (action is ToggleGodMode))
            &&& {
                ||| ticks::as_equipped(p, q, dt)
                ||| exists|kind: ItemKind| #[trigger]
                    heads_for_item(before.game, i, action, kind) && ticks::improved(p, q, dt, kind)
                        && q.score >= p.score + 50
            }
            &&& q.score >= p.score
        }),
{
    let (luck, fresh) = ticks::lemma_story(before, dt, actions, after);
    lemma_kept(before, dt, actions, luck, fresh, after, i);
    let p = before.game.players[i];
    let q = laws::after_input(before, dt, actions).game.players[i];
    let action = ticks::asked(actions, i);
    assert(ticks::steered(p, q, dt, action, before.game.map, before.game.bombs));
    if !ticks::as_equipped(p, q, dt) {
        let dir = action->Move_0;
        assert(ticks::strode(p, q, dt, dir, before.game.map, before.game.bombs));
        let kind = choose|kind: ItemKind| #[trigger]
            ticks::item_at(before.game.map, q.pos, kind) && ticks::improved(p, q, dt, kind)
                && q.score == p.score + 50;
        assert(ticks::heads_for(p, action, q.pos));
        assert(heads_for_item(before.game, i, action, kind));
        assert(ticks::improved(p, after.game.players[i], dt, kind));
    }
}

/// What follows a player's input leaves the player's equipment as it is and takes
/// no points.
proof fn lemma_kept(
    before: Scene,
    dt: Nanos,
    actions: Seq<Action>,
    luck: Luck,
    fresh: Seq<ExplosionView>,
    after: Scene,
    i: int,
)
    requires
        ticks::in_play(before, dt, actions, after),
        ticks::storied(before, dt, actions, luck, fresh, after),
        0 <= i < before.game.players.len(),
    ensures
        ({
            let moved = laws::after_input(before, dt, actions).game.players[i];
            let q = after.game.players[i];
            &&& q == (Player {
                pos: q.pos,
                alive: q.alive,
                lives: q.lives,
                score: q.score,
                move_cooldown: q.move_cooldown,
                ..moved
            })
            &&& q.score >= moved.score
        }),
{
    let burnt = ticks::after_fuses(before, dt, actions).game;
    let blown = ticks::after_blasts(before, dt, actions, luck).game;
    let turned = ticks::after_turn(before, dt, actions, luck).game;
    let met = laws::after_hazards(before, dt, actions, luck).game;
    assert(ticks::blasted(burnt.players[i], blown.players[i], fresh));
    assert(ticks::encountered(
        turned.players[i],
        met.players[i],
        i,
        turned.players,
        turned.enemies,
    ));
    if !ticks::is_match(met) {
        assert(ticks::back_again(met.players[i], after.game.players[i], i, met.spawn_points));
    }
}

/// The time of invincibility wears off: in a tick in which a player walks into no
/// such item it gets shorter by the time that passes, down to zero.
pub proof fn lemma_shields_wear_off(
    before: Scene,
    dt: Nanos,
    actions: Seq<Action>,
    after: Scene,
    i: int,
)
    requires
        ticks::in_play(before, dt, actions, after),
        0 <= i < before.game.players.len(),
        !heads_for_item(before.game, i, ticks::asked(actions, i), ItemKind::Invincible),
    ensures
        ({
            let p = before.game.players[i].invincible_remaining;
            let q = after.game.players[i].invincible_remaining;
            &&& p > dt ==> q == p - dt
            &&& 0 < p <= dt ==> q == 0
            &&& p <= 0 ==> q == p
        }),
{
    lemma_equipment(before, dt, actions, after, i);
}

/// Without a further item, invincibility is over once its time has passed, however
/// the time is cut into ticks.
pub proof fn lemma_invincibility_ends(
    scenes: Seq<Scene>,
    times: Seq<Nanos>,
    inputs: Seq<Seq<Action>>,
    i: int,
    k: int,
)
    requires
        under_way(scenes, times, inputs),
        0 <= k <= times.len(),
        0 <= i < scenes[0].game.players.len(),
        scenes[0].game.players[i].invincible_remaining >= 0,
        forall|t: int|
            0 <= t < k ==> !heads_for_item(
                (#[trigger] scenes[t]).game,
                i,
                ticks::asked(inputs[t], i),
                ItemKind::Invincible,
            ),
    ensures
        scenes[k].game.players.len() == scenes[0].game.players.len(),
        ({
            let left = scenes[0].game.players[i].invincible_remaining - total(times.take(k));
            scenes[k].game.players[i].invincible_remaining == if left > 0 {
                left
            } else {
                0
            }
        }),
    decreases k,
{
    if k > 0 {
        lemma_invincibility_ends(scenes, times, inputs, i, k - 1);
        assert(ticks::in_play(scenes[k - 1], times[k - 1], inputs[k - 1], scenes[k - 1 + 1]));
        lemma_cast(scenes[k - 1], times[k - 1], inputs[k - 1], scenes[k]);
        assert(!heads_for_item(
            scenes[k - 1].game,
            i,
            ticks::asked(inputs[k - 1], i),
            ItemKind::Invincible,
        ));
        lemma_shields_wear_off(scenes[k - 1], times[k - 1], inputs[k - 1], scenes[k], i);
        assert(times.take(k).drop_last() =~= times.take(k - 1));
    }
}

/// A tick of play changes neither who takes part nor where they start.
pub proof fn lemma_cast(before: Scene, dt: Nanos, actions: Seq<Action>, after: Scene)
    requires
        ticks::in_play(before, dt, actions, after),
    ensures
        after.game.players.len() == before.game.players.len(),
        after.game.enemies.len() == before.game.enemies.len(),
        after.game.spawn_points == before.game.spawn_points,
        after.game.map.width == before.game.map.width,
        after.game.map.height == before.game.map.height,
        forall|k: int|
            0 <= k < before.game.enemies.len() ==> (#[trigger] after.game.enemies[k]).kind
                == before.game.enemies[k].kind,
{
    let (luck, fresh) = ticks::lemma_story(before, dt, actions, after);
    let blown = ticks::after_blasts(before, dt, actions, luck).game;
    let turned = ticks::after_turn(before, dt, actions, luck).game;
    assert forall|k: int| 0 <= k < before.game.enemies.len() implies (
    #[trigger] after.game.enemies[k]).kind == before.game.enemies[k].kind by {
        assert(blown.enemies[k].kind == before.game.enemies[k].kind);
        assert(turned.enemies[k].kind == blown.enemies[k].kind);
    }
}

// ---------------------------------------------------------------------------
// Walking

/// Who can walk into a cell and asks to is there after the tick, unless hurt, and
/// waits for the next move at the player's own pace. The item that lay there is
/// taken, with its effect, for fifty points, and nothing is left of it.
pub proof fn lemma_walking(
    before: Scene,
    dt: Nanos,
    actions: Seq<Action>,
    after: Scene,
    i: int,
    pos: Coord,
)
    requires
        ticks::in_play(before, dt, actions, after),
        0 <= i < before.game.players.len(),
        ticks::can_enter(before.game, i, dt, actions, pos),
    ensures
        ({
            let p = before.game.players[i];
            let q = after.game.players[i];
            &&& q.alive && q.lives == p.lives ==> q.pos == pos && q.move_cooldown == ticks::pace(
                p.speed,
            )
            &&& after.game.map.tile(pos) is Empty
            &&& forall|kind: ItemKind| #[trigger]
                ticks::item_at(before.game.map, pos, kind) ==> ticks::improved(p, q, dt, kind)
                    && q.score >= p.score + 50
        }),
{
    let (luck, fresh) = ticks::lemma_story(before, dt, actions, after);
    lemma_kept(before, dt, actions, luck, fresh, after, i);
    ticks::lemma_walks_in(before, dt, actions, i, pos);
    let p = before.game.players[i];
    let q = after.game.players[i];
    let moved = laws::after_input(before, dt, actions).game;
    if q.alive && q.lives == p.lives {
        lemma_unhurt(before, dt, actions, luck, fresh, after, i);
    }
    let blown = ticks::after_blasts(before, dt, actions, luck).game;
    assert(blown.map.tile(pos) == moved.map.tile(pos));
    assert forall|kind: ItemKind| #[trigger]
        ticks::item_at(before.game.map, pos, kind) implies ticks::improved(p, q, dt, kind)
        && q.score >= p.score + 50 by {
        assert(ticks::improved(p, moved.players[i], dt, kind));
    }
}

/// Who is not hurt is after a tick either in the same place, with the wait for the
/// next move shorter by the time that passes, or one cell on in the direction asked
/// for, which was free, at the player's own pace.
pub proof fn lemma_whereabouts(
    before: Scene,
    dt: Nanos,
    actions: Seq<Action>,
    after: Scene,
    i: int,
)
    requires
        ticks::in_play(before, dt, actions, after),
        0 <= i < before.game.players.len(),
        before.game.players[i].alive,
        after.game.players[i].alive,
        after.game.players[i].lives == before.game.players[i].lives,
    ensures
        ({
            let p = before.game.players[i];
            let q = after.game.players[i];
            ||| q.pos == p.pos && q.move_cooldown == ticks::wait_left(p.move_cooldown, dt)
            ||| ticks::heads_for(p, ticks::asked(actions, i), q.pos) && ticks::wait_left(
                p.move_cooldown,
                dt,
            ) <= 0 && ticks::on_foot(before.game.map, q.pos) && !ticks::bombed(
                before.game.bombs,
                q.pos,
            ) && q.move_cooldown == ticks::pace(p.speed)
        }),
{
    let (luck, fresh) = ticks::lemma_story(before, dt, actions, after);
    lemma_unhurt(before, dt, actions, luck, fresh, after, i);
    let moved = laws::after_input(before, dt, actions).game.players[i];
    assert(ticks::steered(
        before.game.players[i],
        moved,
        dt,
        ticks::asked(actions, i),
        before.game.map,
        before.game.bombs,
    ));
}

// ---------------------------------------------------------------------------
// Bombs

/// Every bomb on the board after a tick either was there before, with the time that
/// passed off its fuse, or was placed in the tick: by a live player who asked to,
/// where that player stood, in that player's name, with that player's reach, and
/// with a fuse of three seconds from the start of the tick.
pub proof fn lemma_bombs_on_the_board(
    before: Scene,
    dt: Nanos,
    actions: Seq<Action>,
    after: Scene,
    bomb: Bomb,
)
    requires
        ticks::in_play(before, dt, actions, after),
        after.game.bombs.contains(bomb),
    ensures
        bomb.timer > 0,
        ({
            ||| exists|j: int|
                0 <= j < before.game.bombs.len() && (#[trigger] before.game.bombs[j]) == Bomb {
                    timer: before.game.bombs[j].timer,
                    ..bomb
                } && bomb.timer == before.game.bombs[j].timer - dt
            ||| exists|i: int|
                0 <= i < before.game.players.len() && ticks::asked(actions, i) is PlaceBomb && (
                #[trigger] before.game.players[i]).alive && bomb.pos == before.game.players[i].pos
                    && bomb.owner == i && bomb.power == before.game.players[i].power && bomb.timer
                    == 3_000_000_000 - dt && !ticks::bombed(before.game.bombs, bomb.pos) && (
                ticks::own_bombs(before.game.bombs, i) <= u32::MAX ==> ticks::own_bombs(
                    before.game.bombs,
                    i,
                ) < before.game.players[i].bomb_capacity)
        }),
{
    let (luck, fresh) = ticks::lemma_story(before, dt, actions, after);
    let moved = laws::after_input(before, dt, actions).game;
    let burnt = ticks::after_fuses(before, dt, actions).game;
    let blown = ticks::after_blasts(before, dt, actions, luck).game;
    assert(after.game.bombs == blown.bombs);
    assert(burnt.bombs.contains(bomb));
    let j = choose|j: int| 0 <= j < burnt.bombs.len() && burnt.bombs[j] == bomb;
    assert(ticks::shorter(moved.bombs[j], burnt.bombs[j], dt));
    if j < before.game.bombs.len() {
        assert(moved.bombs[j] == before.game.bombs[j]);
    } else {
        assert(ticks::placed_by_one(
            before.game.players,
            actions,
            before.game.players.len(),
            before.game.bombs,
            moved.bombs[j],
        ));
        let i = choose|i: int|
            0 <= i < before.game.players.len() && 0 <= i < before.game.players.len()
                && #[trigger] ticks::just_placed(
                moved.bombs[j],
                before.game.players[i],
                i,
                ticks::asked(actions, i),
                before.game.bombs,
            );
        assert(before.game.players[i].alive);
    }
}

/// Whether a blast that has only just begun covers a cell.
pub open spec fn just_blown(explosions: Seq<ExplosionView>, pos: Coord) -> bool {
    exists|e: int|
        0 <= e < explosions.len() && (#[trigger] explosions[e]).remaining == 500_000_000
            && explosions[e].cells.contains(pos)
}

/// The fresh blasts of a tick are on the board after it.
proof fn lemma_fresh_shows(
    before: Scene,
    dt: Nanos,
    actions: Seq<Action>,
    luck: Luck,
    fresh: Seq<ExplosionView>,
    after: Scene,
    pos: Coord,
)
    requires
        ticks::storied(before, dt, actions, luck, fresh, after),
        ticks::swept(fresh, pos),
    ensures
        just_blown(after.game.explosions, pos),
{
    let burnt = ticks::after_fuses(before, dt, actions).game;
    let k = choose|k: int| 0 <= k < fresh.len() && (#[trigger] fresh[k]).cells.contains(pos);
    let e = burnt.explosions.len() + k;
    assert(after.game.explosions[e] == fresh[k]);
    assert(after.game.explosions[e].remaining == 500_000_000);
}

/// Who can place a bomb and asks to has placed it after the tick, with the player's
/// own reach, unless it has already gone off.
pub proof fn lemma_bombs_are_placed(
    before: Scene,
    dt: Nanos,
    actions: Seq<Action>,
    after: Scene,
    i: int,
)
    requires
        ticks::in_play(before, dt, actions, after),
        dt < 3_000_000_000,
        0 <= i < before.game.players.len(),
        ticks::can_place(before.game, i, actions),
    ensures
        after.game.bombs.contains(
            Bomb {
                pos: before.game.players[i].pos,
                owner: i as usize,
                timer: (3_000_000_000 - dt) as i64,
                power: before.game.players[i].power,
            },
        ) || just_blown(after.game.explosions, before.game.players[i].pos),
{
    let (luck, fresh) = ticks::lemma_story(before, dt, actions, after);
    let moved = laws::after_input(before, dt, actions).game;
    let burnt = ticks::after_fuses(before, dt, actions).game;
    let player = before.game.players[i];
    ticks::lemma_places(before, dt, actions, i);
    let placed = Bomb {
        pos: player.pos,
        owner: i as usize,
        timer: 3_000_000_000,
        power: player.power,
    };
    let j = choose|j: int| 0 <= j < moved.bombs.len() && moved.bombs[j] == placed;
    assert(ticks::shorter(moved.bombs[j], burnt.bombs[j], dt));
    assert(burnt.bombs[j] == Bomb { timer: (3_000_000_000 - dt) as i64, ..placed });
    assert(burnt.bombs.contains(burnt.bombs[j]));
    if ticks::swept(fresh, player.pos) {
        lemma_fresh_shows(before, dt, actions, luck, fresh, after, player.pos);
    }
}

/// A bomb whose fuse runs out goes off: its blast covers its cell and everything
/// that it reaches on the board as it was, up to its own reach.
pub proof fn lemma_bombs_go_off(
    before: Scene,
    dt: Nanos,
    actions: Seq<Action>,
    after: Scene,
    j: int,
    pos: Coord,
)
    requires
        ticks::in_play(before, dt, actions, after),
        0 <= j < before.game.bombs.len(),
        before.game.bombs[j].timer <= dt,
        pos == before.game.bombs[j].pos || exists|dir: Direction|
            laws::reached(
                before.game.map,
                before.game.bombs[j].pos,
                before.game.bombs[j].power as nat,
                dir,
                pos,
            ),
    ensures
        just_blown(after.game.explosions, pos),
{
    let (luck, fresh) = ticks::lemma_story(before, dt, actions, after);
    let moved = laws::after_input(before, dt, actions).game;
    let burnt = ticks::after_fuses(before, dt, actions).game;
    let blown = ticks::after_blasts(before, dt, actions, luck).game;
    let bomb = burnt.bombs[j];
    assert(moved.bombs[j] == before.game.bombs[j]);
    assert(ticks::shorter(moved.bombs[j], bomb, dt));
    assert(!blown.bombs.contains(bomb));
    let k = choose|k: int|
        0 <= k < fresh.len() && #[trigger] ticks::blast_of(bomb, fresh[k], burnt.map, blown.map);
    reveal(ticks::blast_of);
    if pos != bomb.pos {
        let dir = choose|dir: Direction|
            laws::reached(
                before.game.map,
                before.game.bombs[j].pos,
                before.game.bombs[j].power as nat,
                dir,
                pos,
            );
        assert(laws::eroded(before.game.map, moved.map)) by {
            assert forall|cell: Coord|
                #![trigger moved.map.tile(cell)]
                {
                    &&& moved.map.tile(cell) is Wall <==> before.game.map.tile(cell) is Wall
                    &&& moved.map.tile(cell) is Block ==> before.game.map.tile(cell) is Block
                } by {}
        }
        ticks::lemma_reach_grows(
            before.game.map,
            burnt.map,
            bomb.pos,
            bomb.power as nat,
            dir,
            pos,
        );
        assert(laws::reached(burnt.map, bomb.pos, bomb.power as nat, dir, pos));
    }
    assert(fresh[k].cells.contains(pos));
    assert(ticks::swept(fresh, pos));
    lemma_fresh_shows(before, dt, actions, luck, fresh, after, pos);
}

/// A bomb that is not due and in no blast stays, with the time that passes off its
/// fuse.
pub proof fn lemma_bombs_tick(
    before: Scene,
    dt: Nanos,
    actions: Seq<Action>,
    after: Scene,
    j: int,
)
    requires
        ticks::in_play(before, dt, actions, after),
        0 <= j < before.game.bombs.len(),
        before.game.bombs[j].timer > dt,
        !just_blown(after.game.explosions, before.game.bombs[j].pos),
    ensures
        after.game.bombs.contains(
            Bomb {
                timer: (before.game.bombs[j].timer - dt) as i64,
                ..before.game.bombs[j]
            },
        ),
{
    let (luck, fresh) = ticks::lemma_story(before, dt, actions, after);
    let moved = laws::after_input(before, dt, actions).game;
    let burnt = ticks::after_fuses(before, dt, actions).game;
    assert(moved.bombs[j] == before.game.bombs[j]);
    assert(ticks::shorter(moved.bombs[j], burnt.bombs[j], dt));
    assert(burnt.bombs.contains(burnt.bombs[j]));
    if ticks::swept(fresh, before.game.bombs[j].pos) {
        lemma_fresh_shows(
            before,
            dt,
            actions,
            luck,
            fresh,
            after,
            before.game.bombs[j].pos,
        );
    }
}

// ---------------------------------------------------------------------------
// Harm

/// Whether nothing can hurt a player.
pub open spec fn shielded(player: Player) -> bool {
    player.god_mode || player.invincible_remaining > 0
}

/// Whether a player was killed in a tick.
pub open spec fn hurt(before: Player, after: Player) -> bool {
    before.alive && !(after.alive && after.lives == before.lives)
}

/// Whether an enemy that was alive before the tick is in that cell after it.
pub open spec fn enemy_came(before: Seq<Enemy>, after: Seq<Enemy>, pos: Coord) -> bool {
    exists|k: int| 0 <= k < before.len() && before[k].alive && (#[trigger] after[k]).pos == pos
}

/// Whether a player who is alive and shielded is in that cell.
pub open spec fn champion_at(players: Seq<Player>, pos: Coord) -> bool {
    exists|i: int|
        0 <= i < players.len() && (#[trigger] players[i]).alive && shielded(players[i])
            && players[i].pos == pos
}

/// What the blasts that began in a tick account for.
pub open spec fn reckoning(
    before: GameView,
    after: GameView,
    dt: Nanos,
    actions: Seq<Action>,
    fresh: Seq<ExplosionView>,
) -> bool {
    &&& exists|kept: Seq<ExplosionView>|
        after.explosions == kept + fresh && #[trigger] ticks::burnt_down(
            before.explosions,
            kept,
            dt,
        )
    &&& forall|e: int| 0 <= e < fresh.len() ==> (#[trigger] fresh[e]).remaining == 500_000_000
    &&& blocks_accounted(before.map, after.map, fresh)
    &&& enemies_accounted(before, after, fresh)
    &&& players_accounted(before, after, actions, fresh)
}

/// Blocks go if and only if they are in a blast, and leave an item or nothing;
/// walls stand; and free cells stay free.
pub open spec fn blocks_accounted(
    before: MapView,
    after: MapView,
    fresh: Seq<ExplosionView>,
) -> bool {
    forall|pos: Coord|
        #![trigger after.tile(pos)]
        {
            &&& before.tile(pos) is Block ==> (after.tile(pos) is Block <==> !ticks::swept(
                fresh,
                pos,
            ))
            &&& before.tile(pos) is Wall <==> after.tile(pos) is Wall
            &&& before.tile(pos) is Empty ==> after.tile(pos) is Empty
            &&& before.tile(pos) is ItemTile ==> after.tile(pos) == before.tile(pos) || after.tile(
                pos,
            ) is Empty
        }
}

/// Enemies in a blast die. Of the others only those die that end up in the cell of
/// a shielded player, and all of those do.
pub open spec fn enemies_accounted(
    before: GameView,
    after: GameView,
    fresh: Seq<ExplosionView>,
) -> bool {
    forall|k: int|
        0 <= k < before.enemies.len() ==> (#[trigger] after.enemies[k]).alive == (
        before.enemies[k].alive && !ticks::swept(fresh, before.enemies[k].pos) && !champion_at(
            after.players,
            after.enemies[k].pos,
        ))
}

/// Who is not shielded and comes out of the tick unhurt is in no blast and not in
/// the cell of a live enemy. Who is hurt was not shielded, and a blast or an enemy
/// came to where the player was or asked to walk.
pub open spec fn players_accounted(
    before: GameView,
    after: GameView,
    actions: Seq<Action>,
    fresh: Seq<ExplosionView>,
) -> bool {
    forall|i: int|
        #![trigger after.players[i]]
        0 <= i < before.players.len() && before.players[i].alive ==> {
            let p = before.players[i];
            let q = after.players[i];
            &&& !hurt(p, q) && !shielded(q) ==> !ticks::swept(fresh, q.pos) && forall|k: int|
                0 <= k < after.enemies.len() && (#[trigger] after.enemies[k]).alive
                    ==> after.enemies[k].pos != q.pos
            &&& hurt(p, q) ==> !shielded(q) && exists|pos: Coord| #[trigger]
                could_be_at(p, ticks::asked(actions, i), pos) && (ticks::swept(fresh, pos)
                    || enemy_came(before.enemies, after.enemies, pos))
        }
}

/// Whether a player stays in that cell or asks to walk into it.
pub open spec fn could_be_at(player: Player, action: Action, pos: Coord) -> bool {
    pos == player.pos || ticks::heads_for(player, action, pos)
}

/// A live enemy in a cell counts there.
proof fn lemma_alive_at(enemies: Seq<Enemy>, pos: Coord)
    ensures
        ticks::alive_at(enemies, pos) > 0 <==> exists|k: int|
            0 <= k < enemies.len() && (#[trigger] enemies[k]).alive && enemies[k].pos == pos,
    decreases enemies.len(),
{
    if enemies.len() > 0 {
        let n = enemies.len() - 1;
        let rest = enemies.drop_last();
        lemma_alive_at(rest, pos);
        if exists|k: int| 0 <= k < rest.len() && (#[trigger] rest[k]).alive && rest[k].pos == pos {
            let k = choose|k: int|
                0 <= k < rest.len() && (#[trigger] rest[k]).alive && rest[k].pos == pos;
            assert(enemies[k].alive && enemies[k].pos == pos);
        }
        if exists|k: int|
            0 <= k < enemies.len() && (#[trigger] enemies[k]).alive && enemies[k].pos == pos {
            let k = choose|k: int|
                0 <= k < enemies.len() && (#[trigger] enemies[k]).alive && enemies[k].pos == pos;
            if k < n {
                assert(rest[k].alive && rest[k].pos == pos);
            }
        }
    }
}

/// What became of one player on the way through a tick.
proof fn lemma_one_player(
    before: Scene,
    dt: Nanos,
    actions: Seq<Action>,
    luck: Luck,
    fresh: Seq<ExplosionView>,
    after: Scene,
    i: int,
)
    requires
        ticks::in_play(before, dt, actions, after),
        ticks::storied(before, dt, actions, luck, fresh, after),
        0 <= i < before.game.players.len(),
    ensures
        ({
            let p = before.game.players[i];
            let q = after.game.players[i];
            let moved = laws::after_input(before, dt, actions).game.players[i];
            let turned = ticks::after_turn(before, dt, actions, luck).game;
            let met = laws::after_hazards(before, dt, actions, luck).game;
            let struck = ticks::swept(fresh, moved.pos) || (!ticks::guarded(
                turned.players,
                i,
                moved.pos,
            ) && ticks::alive_at(turned.enemies, moved.pos) > 0);
            &&& moved.alive == p.alive
            &&& could_be_at(p, ticks::asked(actions, i), moved.pos)
            &&& turned.players[i].pos == moved.pos
            &&& shielded(turned.players[i]) == shielded(moved)
            &&& shielded(q) == shielded(moved)
            &&& p.alive ==> (hurt(p, q) <==> !shielded(moved) && struck)
            &&& p.alive && !hurt(p, q) ==> q.pos == moved.pos && turned.players[i].alive
            &&& turned.players[i].alive && shielded(moved) ==> !hurt(p, q) && p.alive
            &&& met.players[i].alive == (p.alive && !hurt(p, q))
            &&& p.alive && hurt(p, q) ==> met.players[i].lives == (if p.lives > 0 {
                p.lives - 1
            } else {
                0
            })
            &&& p.alive && !hurt(p, q) ==> met.players[i].lives == p.lives
            &&& !p.alive ==> met.players[i].lives == p.lives
        }),
{
    let moved = laws::after_input(before, dt, actions).game;
    let burnt = ticks::after_fuses(before, dt, actions).game;
    let blown = ticks::after_blasts(before, dt, actions, luck).game;
    let turned = ticks::after_turn(before, dt, actions, luck).game;
    let met = laws::after_hazards(before, dt, actions, luck).game;
    assert(ticks::steered(
        before.game.players[i],
        moved.players[i],
        dt,
        ticks::asked(actions, i),
        before.game.map,
        before.game.bombs,
    ));
    assert(ticks::blasted(burnt.players[i], blown.players[i], fresh));
    assert(ticks::encountered(
        turned.players[i],
        met.players[i],
        i,
        turned.players,
        turned.enemies,
    ));
    if !ticks::is_match(met) {
        assert(ticks::back_again(met.players[i], after.game.players[i], i, met.spawn_points));
    }
}

/// Who is in a cell, alive and shielded, when the enemies come is so after the tick,
/// and the other way round.
proof fn lemma_champions(
    before: Scene,
    dt: Nanos,
    actions: Seq<Action>,
    luck: Luck,
    fresh: Seq<ExplosionView>,
    after: Scene,
    pos: Coord,
)
    requires
        ticks::in_play(before, dt, actions, after),
        ticks::storied(before, dt, actions, luck, fresh, after),
        forall|i: int| 0 <= i < before.game.players.len() ==> (#[trigger] before.game.players[i]).alive,
    ensures
        ticks::guarded(
            ticks::after_turn(before, dt, actions, luck).game.players,
            before.game.players.len() as int,
            pos,
        ) == champion_at(after.game.players, pos),
{
    let turned = ticks::after_turn(before, dt, actions, luck).game.players;
    let n = before.game.players.len();
    if ticks::guarded(turned, n as int, pos) {
        let i = choose|i: int|
            0 <= i < n && i < turned.len() && (#[trigger] turned[i]).alive && (turned[i].god_mode
                || turned[i].invincible_remaining > 0) && turned[i].pos == pos;
        lemma_one_player(before, dt, actions, luck, fresh, after, i);
        assert(after.game.players[i].alive);
    }
    if champion_at(after.game.players, pos) {
        let i = choose|i: int|
            0 <= i < after.game.players.len() && (#[trigger] after.game.players[i]).alive
                && shielded(after.game.players[i]) && after.game.players[i].pos == pos;
        assert(before.game.players[i].alive);
        lemma_one_player(before, dt, actions, luck, fresh, after, i);
        assert(turned[i].alive);
    }
}

/// Everything that is destroyed or killed in a tick is accounted for by the blasts
/// that began in it and by meetings with enemies, and nothing that these reach is
/// spared.
pub proof fn lemma_reckoning(before: Scene, dt: Nanos, actions: Seq<Action>, after: Scene)
    requires
        ticks::in_play(before, dt, actions, after),
        forall|i: int| 0 <= i < before.game.players.len() ==> (#[trigger] before.game.players[i]).alive,
    ensures
        exists|fresh: Seq<ExplosionView>| #[trigger]
            reckoning(before.game, after.game, dt, actions, fresh),
{
    let (luck, fresh) = ticks::lemma_story(before, dt, actions, after);
    let moved = laws::after_input(before, dt, actions).game;
    let burnt = ticks::after_fuses(before, dt, actions).game;
    let blown = ticks::after_blasts(before, dt, actions, luck).game;
    let turned = ticks::after_turn(before, dt, actions, luck).game;
    let met = laws::after_hazards(before, dt, actions, luck).game;
    let n = before.game.players.len();
    assert(ticks::burnt_down(before.game.explosions, burnt.explosions, dt));
    assert(after.game.explosions == burnt.explosions + fresh);
    assert forall|pos: Coord|
        #![trigger after.game.map.tile(pos)]
        {
            &&& before.game.map.tile(pos) is Block ==> (after.game.map.tile(pos) is Block
                <==> !ticks::swept(fresh, pos))
            &&& before.game.map.tile(pos) is Wall <==> after.game.map.tile(pos) is Wall
            &&& before.game.map.tile(pos) is Empty ==> after.game.map.tile(pos) is Empty
            &&& before.game.map.tile(pos) is ItemTile ==> after.game.map.tile(pos)
                == before.game.map.tile(pos) || after.game.map.tile(pos) is Empty
        } by {
        let mid = moved.map.tile(pos);
        assert(blown.map.tile(pos) == after.game.map.tile(pos));
    }
    assert forall|k: int| 0 <= k < before.game.enemies.len() implies (
    #[trigger] after.game.enemies[k]).alive == (before.game.enemies[k].alive && !ticks::swept(
        fresh,
        before.game.enemies[k].pos,
    ) && !champion_at(after.game.players, after.game.enemies[k].pos)) by {
        assert(blown.enemies[k].pos == before.game.enemies[k].pos);
        assert(turned.enemies[k].alive == blown.enemies[k].alive);
        assert(met.enemies[k].pos == turned.enemies[k].pos);
        lemma_champions(before, dt, actions, luck, fresh, after, turned.enemies[k].pos);
    }
    assert forall|i: int|
        #![trigger after.game.players[i]]
        0 <= i < n && before.game.players[i].alive implies {
        let p = before.game.players[i];
        let q = after.game.players[i];
        &&& !hurt(p, q) && !shielded(q) ==> !ticks::swept(fresh, q.pos) && forall|k: int|
            0 <= k < after.game.enemies.len() && (#[trigger] after.game.enemies[k]).alive
                ==> after.game.enemies[k].pos != q.pos
        &&& hurt(p, q) ==> !shielded(q) && exists|pos: Coord| #[trigger]
            could_be_at(p, ticks::asked(actions, i), pos) && (ticks::swept(fresh, pos)
                || enemy_came(before.game.enemies, after.game.enemies, pos))
    } by {
        let p = before.game.players[i];
        let q = after.game.players[i];
        lemma_one_player(before, dt, actions, luck, fresh, after, i);
        let pos = moved.players[i].pos;
        lemma_alive_at(turned.enemies, pos);
        if !hurt(p, q) && !shielded(q) {
            assert forall|k: int|
                0 <= k < after.game.enemies.len() && (#[trigger] after.game.enemies[k]).alive implies after.game.enemies[k].pos
                != q.pos by {
                assert(met.enemies[k].alive);
                if after.game.enemies[k].pos == q.pos {
                    assert(turned.enemies[k].alive && turned.enemies[k].pos == pos);
                    assert(ticks::guarded(turned.players, i, pos));
                    let g = choose|g: int|
                        0 <= g < i && g < turned.players.len() && (
                        #[trigger] turned.players[g]).alive && (turned.players[g].god_mode
                            || turned.players[g].invincible_remaining > 0)
                            && turned.players[g].pos == pos;
                    assert(turned.players[g].alive);
                    assert(ticks::guarded(turned.players, n as int, pos));
                }
            }
        }
        if hurt(p, q) {
            assert(could_be_at(p, ticks::asked(actions, i), pos));
            if !ticks::swept(fresh, pos) {
                let k = choose|k: int|
                    0 <= k < turned.enemies.len() && (#[trigger] turned.enemies[k]).alive
                        && turned.enemies[k].pos == pos;
                assert(blown.enemies[k].alive);
                assert(before.game.enemies[k].alive);
                assert(met.enemies[k].pos == pos);
                assert(after.game.enemies[k].pos == pos);
            }
        }
    }
    assert(reckoning(before.game, after.game, dt, actions, fresh));
}

/// What becomes of a player who is killed: one life is gone. In a match that is the
/// end. Against enemies, who has a life left is back at the player's starting cell,
/// ready to move, and who has none stays dead and the game is over.
pub proof fn lemma_the_killed(
    before: Scene,
    dt: Nanos,
    actions: Seq<Action>,
    after: Scene,
    i: int,
)
    requires
        ticks::in_play(before, dt, actions, after),
        0 <= i < before.game.players.len(),
        hurt(before.game.players[i], after.game.players[i]),
    ensures
        ({
            let p = before.game.players[i];
            let q = after.game.players[i];
            &&& q.lives == (if p.lives > 0 {
                p.lives - 1
            } else {
                0
            })
            &&& ticks::is_match(before.game) ==> !q.alive
            &&& !ticks::is_match(before.game) && p.lives >= 2 ==> q.alive && q.move_cooldown == 0
                && q.pos == (if i < before.game.spawn_points.len() {
                before.game.spawn_points[i]
            } else {
                (1, 1)
            })
            &&& !ticks::is_match(before.game) && p.lives <= 1 ==> !q.alive
                && after.game.screen is GameOver
        }),
{
    let (luck, fresh) = ticks::lemma_story(before, dt, actions, after);
    lemma_one_player(before, dt, actions, luck, fresh, after, i);
    let met = laws::after_hazards(before, dt, actions, luck).game;
    assert(!met.players[i].alive);
    if !ticks::is_match(met) {
        assert(ticks::back_again(met.players[i], after.game.players[i], i, met.spawn_points));
        if met.players[i].lives == 0 {
            assert(ticks::one_lost(met.players));
        }
    }
}

/// Whether the last requests are these.
pub open spec fn ends_with<T>(s: Seq<T>, tail: Seq<T>) -> bool {
    exists|head: Seq<T>| s == #[trigger] (head + tail)
}

/// A match goes on while at least two are alive. The last one alive wins, with a
/// fanfare; if nobody is alive it is a draw.
pub proof fn lemma_matches_end(before: Scene, dt: Nanos, actions: Seq<Action>, after: Scene)
    requires
        ticks::in_play(before, dt, actions, after),
        ticks::is_match(before.game),
    ensures
        forall|winner: int| #[trigger]
            ticks::last_alive(after.game.players, winner) ==> after.game.screen
                == Screen::MatchResult(Some(winner as usize)) && ends_with(
                after.heard,
                ticks::victory_sounds(),
            ),
        ticks::none_alive(after.game.players) ==> after.game.screen == Screen::MatchResult(None)
            && ends_with(after.heard, ticks::defeat_sounds()),
        (exists|i: int, j: int|
            #![trigger after.game.players[i], after.game.players[j]]
            0 <= i < j < after.game.players.len() && after.game.players[i].alive
                && after.game.players[j].alive) ==> after.game.screen is Playing,
{
    let (luck, fresh) = ticks::lemma_story(before, dt, actions, after);
    let met = laws::after_hazards(before, dt, actions, luck);
    assert(after.game.players == met.game.players);
    assert forall|winner: int| #[trigger]
        ticks::last_alive(after.game.players, winner) implies after.game.screen
        == Screen::MatchResult(Some(winner as usize)) && ends_with(
        after.heard,
        ticks::victory_sounds(),
    ) by {
        assert(ticks::last_alive(met.game.players, winner));
        assert(after.heard == met.heard + ticks::victory_sounds());
    }
    if ticks::none_alive(after.game.players) {
        assert(after.heard == met.heard + ticks::defeat_sounds());
    }
    if exists|i: int, j: int|
        #![trigger after.game.players[i], after.game.players[j]]
        0 <= i < j < after.game.players.len() && after.game.players[i].alive
            && after.game.players[j].alive {
        let (i, j) = choose|i: int, j: int|
            #![trigger after.game.players[i], after.game.players[j]]
            0 <= i < j < after.game.players.len() && after.game.players[i].alive
                && after.game.players[j].alive;
        assert forall|winner: int| !(#[trigger] ticks::last_alive(met.game.players, winner)) by {
            if ticks::last_alive(met.game.players, winner) {
                assert(met.game.players[i].alive && met.game.players[j].alive);
            }
        }
        assert(met.game.players[i].alive);
    }
}

/// Against enemies the game is over once somebody is dead for good, with a dirge.
/// The stage is cleared, with a fanfare, once there were enemies and none is alive,
/// in a tick in which nobody is hurt; else the game goes on.
pub proof fn lemma_stages_end(before: Scene, dt: Nanos, actions: Seq<Action>, after: Scene)
    requires
        ticks::in_play(before, dt, actions, after),
        !ticks::is_match(before.game),
        forall|i: int| 0 <= i < before.game.players.len() ==> (#[trigger] before.game.players[i]).alive,
    ensures
        after.game.screen is GameOver <==> !ticks::all_alive(after.game.players),
        after.game.screen is GameOver ==> ends_with(after.heard, ticks::defeat_sounds()),
        after.game.screen is Cleared <==> ticks::all_beaten(after.game.enemies) && nobody_hurt(
            before.game.players,
            after.game.players,
        ),
        after.game.screen is Cleared ==> ends_with(after.heard, ticks::victory_sounds()),
        after.game.screen is GameOver || after.game.screen is Cleared || after.game.screen is Playing,
{
    let (luck, fresh) = ticks::lemma_story(before, dt, actions, after);
    let met = laws::after_hazards(before, dt, actions, luck);
    let n = before.game.players.len();
    assert forall|i: int| 0 <= i < n implies (#[trigger] after.game.players[i]).alive == !(
    !met.game.players[i].alive && met.game.players[i].lives == 0) && met.game.players[i].alive
        == !hurt(before.game.players[i], after.game.players[i]) by {
        assert(before.game.players[i].alive);
        lemma_one_player(before, dt, actions, luck, fresh, after, i);
        assert(ticks::back_again(
            met.game.players[i],
            after.game.players[i],
            i,
            met.game.spawn_points,
        ));
    }
    if ticks::one_lost(met.game.players) {
        let i = choose|i: int|
            0 <= i < met.game.players.len() && !(#[trigger] met.game.players[i]).alive
                && met.game.players[i].lives == 0;
        assert(!after.game.players[i].alive);
        assert(after.heard == met.heard + ticks::defeat_sounds());
    } else {
        assert forall|i: int| 0 <= i < n implies (#[trigger] after.game.players[i]).alive by {
            if !after.game.players[i].alive {
                assert(!met.game.players[i].alive && met.game.players[i].lives == 0);
            }
        }
    }
    assert(ticks::all_alive(met.game.players) <==> nobody_hurt(
        before.game.players,
        after.game.players,
    )) by {
        if ticks::all_alive(met.game.players) {
            assert forall|i: int| 0 <= i < n implies before.game.players[i].alive && (
            #[trigger] after.game.players[i]).alive && after.game.players[i].lives
                == before.game.players[i].lives by {
                assert(met.game.players[i].alive);
                assert(before.game.players[i].alive);
            }
        }
        if nobody_hurt(before.game.players, after.game.players) {
            assert forall|i: int| 0 <= i < n implies (#[trigger] met.game.players[i]).alive by {
                assert(after.game.players[i].alive);
            }
        }
    }
    if after.game.screen is Cleared {
        assert(after.heard == met.heard + ticks::victory_sounds());
    }
}

} // verus!
