//! What holds of every game.
//!
//! The laws here follow from the rules alone, whatever the players do and
//! however chance comes out.

use vstd::prelude::*;

use crate::game::entities;
use crate::game::entities::{Bomb, Enemy, Player};
use crate::game::geometry;
use crate::game::map::MapView;
use crate::game::rules;
use crate::game::rules::{GameView, Luck, Scene};
use crate::game::spawn;
use crate::types::{Action, Coord, Direction, ItemKind, Nanos, Screen, Tile};

verus! {

// ---------------------------------------------------------------------------
// The board

/// Whether the board has only worn down: walls stand, and no block has come up.
pub open spec fn eroded(before: MapView, after: MapView) -> bool {
    &&& after.width == before.width
    &&& after.height == before.height
    &&& forall|pos: Coord|
        #![trigger after.tile(pos)]
        {
            &&& after.tile(pos) is Wall <==> before.tile(pos) is Wall
            &&& after.tile(pos) is Block ==> before.tile(pos) is Block
        }
}

/// A cell that was walkable stays so when the board wears down.
pub proof fn lemma_eroded_stays_walkable(before: MapView, after: MapView, pos: Coord)
    requires
        eroded(before, after),
        before.walkable(pos),
    ensures
        after.walkable(pos),
{
    assert(after.tile(pos) is Wall <==> before.tile(pos) is Wall);
}

/// A new board is walled in and has the fixed grid of walls; the start area is
/// free; every other cell is free or holds a block, and no item lies about.
pub proof fn lemma_fresh_board(map: MapView, width: int, height: int, pos: Coord)
    requires
        crate::game::map::freshly_laid(map, width, height),
        map.contains(pos),
        crate::game::map::in_start_area(pos.0 as int, pos.1 as int) ==> pos.0 < height - 1 && pos.1
            < width - 1,
    ensures
        crate::game::map::on_border(pos.0 as int, pos.1 as int, width, height)
            || crate::game::map::on_wall_grid(pos.0 as int, pos.1 as int) <==> map.tile(
            pos,
        ) is Wall,
        crate::game::map::in_start_area(pos.0 as int, pos.1 as int) ==> map.tile(pos) is Empty,
        !(map.tile(pos) is ItemTile),
{
    let tile = map.tiles[pos.0 as int][pos.1 as int];
}

/// A destroyed block becomes walkable, so it cannot be destroyed again.
pub proof fn lemma_destroyed_once(map: MapView, pos: Coord, drop: Option<ItemKind>)
    requires
        map.rectangular(),
        map.tile(pos) is Block,
    ensures
        map.with_tile(pos, crate::game::map::dropped_tile(drop)).walkable(pos),
        !(map.with_tile(pos, crate::game::map::dropped_tile(drop)).tile(pos) is Block),
{
    assert(map.tiles[pos.0 as int].len() == map.width);
}

/// An item that is taken is gone: the cell is free and there is nothing to take.
pub proof fn lemma_item_taken_once(map: MapView, pos: Coord)
    requires
        map.rectangular(),
        map.tile(pos) is ItemTile,
    ensures
        map.with_tile(pos, Tile::Empty).tile(pos) is Empty,
        map.with_tile(pos, Tile::Empty).walkable(pos),
{
    assert(map.tiles[pos.0 as int].len() == map.width);
}

/// Replacing one tile leaves the other cells as they were.
pub proof fn lemma_with_tile_elsewhere(map: MapView, pos: Coord, tile: Tile, other: Coord)
    requires
        map.rectangular(),
        map.contains(pos),
        other != pos,
    ensures
        map.with_tile(pos, tile).tile(other) == map.tile(other),
{
    assert(map.tiles[pos.0 as int].len() == map.width);
}

// ---------------------------------------------------------------------------
// Blasts

/// The cell `k` moves in `dir` away from `origin`, wherever that is.
pub open spec fn along(origin: Coord, dir: Direction, k: int) -> (int, int) {
    (origin.0 + k * geometry::delta_row(dir), origin.1 + k * geometry::delta_col(dir))
}

/// Whether the cell `k` moves in `dir` away lets a blast through.
pub open spec fn lets_through(map: MapView, origin: Coord, dir: Direction, k: int) -> bool {
    let (row, col) = along(origin, dir, k);
    &&& 0 <= row < map.height
    &&& 0 <= col < map.width
    &&& (map.tiles[row][col] is Empty || map.tiles[row][col] is ItemTile)
}

/// Whether a blast from `origin` reaches `pos` in direction `dir`: it lies at
/// most `power` cells away, is no wall, and everything before it lets the blast
/// through.
pub open spec fn reached(
    map: MapView,
    origin: Coord,
    power: nat,
    dir: Direction,
    pos: Coord,
) -> bool {
    exists|k: int|
        #![trigger along(origin, dir, k)]
        1 <= k <= power && along(origin, dir, k) == (pos.0 as int, pos.1 as int) && !(map.tile(
            pos,
        ) is Wall) && forall|j: int| 1 <= j < k ==> #[trigger] lets_through(map, origin, dir, j)
}

/// One arm of a blast covers exactly the cells that it reaches.
proof fn lemma_arm_reaches(map: MapView, origin: Coord, power: nat, dir: Direction, pos: Coord)
    requires
        map.width <= i32::MAX,
        map.height <= i32::MAX,
        geometry::has_neighbours(origin),
    ensures
        entities::arm(map, origin, dir, power).contains(pos) <==> reached(
            map,
            origin,
            power,
            dir,
            pos,
        ),
    decreases power,
{
    let cells = entities::arm(map, origin, dir, power);
    if power > 0 {
        let next = geometry::stepped(origin, dir);
        assert(along(origin, dir, 1) == (next.0 as int, next.1 as int));
        match map.tile(next) {
            Tile::Wall => {
                if reached(map, origin, power, dir, pos) {
                    let k = choose|k: int|
                        #![trigger along(origin, dir, k)]
                        1 <= k <= power && along(origin, dir, k) == (pos.0 as int, pos.1 as int)
                            && !(map.tile(pos) is Wall) && forall|j: int|
                            1 <= j < k ==> #[trigger] lets_through(map, origin, dir, j);
                    if k > 1 {
                        assert(lets_through(map, origin, dir, 1));
                    }
                    assert(false);
                }
            },
            Tile::Block => {
                assert(cells =~= seq![next]);
                assert(cells[0] == next);
                if reached(map, origin, power, dir, pos) {
                    let k = choose|k: int|
                        #![trigger along(origin, dir, k)]
                        1 <= k <= power && along(origin, dir, k) == (pos.0 as int, pos.1 as int)
                            && !(map.tile(pos) is Wall) && forall|j: int|
                            1 <= j < k ==> #[trigger] lets_through(map, origin, dir, j);
                    if k > 1 {
                        assert(lets_through(map, origin, dir, 1));
                    }
                    assert(pos == next);
                }
            },
            _ => {
                let rest = entities::arm(map, next, dir, (power - 1) as nat);
                lemma_arm_reaches(map, next, (power - 1) as nat, dir, pos);
                assert(cells =~= seq![next] + rest);
                assert(cells[0] == next);
                assert(lets_through(map, origin, dir, 1));
                assert forall|k: int| #[trigger] along(next, dir, k) == along(
                    origin,
                    dir,
                    k + 1,
                ) by {
                    lemma_along_next(origin, dir, k);
                }
                assert forall|k: int| #[trigger] lets_through(map, next, dir, k) == lets_through(
                    map,
                    origin,
                    dir,
                    k + 1,
                ) by {
                    lemma_along_next(origin, dir, k);
                }
                if cells.contains(pos) {
                    let i = choose|i: int| 0 <= i < cells.len() && cells[i] == pos;
                    if i > 0 {
                        assert(rest[i - 1] == pos);
                        assert(rest.contains(pos));
                        let k = choose|k: int|
                            #![trigger along(next, dir, k)]
                            1 <= k <= power - 1 && along(next, dir, k) == (
                                pos.0 as int,
                                pos.1 as int,
                            ) && !(map.tile(pos) is Wall) && forall|j: int|
                                1 <= j < k ==> #[trigger] lets_through(map, next, dir, j);
                        assert(along(origin, dir, k + 1) == (pos.0 as int, pos.1 as int));
                        assert forall|j: int| 1 <= j < k + 1 implies #[trigger] lets_through(
                            map,
                            origin,
                            dir,
                            j,
                        ) by {
                            if j > 1 {
                                assert(lets_through(map, next, dir, j - 1));
                            }
                        }
                    }
                }
                if reached(map, origin, power, dir, pos) {
                    let k = choose|k: int|
                        #![trigger along(origin, dir, k)]
                        1 <= k <= power && along(origin, dir, k) == (pos.0 as int, pos.1 as int)
                            && !(map.tile(pos) is Wall) && forall|j: int|
                            1 <= j < k ==> #[trigger] lets_through(map, origin, dir, j);
                    if k == 1 {
                        assert(pos == next);
                    } else {
                        assert(along(next, dir, k - 1) == (pos.0 as int, pos.1 as int));
                        assert forall|j: int| 1 <= j < k - 1 implies #[trigger] lets_through(
                            map,
                            next,
                            dir,
                            j,
                        ) by {
                            assert(lets_through(map, origin, dir, j + 1));
                        }
                        assert(reached(map, next, (power - 1) as nat, dir, pos));
                        let i = choose|i: int| 0 <= i < rest.len() && rest[i] == pos;
                        assert(cells[i + 1] == pos);
                    }
                }
            },
        }
    }
}

/// Moving on by one cell shifts the cells along a direction by one.
proof fn lemma_along_next(origin: Coord, dir: Direction, k: int)
    requires
        geometry::has_neighbours(origin),
    ensures
        along(geometry::stepped(origin, dir), dir, k) == along(origin, dir, k + 1),
{
    assert((k + 1) * geometry::delta_row(dir) == k * geometry::delta_row(dir)
        + geometry::delta_row(dir)) by (nonlinear_arith);
    assert((k + 1) * geometry::delta_col(dir) == k * geometry::delta_col(dir)
        + geometry::delta_col(dir)) by (nonlinear_arith);
}

/// A blast covers its origin and the cells that it reaches in the four
/// directions, and no others.
pub proof fn lemma_blast_reaches(map: MapView, origin: Coord, power: nat, pos: Coord)
    requires
        map.width <= i32::MAX,
        map.height <= i32::MAX,
        geometry::has_neighbours(origin),
    ensures
        entities::blast(origin, power, map).contains(pos) <==> pos == origin
            || exists|dir: Direction| reached(map, origin, power, dir, pos),
{
    let up = entities::arm(map, origin, Direction::Up, power);
    let down = entities::arm(map, origin, Direction::Down, power);
    let left = entities::arm(map, origin, Direction::Left, power);
    let right = entities::arm(map, origin, Direction::Right, power);
    lemma_arm_reaches(map, origin, power, Direction::Up, pos);
    lemma_arm_reaches(map, origin, power, Direction::Down, pos);
    lemma_arm_reaches(map, origin, power, Direction::Left, pos);
    lemma_arm_reaches(map, origin, power, Direction::Right, pos);
    let here = seq![origin];
    lemma_contains_sum(here, up, pos);
    lemma_contains_sum(here + up, down, pos);
    lemma_contains_sum(here + up + down, left, pos);
    lemma_contains_sum(here + up + down + left, right, pos);
    assert(here.contains(pos) <==> pos == origin) by {
        assert(here[0] == origin);
    }
    if exists|dir: Direction| reached(map, origin, power, dir, pos) {
        let dir = choose|dir: Direction| reached(map, origin, power, dir, pos);
        match dir {
            Direction::Up => {},
            Direction::Down => {},
            Direction::Left => {},
            Direction::Right => {},
        }
    }
}

/// A cell is in a sum of sequences if and only if it is in one of them.
proof fn lemma_contains_sum(one: Seq<Coord>, other: Seq<Coord>, pos: Coord)
    ensures
        (one + other).contains(pos) <==> one.contains(pos) || other.contains(pos),
{
    let sum = one + other;
    if one.contains(pos) {
        let i = choose|i: int| 0 <= i < one.len() && one[i] == pos;
        assert(sum[i] == pos);
    }
    if other.contains(pos) {
        let i = choose|i: int| 0 <= i < other.len() && other[i] == pos;
        assert(sum[one.len() + i] == pos);
    }
    if sum.contains(pos) {
        let i = choose|i: int| 0 <= i < sum.len() && sum[i] == pos;
        if i >= one.len() {
            assert(other[i - one.len()] == pos);
        }
    }
}

// ---------------------------------------------------------------------------
// Hazards

/// What blasts and enemies can do to a player: nothing but kill, at the cost of
/// one life, and only one who is alive and not invincible. Points are not lost.
pub open spec fn weathered(before: Player, after: Player) -> bool {
    &&& after.pos == before.pos
    &&& after.power == before.power
    &&& after.bomb_capacity == before.bomb_capacity
    &&& after.speed == before.speed
    &&& after.move_cooldown == before.move_cooldown
    &&& after.invincible_remaining == before.invincible_remaining
    &&& after.god_mode == before.god_mode
    &&& after.score >= before.score
    &&& {
        ||| after.alive == before.alive && after.lives == before.lives
        ||| before.alive && !before.invincible() && !after.alive && after.lives == rules::killed(
            before,
        ).lives
    }
}

/// What can happen to an enemy: it moves or dies while it is alive, and nothing
/// happens to the dead.
pub open spec fn carried_on(before: Enemy, after: Enemy) -> bool {
    &&& after.kind == before.kind
    &&& !before.alive ==> after == before
}

/// Whether nothing has happened to the game but what blasts and enemies can do.
pub open spec fn endured(before: GameView, after: GameView) -> bool {
    &&& rules::same_cast(before, after)
    &&& after.screen == before.screen
    &&& eroded(before.map, after.map)
    &&& forall|i: int|
        0 <= i < before.players.len() ==> weathered(before.players[i], #[trigger] after.players[i])
    &&& forall|i: int|
        0 <= i < before.enemies.len() ==> carried_on(before.enemies[i], #[trigger] after.enemies[i])
}

/// One thing after the other is as good as both at once.
proof fn lemma_endured_both(first: GameView, second: GameView, third: GameView)
    requires
        endured(first, second),
        endured(second, third),
    ensures
        endured(first, third),
{
    assert forall|i: int| 0 <= i < first.players.len() implies weathered(
        first.players[i],
        #[trigger] third.players[i],
    ) by {
        assert(weathered(first.players[i], second.players[i]));
        assert(weathered(second.players[i], third.players[i]));
    }
    assert forall|i: int| 0 <= i < first.enemies.len() implies carried_on(
        first.enemies[i],
        #[trigger] third.enemies[i],
    ) by {
        assert(carried_on(first.enemies[i], second.enemies[i]));
        assert(carried_on(second.enemies[i], third.enemies[i]));
    }
    assert forall|pos: Coord|
        #![trigger third.map.tile(pos)]
        {
            &&& third.map.tile(pos) is Wall <==> first.map.tile(pos) is Wall
            &&& third.map.tile(pos) is Block ==> first.map.tile(pos) is Block
        } by {
        assert(second.map.tile(pos) is Wall <==> first.map.tile(pos) is Wall);
    }
}

/// What one blast does to a game.
proof fn lemma_blown_up_endured(scene: Scene, i: int, drops: spec_fn(Coord) -> Option<ItemKind>)
    requires
        scene.game.wf(),
        rules::solvent(scene.game),
        0 <= i < scene.game.bombs.len(),
    ensures
        endured(scene.game, rules::blown_up(scene, i, drops).game),
{
    let game = scene.game;
    let after = rules::blown_up(scene, i, drops).game;
    let bomb = game.bombs[i];
    let cells = entities::blast(bomb.pos, bomb.power as nat, game.map);
    let kills = rules::count(game.enemies, rules::struck_in(cells));
    rules::lemma_blown_up(scene, i, drops);
    rules::lemma_decimated(game.enemies, cells);
    assert forall|j: int| 0 <= j < game.players.len() implies weathered(
        game.players[j],
        #[trigger] after.players[j],
    ) by {
        assert(game.players[j].score + rules::count(game.enemies, rules::living())
            * rules::SCORE_PER_ENEMY <= u32::MAX);
    }
    assert forall|pos: Coord|
        #![trigger after.map.tile(pos)]
        {
            &&& after.map.tile(pos) is Wall <==> game.map.tile(pos) is Wall
            &&& after.map.tile(pos) is Block ==> game.map.tile(pos) is Block
        } by {
        rules::lemma_cleared_tile(game.map, cells, drops, pos);
    }
}

/// What all the blasts of a tick do to a game. No bomb is due afterwards.
pub proof fn lemma_detonated_endured(scene: Scene, drops: spec_fn(Coord) -> Option<ItemKind>)
    requires
        scene.game.wf(),
        rules::solvent(scene.game),
    ensures
        rules::detonated(scene, drops).game.wf(),
        rules::solvent(rules::detonated(scene, drops).game),
        endured(scene.game, rules::detonated(scene, drops).game),
        rules::detonated(scene, drops).game.bombs.len() <= scene.game.bombs.len(),
        forall|i: int|
            0 <= i < rules::detonated(scene, drops).game.bombs.len() ==> !rules::due(
                #[trigger] rules::detonated(scene, drops).game.bombs[i],
            ),
    decreases scene.game.bombs.len(),
{
    if exists|i: int| rules::first_due(scene.game.bombs, i) {
        let i = choose|i: int| rules::first_due(scene.game.bombs, i);
        let next = rules::blown_up(scene, i, drops);
        rules::lemma_blown_up(scene, i, drops);
        lemma_blown_up_endured(scene, i, drops);
        lemma_detonated_endured(next, drops);
        rules::lemma_detonated_step(scene, i, drops);
        lemma_endured_both(scene.game, next.game, rules::detonated(next, drops).game);
    } else {
        assert forall|i: int| 0 <= i < scene.game.bombs.len() implies !rules::due(
            #[trigger] scene.game.bombs[i],
        ) by {
            if rules::due(scene.game.bombs[i]) {
                lemma_some_first_due(scene.game.bombs, i);
            }
        }
    }
}

/// If a bomb is due, one of them is the first.
pub proof fn lemma_some_first_due(bombs: Seq<Bomb>, i: int)
    requires
        0 <= i < bombs.len(),
        rules::due(bombs[i]),
    ensures
        exists|j: int| rules::first_due(bombs, j),
    decreases i,
{
    if exists|j: int| 0 <= j < i && rules::due(#[trigger] bombs[j]) {
        let j = choose|j: int| 0 <= j < i && rules::due(#[trigger] bombs[j]);
        lemma_some_first_due(bombs, j);
    } else {
        assert(rules::first_due(bombs, i));
    }
}

/// A chain reaction happens at once: a bomb within the blast of one that goes off
/// goes off in the same tick, so at least two are gone.
pub proof fn lemma_chain_reaction(
    scene: Scene,
    i: int,
    j: int,
    drops: spec_fn(Coord) -> Option<ItemKind>,
)
    requires
        scene.game.wf(),
        rules::solvent(scene.game),
        rules::first_due(scene.game.bombs, i),
        0 <= j < scene.game.bombs.len(),
        j != i,
        entities::blast(
            scene.game.bombs[i].pos,
            scene.game.bombs[i].power as nat,
            scene.game.map,
        ).contains(scene.game.bombs[j].pos),
    ensures
        rules::detonated(scene, drops).game.bombs.len() <= scene.game.bombs.len() - 2,
{
    let next = rules::blown_up(scene, i, drops);
    rules::lemma_blown_up(scene, i, drops);
    rules::lemma_detonated_step(scene, i, drops);
    lemma_blown_up_endured(scene, i, drops);
    let k = if j < i {
        j
    } else {
        j - 1
    };
    assert(scene.game.bombs.remove(i)[k] == scene.game.bombs[j]);
    assert(rules::due(next.game.bombs[k]));
    lemma_some_first_due(next.game.bombs, k);
    let first = choose|f: int| rules::first_due(next.game.bombs, f);
    rules::lemma_detonated_step(next, first, drops);
    rules::lemma_blown_up(next, first, drops);
    lemma_detonated_endured(rules::blown_up(next, first, drops), drops);
}

/// What the enemies' turn does to a game.
proof fn lemma_enemies_passed_endured(game: GameView, dt: Nanos, turns: Seq<Direction>)
    ensures
        endured(game, rules::enemies_passed(game, dt, turns)),
{
}

/// What meeting enemies does to a game.
proof fn lemma_met_endured(scene: Scene, idx: int)
    requires
        rules::solvent(scene.game),
        0 <= idx < scene.game.players.len(),
    ensures
        endured(scene.game, rules::met(scene, idx).game),
{
    let game = scene.game;
    let after = rules::met(scene, idx).game;
    let here = seq![game.players[idx].pos];
    rules::lemma_decimated(game.enemies, here);
    assert(game.players[idx].score + rules::count(game.enemies, rules::living())
        * rules::SCORE_PER_ENEMY <= u32::MAX);
}

/// What the meetings of the first players do to a game.
pub proof fn lemma_all_met_endured(scene: Scene, upto: nat)
    requires
        scene.game.wf(),
        rules::solvent(scene.game),
        upto <= scene.game.players.len(),
    ensures
        rules::all_met(scene, upto).game.wf(),
        rules::solvent(rules::all_met(scene, upto).game),
        endured(scene.game, rules::all_met(scene, upto).game),
        rules::all_met(scene, upto).game.bombs == scene.game.bombs,
    decreases upto,
{
    if upto > 0 {
        let before = rules::all_met(scene, (upto - 1) as nat);
        lemma_all_met_endured(scene, (upto - 1) as nat);
        rules::lemma_met(before, upto - 1);
        lemma_met_endured(before, upto - 1);
        lemma_endured_both(scene.game, before.game, rules::met(before, upto - 1).game);
    }
}

// ---------------------------------------------------------------------------
// A tick of play, stage by stage

/// The scene once all players have had their input.
pub open spec fn after_input(scene: Scene, dt: Nanos, actions: Seq<Action>) -> Scene {
    rules::all_acted(rules::shields_passed(scene, dt), dt, actions, scene.game.players.len())
}

/// The scene once blasts and enemies have done their work, before the round is
/// decided.
pub open spec fn after_hazards(scene: Scene, dt: Nanos, actions: Seq<Action>, luck: Luck) -> Scene {
    let before = rules::before_enemies(scene, dt, actions, luck.drops);
    let after = Scene {
        game: rules::enemies_passed(before.game, dt, luck.turns),
        ..before
    };
    rules::all_met(after, after.game.players.len())
}

/// What follows the input in a tick of play does no more to a game than blasts and
/// enemies can do, and leaves no bomb on the board that is due.
pub proof fn lemma_hazards_endured(scene: Scene, dt: Nanos, actions: Seq<Action>, luck: Luck)
    requires
        scene.game.wf(),
        scene.game.has_headroom(),
    ensures
        after_input(scene, dt, actions).game.wf(),
        after_hazards(scene, dt, actions, luck).game.wf(),
        endured(
            after_input(scene, dt, actions).game,
            after_hazards(scene, dt, actions, luck).game,
        ),
        rules::played(scene, dt, actions, luck) == rules::resolved(
            after_hazards(scene, dt, actions, luck),
        ),
        forall|i: int|
            0 <= i < after_hazards(scene, dt, actions, luck).game.bombs.len() ==> !rules::due(
                #[trigger] after_hazards(scene, dt, actions, luck).game.bombs[i],
            ),
{
    let worn = rules::shields_passed(scene, dt);
    let n = scene.game.players.len();
    rules::lemma_shields_passed(scene, dt);
    rules::lemma_all_acted(worn, dt, actions, n);
    rules::lemma_all_acted_score(worn, dt, actions, n);
    let moved = after_input(scene, dt, actions);
    let burnt = rules::fuses_passed(moved, dt);
    rules::lemma_fuses_passed(moved, dt);
    assert(rules::solvent(burnt.game)) by {
        assert forall|i: int| 0 <= i < burnt.game.players.len() implies (
        #[trigger] burnt.game.players[i]).score + rules::count(burnt.game.enemies, rules::living())
            * rules::SCORE_PER_ENEMY <= u32::MAX by {
            assert(moved.game.players[i].score <= worn.game.players[i].score
                + rules::SCORE_PER_ITEM);
            assert(rules::player_has_headroom(
                worn.game.players[i],
                rules::count(worn.game.enemies, rules::living()),
            ));
        }
    }
    assert(endured(moved.game, burnt.game));
    lemma_detonated_endured(burnt, luck.drops);
    let blown = rules::detonated(burnt, luck.drops);
    lemma_endured_both(moved.game, burnt.game, blown.game);
    rules::lemma_enemies_passed(blown.game, dt, luck.turns);
    lemma_enemies_passed_endured(blown.game, dt, luck.turns);
    let turned = Scene { game: rules::enemies_passed(blown.game, dt, luck.turns), ..blown };
    lemma_endured_both(moved.game, blown.game, turned.game);
    lemma_all_met_endured(turned, turned.game.players.len());
    let met = rules::all_met(turned, turned.game.players.len());
    lemma_endured_both(moved.game, turned.game, met.game);
    assert(met == after_hazards(scene, dt, actions, luck));
}

/// What a player's own input can do to the player's standing: points are not
/// lost, nobody dies or comes back, and only the hidden command switches forced
/// invincibility.
pub open spec fn unharmed(before: Player, after: Player, toggled: bool) -> bool {
    &&& after.alive == before.alive
    &&& after.lives == before.lives
    &&& after.score >= before.score
    &&& after.god_mode == (before.god_mode != toggled)
}

/// What the input of one player does to the player and the board.
proof fn lemma_acted_unharmed(scene: Scene, idx: int, dt: Nanos, action: Action)
    requires
        scene.game.wf(),
        0 <= idx < scene.game.players.len(),
        rules::player_has_headroom(scene.game.players[idx], 0),
    ensures
        unharmed(
            scene.game.players[idx],
            rules::acted(scene, idx, dt, action).game.players[idx],
            action is ToggleGodMode,
        ),
        eroded(scene.game.map, rules::acted(scene, idx, dt, action).game.map),
{
    let after = rules::acted(scene, idx, dt, action).game;
    if after.map != scene.game.map {
        let pos = after.players[idx].pos;
        assert forall|other: Coord|
            #![trigger after.map.tile(other)]
            {
                &&& after.map.tile(other) is Wall <==> scene.game.map.tile(other) is Wall
                &&& after.map.tile(other) is Block ==> scene.game.map.tile(other) is Block
            } by {
            if other != pos {
                lemma_with_tile_elsewhere(scene.game.map, pos, Tile::Empty, other);
            } else {
                lemma_item_taken_once(scene.game.map, pos);
            }
        }
    }
}

/// What the input of the first players does to the players and the board.
proof fn lemma_all_acted_unharmed(scene: Scene, dt: Nanos, actions: Seq<Action>, upto: nat)
    requires
        scene.game.wf(),
        scene.game.has_headroom(),
        upto <= scene.game.players.len(),
    ensures
        eroded(scene.game.map, rules::all_acted(scene, dt, actions, upto).game.map),
        forall|j: int|
            0 <= j < scene.game.players.len() ==> unharmed(
                scene.game.players[j],
                #[trigger] rules::all_acted(scene, dt, actions, upto).game.players[j],
                j < upto && rules::action_of(actions, j) is ToggleGodMode,
            ),
    decreases upto,
{
    if upto > 0 {
        let before = rules::all_acted(scene, dt, actions, (upto - 1) as nat);
        let idx = upto - 1;
        let action = rules::action_of(actions, idx);
        let after = rules::acted(before, idx, dt, action);
        rules::lemma_all_acted(scene, dt, actions, idx as nat);
        lemma_all_acted_unharmed(scene, dt, actions, idx as nat);
        assert(before.game.players[idx] == scene.game.players[idx]);
        assert(rules::player_has_headroom(
            scene.game.players[idx],
            rules::count(scene.game.enemies, rules::living()),
        ));
        lemma_acted_unharmed(before, idx, dt, action);
        rules::lemma_acted(before, idx, dt, action);
        assert forall|j: int| 0 <= j < scene.game.players.len() implies unharmed(
            scene.game.players[j],
            #[trigger] after.game.players[j],
            j < upto && rules::action_of(actions, j) is ToggleGodMode,
        ) by {
            if j != idx {
                assert(after.game.players[j] == before.game.players[j]);
                assert(unharmed(
                    scene.game.players[j],
                    before.game.players[j],
                    j < idx && rules::action_of(actions, j) is ToggleGodMode,
                ));
            }
        }
        assert forall|pos: Coord|
            #![trigger after.game.map.tile(pos)]
            {
                &&& after.game.map.tile(pos) is Wall <==> scene.game.map.tile(pos) is Wall
                &&& after.game.map.tile(pos) is Block ==> scene.game.map.tile(pos) is Block
            } by {
            assert(before.game.map.tile(pos) is Wall <==> scene.game.map.tile(pos) is Wall);
        }
    }
}

/// In a tick of play the board only wears down: walls stand, blocks do not come
/// up, and what was walkable stays so.
pub proof fn lemma_board_only_wears_down(scene: Scene, dt: Nanos, actions: Seq<Action>, luck: Luck)
    requires
        scene.game.wf(),
        scene.game.has_headroom(),
    ensures
        eroded(scene.game.map, rules::played(scene, dt, actions, luck).game.map),
{
    let worn = rules::shields_passed(scene, dt);
    rules::lemma_shields_passed(scene, dt);
    lemma_all_acted_unharmed(worn, dt, actions, scene.game.players.len());
    lemma_hazards_endured(scene, dt, actions, luck);
    let moved = after_input(scene, dt, actions).game.map;
    let after = after_hazards(scene, dt, actions, luck).game.map;
    assert forall|pos: Coord|
        #![trigger after.tile(pos)]
        {
            &&& after.tile(pos) is Wall <==> scene.game.map.tile(pos) is Wall
            &&& after.tile(pos) is Block ==> scene.game.map.tile(pos) is Block
        } by {
        assert(moved.tile(pos) is Wall <==> scene.game.map.tile(pos) is Wall);
    }
}

/// In a tick of play nobody gains a life or loses more than one, nobody loses
/// points, and who is forced invincible throughout stays unharmed.
pub proof fn lemma_players_in_a_tick(
    scene: Scene,
    dt: Nanos,
    actions: Seq<Action>,
    luck: Luck,
    i: int,
)
    requires
        scene.game.wf(),
        scene.game.has_headroom(),
        0 <= i < scene.game.players.len(),
    ensures
        ({
            let before = scene.game.players[i];
            let after = rules::played(scene, dt, actions, luck).game.players[i];
            &&& after.lives <= before.lives <= after.lives + 1
            &&& after.score >= before.score
            &&& before.god_mode && !(rules::action_of(actions, i) is ToggleGodMode) ==> after.god_mode
                && after.lives == before.lives && (before.alive ==> after.alive)
        }),
{
    let worn = rules::shields_passed(scene, dt);
    rules::lemma_shields_passed(scene, dt);
    lemma_all_acted_unharmed(worn, dt, actions, scene.game.players.len());
    lemma_hazards_endured(scene, dt, actions, luck);
    let moved = after_input(scene, dt, actions).game;
    let met = after_hazards(scene, dt, actions, luck).game;
    rules::lemma_shields_passed(scene, dt);
    rules::lemma_all_acted(worn, dt, actions, scene.game.players.len());
    assert(unharmed(
        worn.game.players[i],
        moved.players[i],
        rules::action_of(actions, i) is ToggleGodMode,
    ));
    assert(weathered(moved.players[i], met.players[i]));
}

/// A player whose time of invincibility outlasts the tick loses no life in it.
pub proof fn lemma_invincible_unharmed(
    scene: Scene,
    dt: Nanos,
    actions: Seq<Action>,
    luck: Luck,
    i: int,
)
    requires
        scene.game.wf(),
        scene.game.has_headroom(),
        0 <= i < scene.game.players.len(),
        after_input(scene, dt, actions).game.players[i].invincible(),
    ensures
        rules::played(scene, dt, actions, luck).game.players[i].lives
            == scene.game.players[i].lives,
        scene.game.players[i].alive ==> rules::played(
            scene,
            dt,
            actions,
            luck,
        ).game.players[i].alive,
{
    let worn = rules::shields_passed(scene, dt);
    rules::lemma_shields_passed(scene, dt);
    lemma_all_acted_unharmed(worn, dt, actions, scene.game.players.len());
    lemma_hazards_endured(scene, dt, actions, luck);
    let moved = after_input(scene, dt, actions).game;
    let met = after_hazards(scene, dt, actions, luck).game;
    rules::lemma_all_acted(worn, dt, actions, scene.game.players.len());
    assert(unharmed(
        worn.game.players[i],
        moved.players[i],
        rules::action_of(actions, i) is ToggleGodMode,
    ));
    assert(weathered(moved.players[i], met.players[i]));
}

/// Dead enemies stay dead, and an enemy keeps its kind.
pub proof fn lemma_enemies_in_a_tick(
    scene: Scene,
    dt: Nanos,
    actions: Seq<Action>,
    luck: Luck,
    i: int,
)
    requires
        scene.game.wf(),
        scene.game.has_headroom(),
        0 <= i < scene.game.enemies.len(),
    ensures
        carried_on(
            scene.game.enemies[i],
            rules::played(scene, dt, actions, luck).game.enemies[i],
        ),
{
    let worn = rules::shields_passed(scene, dt);
    rules::lemma_shields_passed(scene, dt);
    rules::lemma_all_acted(worn, dt, actions, scene.game.players.len());
    lemma_hazards_endured(scene, dt, actions, luck);
    let moved = after_input(scene, dt, actions).game;
    let met = after_hazards(scene, dt, actions, luck).game;
    assert(carried_on(moved.enemies[i], met.enemies[i]));
}

/// After a tick of play no bomb on the board is due: whatever was to go off, in a
/// chain or not, has gone off.
pub proof fn lemma_no_bomb_left_due(
    scene: Scene,
    dt: Nanos,
    actions: Seq<Action>,
    luck: Luck,
    i: int,
)
    requires
        scene.game.wf(),
        scene.game.has_headroom(),
        0 <= i < rules::played(scene, dt, actions, luck).game.bombs.len(),
    ensures
        !rules::due(rules::played(scene, dt, actions, luck).game.bombs[i]),
{
    lemma_hazards_endured(scene, dt, actions, luck);
    assert(!rules::due(after_hazards(scene, dt, actions, luck).game.bombs[i]));
}

/// In a match between players death is for good.
pub proof fn lemma_death_in_a_match_is_final(
    scene: Scene,
    dt: Nanos,
    actions: Seq<Action>,
    luck: Luck,
    i: int,
)
    requires
        scene.game.wf(),
        scene.game.has_headroom(),
        rules::versus(scene.game),
        0 <= i < scene.game.players.len(),
        !scene.game.players[i].alive,
    ensures
        !rules::played(scene, dt, actions, luck).game.players[i].alive,
{
    let worn = rules::shields_passed(scene, dt);
    rules::lemma_shields_passed(scene, dt);
    lemma_all_acted_unharmed(worn, dt, actions, scene.game.players.len());
    rules::lemma_all_acted(worn, dt, actions, scene.game.players.len());
    lemma_hazards_endured(scene, dt, actions, luck);
    let moved = after_input(scene, dt, actions).game;
    let met = after_hazards(scene, dt, actions, luck).game;
    assert(unharmed(
        worn.game.players[i],
        moved.players[i],
        rules::action_of(actions, i) is ToggleGodMode,
    ));
    assert(weathered(moved.players[i], met.players[i]));
}

/// How a round ends. A match is won by the only player alive and drawn when
/// nobody is; a stage is cleared when there were enemies, all are dead and every
/// player is alive; the game is over when somebody is dead without a life left.
/// The round goes on if and only if none of this holds.
pub proof fn lemma_how_rounds_end(scene: Scene)
    requires
        scene.game.screen is Playing,
        scene.game.players.len() <= usize::MAX,
    ensures
        ({
            let after = rules::resolved(scene).game;
            &&& match after.screen {
                Screen::MatchResult(Some(winner)) => rules::versus(after) && rules::sole_survivor(
                    after.players,
                    winner as int,
                ),
                Screen::MatchResult(None) => rules::versus(after) && rules::wiped_out(
                    after.players,
                ),
                Screen::Cleared => !rules::versus(after) && rules::enemies_gone(after.enemies)
                    && !rules::someone_dead(after.players),
                Screen::GameOver => !rules::versus(after) && rules::someone_out(after.players),
                Screen::Playing => if rules::versus(after) {
                    !rules::wiped_out(after.players) && forall|i: int|
                        !rules::sole_survivor(after.players, i)
                } else {
                    !rules::someone_dead(after.players) && (rules::someone_dead(scene.game.players)
                        || !rules::enemies_gone(after.enemies))
                },
                Screen::Title => false,
            }
        }),
{
    let before = scene.game.players;
    let after = rules::resolved(scene).game.players;
    if rules::versus(scene.game) {
        if exists|i: int| rules::sole_survivor(before, i) {
            let winner = choose|i: int| rules::sole_survivor(before, i);
            assert(rules::sole_survivor(before, winner));
        }
    } else {
        assert(forall|i: int| 0 <= i < before.len() ==> #[trigger] after[i] == if !before[i].alive
            && before[i].lives > 0 {
            rules::revived(before[i], rules::spawn_of(scene.game, i))
        } else {
            before[i]
        });
        if rules::someone_out(before) {
            let i = choose|i: int|
                0 <= i < before.len() && !(#[trigger] before[i]).alive && before[i].lives == 0;
            assert(!after[i].alive && after[i].lives == 0);
        } else {
            assert forall|i: int| 0 <= i < after.len() implies (#[trigger] after[i]).alive by {
                assert(before[i].alive || before[i].lives > 0);
            }
        }
    }
}

/// Players without an action do nothing, and actions beyond the last player are
/// ignored: on every screen, only what each player is asked to do counts.
pub proof fn lemma_only_own_actions_count(
    before: Scene,
    dt: Nanos,
    one: Seq<Action>,
    other: Seq<Action>,
    after: Scene,
)
    requires
        forall|i: int|
            0 <= i < before.game.players.len() ==> #[trigger] rules::action_of(one, i)
                == rules::action_of(other, i),
    ensures
        rules::ticked(before, dt, one, after) == rules::ticked(before, dt, other, after),
{
    if rules::ticked(before, dt, one, after) {
        lemma_same_tick(before, dt, one, other, after);
    }
    if rules::ticked(before, dt, other, after) {
        lemma_same_tick(before, dt, other, one, after);
    }
}

/// The actions with `Action::Idle` for everybody who has none.
pub open spec fn padded(actions: Seq<Action>, players: nat) -> Seq<Action> {
    if actions.len() < players {
        actions + Seq::new((players - actions.len()) as nat, |i: int| Action::Idle)
    } else {
        actions
    }
}

/// To leave out the actions of the last players is to let them do nothing: with
/// the same outcome of chance a tick of play comes out the same, state and sounds,
/// and on every screen the same ticks are possible.
pub proof fn lemma_missing_actions_are_idle(
    before: Scene,
    dt: Nanos,
    actions: Seq<Action>,
    luck: Luck,
    after: Scene,
)
    ensures
        rules::played(before, dt, actions, luck) == rules::played(
            before,
            dt,
            padded(actions, before.game.players.len()),
            luck,
        ),
        rules::fair(before, dt, actions, luck) == rules::fair(
            before,
            dt,
            padded(actions, before.game.players.len()),
            luck,
        ),
        rules::ticked(before, dt, actions, after) == rules::ticked(
            before,
            dt,
            padded(actions, before.game.players.len()),
            after,
        ),
{
    let all = padded(actions, before.game.players.len());
    assert forall|i: int| 0 <= i < before.game.players.len() implies #[trigger] rules::action_of(
        actions,
        i,
    ) == rules::action_of(all, i) by {
        if i < actions.len() {
            assert(all[i] == actions[i]);
        }
    }
    lemma_same_play(before, dt, actions, all, luck);
    lemma_only_own_actions_count(before, dt, actions, all, after);
}

/// What one set of actions can lead to, the same actions of every player can.
proof fn lemma_same_tick(
    before: Scene,
    dt: Nanos,
    one: Seq<Action>,
    other: Seq<Action>,
    after: Scene,
)
    requires
        forall|i: int|
            0 <= i < before.game.players.len() ==> #[trigger] rules::action_of(one, i)
                == rules::action_of(other, i),
        rules::ticked(before, dt, one, after),
    ensures
        rules::ticked(before, dt, other, after),
{
    let players = before.game.players.len();
    assert forall|i: int| 0 <= i < players implies rules::action_of(one, i)
        == #[trigger] rules::action_of(other, i) by {
        assert(rules::action_of(one, i) == rules::action_of(other, i));
    }
    if before.game.screen is Playing {
        let luck = choose|luck: Luck| #[trigger]
            rules::fair(before, dt, one, luck) && after == rules::played(before, dt, one, luck);
        lemma_same_play(before, dt, one, other, luck);
        assert(rules::fair(before, dt, other, luck));
    }
}

/// The same actions of every player lead to the same play.
proof fn lemma_same_play(
    scene: Scene,
    dt: Nanos,
    one: Seq<Action>,
    other: Seq<Action>,
    luck: Luck,
)
    requires
        forall|i: int|
            0 <= i < scene.game.players.len() ==> #[trigger] rules::action_of(one, i)
                == rules::action_of(other, i),
    ensures
        rules::played(scene, dt, one, luck) == rules::played(scene, dt, other, luck),
        rules::fair(scene, dt, one, luck) == rules::fair(scene, dt, other, luck),
{
    lemma_same_input(
        rules::shields_passed(scene, dt),
        dt,
        one,
        other,
        scene.game.players.len(),
    );
}

/// The same actions of the first players have the same effect.
proof fn lemma_same_input(
    scene: Scene,
    dt: Nanos,
    one: Seq<Action>,
    other: Seq<Action>,
    upto: nat,
)
    requires
        forall|i: int|
            0 <= i < upto ==> #[trigger] rules::action_of(one, i) == rules::action_of(other, i),
    ensures
        rules::all_acted(scene, dt, one, upto) == rules::all_acted(scene, dt, other, upto),
    decreases upto,
{
    if upto > 0 {
        lemma_same_input(scene, dt, one, other, (upto - 1) as nat);
        assert(rules::action_of(one, upto - 1) == rules::action_of(other, upto - 1));
    }
}

/// The hidden command undoes itself.
pub proof fn lemma_god_mode_twice(scene: Scene, idx: int, dt: Nanos)
    requires
        0 <= idx < scene.game.players.len(),
    ensures
        rules::acted(
            rules::acted(scene, idx, dt, Action::ToggleGodMode),
            idx,
            dt,
            Action::ToggleGodMode,
        ).game.players[idx].god_mode == scene.game.players[idx].god_mode,
{
}

// ---------------------------------------------------------------------------
// Order on the board

/// Whether everybody and everything is where it may be: players, enemies, bombs
/// and the cells where players come back to life are on walkable ground, no two
/// bombs share a cell, and no player has more bombs out than allowed.
pub open spec fn orderly(game: GameView) -> bool {
    &&& game.wf()
    &&& game.players.len() <= usize::MAX
    &&& forall|i: int|
        0 <= i < game.players.len() ==> game.map.walkable((#[trigger] game.players[i]).pos)
    &&& forall|i: int|
        0 <= i < game.players.len() ==> game.map.walkable(#[trigger] rules::spawn_of(game, i))
    &&& forall|i: int|
        0 <= i < game.enemies.len() ==> game.map.walkable((#[trigger] game.enemies[i]).pos)
    &&& forall|i: int|
        0 <= i < game.bombs.len() ==> game.map.walkable((#[trigger] game.bombs[i]).pos)
    &&& bombs_apart(game.bombs)
    &&& forall|i: int|
        0 <= i < game.players.len() ==> rules::count(game.bombs, #[trigger] rules::owned_by(i))
            <= game.players[i].bomb_capacity
}

/// Whether no two bombs share a cell.
pub open spec fn bombs_apart(bombs: Seq<Bomb>) -> bool {
    forall|i: int, j: int|
        0 <= i < j < bombs.len() ==> (#[trigger] bombs[i]).pos != (#[trigger] bombs[j]).pos
}

/// Taking an element out takes at most that one off the number.
proof fn lemma_count_remove<T>(s: Seq<T>, i: int, p: spec_fn(T) -> bool)
    requires
        0 <= i < s.len(),
    ensures
        rules::count(s.remove(i), p) <= rules::count(s, p),
    decreases s.len(),
{
    if i == s.len() - 1 {
        assert(s.remove(i) =~= s.drop_last());
    } else {
        lemma_count_remove(s.drop_last(), i, p);
        assert(s.remove(i).drop_last() =~= s.drop_last().remove(i));
        assert(s.remove(i).last() == s.last());
    }
}

/// Order is kept by input.
proof fn lemma_acted_orderly(scene: Scene, idx: int, dt: Nanos, action: Action)
    requires
        orderly(scene.game),
        0 <= idx < scene.game.players.len(),
        rules::player_has_headroom(scene.game.players[idx], 0),
    ensures
        orderly(rules::acted(scene, idx, dt, action).game),
{
    let game = scene.game;
    let after = rules::acted(scene, idx, dt, action).game;
    rules::lemma_acted(scene, idx, dt, action);
    lemma_acted_unharmed(scene, idx, dt, action);
    assert(after.players[idx].bomb_capacity >= game.players[idx].bomb_capacity);
    assert(after.map.walkable(after.players[idx].pos)) by {
        if after.map == game.map {
            assert(game.map.walkable(game.players[idx].pos));
        } else {
            lemma_item_taken_once(game.map, after.players[idx].pos);
        }
    }
    assert forall|i: int| 0 <= i < after.players.len() implies after.map.walkable(
        (#[trigger] after.players[i]).pos,
    ) by {
        if i != idx {
            lemma_eroded_stays_walkable(game.map, after.map, game.players[i].pos);
        }
    }
    assert forall|i: int| 0 <= i < after.players.len() implies after.map.walkable(
        #[trigger] rules::spawn_of(after, i),
    ) by {
        assert(rules::spawn_of(after, i) == rules::spawn_of(game, i));
        lemma_eroded_stays_walkable(game.map, after.map, rules::spawn_of(game, i));
    }
    assert forall|i: int| 0 <= i < after.enemies.len() implies after.map.walkable(
        (#[trigger] after.enemies[i]).pos,
    ) by {
        lemma_eroded_stays_walkable(game.map, after.map, game.enemies[i].pos);
    }
    assert forall|i: int| 0 <= i < after.bombs.len() implies after.map.walkable(
        (#[trigger] after.bombs[i]).pos,
    ) by {
        if i < game.bombs.len() {
            assert(after.bombs[i] == game.bombs[i]);
            lemma_eroded_stays_walkable(game.map, after.map, game.bombs[i].pos);
        } else {
            assert(after.bombs[i].pos == game.players[idx].pos);
        }
    }
    assert forall|i: int| 0 <= i < after.players.len() implies rules::count(
        after.bombs,
        #[trigger] rules::owned_by(i),
    ) <= after.players[i].bomb_capacity by {
        assert(rules::count(game.bombs, rules::owned_by(i)) <= game.players[i].bomb_capacity);
        if after.bombs.len() > game.bombs.len() {
            let own = rules::count(game.bombs, rules::owned_by(idx));
            assert(own <= game.players[idx].bomb_capacity);
            assert((own as u32) < game.players[idx].bomb_capacity);
            assert(after.bombs.drop_last() =~= game.bombs);
        }
    }
    assert forall|i: int, j: int| 0 <= i < j < after.bombs.len() implies (
    #[trigger] after.bombs[i]).pos != (#[trigger] after.bombs[j]).pos by {
        assert(after.bombs[i] == game.bombs[i]);
        if j < game.bombs.len() {
            assert(after.bombs[j] == game.bombs[j]);
        }
    }
}

/// Order is kept by the input of all players.
proof fn lemma_all_acted_orderly(scene: Scene, dt: Nanos, actions: Seq<Action>, upto: nat)
    requires
        orderly(scene.game),
        scene.game.has_headroom(),
        upto <= scene.game.players.len(),
    ensures
        orderly(rules::all_acted(scene, dt, actions, upto).game),
    decreases upto,
{
    if upto > 0 {
        let before = rules::all_acted(scene, dt, actions, (upto - 1) as nat);
        lemma_all_acted_orderly(scene, dt, actions, (upto - 1) as nat);
        rules::lemma_all_acted(scene, dt, actions, (upto - 1) as nat);
        assert(before.game.players[upto - 1] == scene.game.players[upto - 1]);
        assert(rules::player_has_headroom(
            scene.game.players[upto - 1],
            rules::count(scene.game.enemies, rules::living()),
        ));
        lemma_acted_orderly(before, upto - 1, dt, rules::action_of(actions, upto - 1));
    }
}

/// Whether the bombs of the one are those of the other, apart from their fuses.
spec fn same_bombs(one: Seq<Bomb>, other: Seq<Bomb>) -> bool {
    &&& one.len() == other.len()
    &&& forall|i: int|
        0 <= i < one.len() ==> (#[trigger] one[i]).pos == other[i].pos && one[i].owner
            == other[i].owner
}

/// Order is kept by what happens to the players and the board, as long as the
/// bombs stay and the enemies are where they may be.
proof fn lemma_endured_orderly(before: GameView, after: GameView)
    requires
        orderly(before),
        after.wf(),
        endured(before, after),
        same_bombs(before.bombs, after.bombs),
        forall|i: int|
            0 <= i < after.enemies.len() ==> after.map.walkable((#[trigger] after.enemies[i]).pos),
    ensures
        orderly(after),
{
    assert forall|i: int| 0 <= i < after.players.len() implies after.map.walkable(
        (#[trigger] after.players[i]).pos,
    ) by {
        assert(weathered(before.players[i], after.players[i]));
        lemma_eroded_stays_walkable(before.map, after.map, before.players[i].pos);
    }
    assert forall|i: int| 0 <= i < after.players.len() implies after.map.walkable(
        #[trigger] rules::spawn_of(after, i),
    ) by {
        assert(rules::spawn_of(after, i) == rules::spawn_of(before, i));
        lemma_eroded_stays_walkable(before.map, after.map, rules::spawn_of(before, i));
    }
    assert forall|i: int| 0 <= i < after.bombs.len() implies after.map.walkable(
        (#[trigger] after.bombs[i]).pos,
    ) by {
        assert(before.bombs[i].pos == after.bombs[i].pos);
        lemma_eroded_stays_walkable(before.map, after.map, before.bombs[i].pos);
    }
    assert forall|i: int| 0 <= i < after.players.len() implies rules::count(
        after.bombs,
        #[trigger] rules::owned_by(i),
    ) <= after.players[i].bomb_capacity by {
        assert(weathered(before.players[i], after.players[i]));
        rules::lemma_count_same(before.bombs, after.bombs, rules::owned_by(i));
        assert(rules::count(before.bombs, rules::owned_by(i)) <= before.players[i].bomb_capacity);
    }
    assert forall|i: int, j: int| 0 <= i < j < after.bombs.len() implies (
    #[trigger] after.bombs[i]).pos != (#[trigger] after.bombs[j]).pos by {
        assert(before.bombs[i].pos == after.bombs[i].pos);
        assert(before.bombs[j].pos == after.bombs[j].pos);
    }
}

/// Order is kept by a blast.
proof fn lemma_blown_up_orderly(scene: Scene, i: int, drops: spec_fn(Coord) -> Option<ItemKind>)
    requires
        orderly(scene.game),
        rules::solvent(scene.game),
        0 <= i < scene.game.bombs.len(),
    ensures
        orderly(rules::blown_up(scene, i, drops).game),
{
    let game = scene.game;
    let after = rules::blown_up(scene, i, drops).game;
    let fewer = GameView { bombs: game.bombs.remove(i), ..game };
    rules::lemma_blown_up(scene, i, drops);
    lemma_blown_up_endured(scene, i, drops);
    assert forall|j: int| 0 <= j < fewer.bombs.len() implies #[trigger] fewer.bombs[j] == game.bombs[if j
        < i {
        j
    } else {
        j + 1
    }] by {}
    assert forall|k: int| 0 <= k < fewer.players.len() implies rules::count(
        fewer.bombs,
        #[trigger] rules::owned_by(k),
    ) <= fewer.players[k].bomb_capacity by {
        lemma_count_remove(game.bombs, i, rules::owned_by(k));
        assert(rules::count(game.bombs, rules::owned_by(k)) <= game.players[k].bomb_capacity);
    }
    assert forall|k: int| 0 <= k < fewer.players.len() implies fewer.map.walkable(
        #[trigger] rules::spawn_of(fewer, k),
    ) by {
        assert(rules::spawn_of(fewer, k) == rules::spawn_of(game, k));
    }
    assert(orderly(fewer));
    assert forall|k: int| 0 <= k < after.enemies.len() implies after.map.walkable(
        (#[trigger] after.enemies[k]).pos,
    ) by {
        lemma_eroded_stays_walkable(game.map, after.map, game.enemies[k].pos);
    }
    assert(endured(fewer, after));
    lemma_endured_orderly(fewer, after);
}

/// Order is kept by all the blasts of a tick.
proof fn lemma_detonated_orderly(scene: Scene, drops: spec_fn(Coord) -> Option<ItemKind>)
    requires
        orderly(scene.game),
        rules::solvent(scene.game),
    ensures
        orderly(rules::detonated(scene, drops).game),
    decreases scene.game.bombs.len(),
{
    if exists|i: int| rules::first_due(scene.game.bombs, i) {
        let i = choose|i: int| rules::first_due(scene.game.bombs, i);
        rules::lemma_blown_up(scene, i, drops);
        lemma_blown_up_orderly(scene, i, drops);
        rules::lemma_detonated_step(scene, i, drops);
        lemma_detonated_orderly(rules::blown_up(scene, i, drops), drops);
    }
}

/// Order is kept by the meetings with enemies.
proof fn lemma_all_met_orderly(scene: Scene, upto: nat)
    requires
        orderly(scene.game),
        rules::solvent(scene.game),
        upto <= scene.game.players.len(),
    ensures
        orderly(rules::all_met(scene, upto).game),
    decreases upto,
{
    if upto > 0 {
        let before = rules::all_met(scene, (upto - 1) as nat);
        let after = rules::met(before, upto - 1);
        lemma_all_met_orderly(scene, (upto - 1) as nat);
        lemma_all_met_endured(scene, (upto - 1) as nat);
        lemma_all_met_endured(scene, upto);
        lemma_met_endured(before, upto - 1);
        assert forall|k: int| 0 <= k < after.game.enemies.len() implies after.game.map.walkable(
            (#[trigger] after.game.enemies[k]).pos,
        ) by {
            assert(before.game.map.walkable(before.game.enemies[k].pos));
        }
        lemma_endured_orderly(before.game, after.game);
    }
}

/// Order is kept by the end of a round.
proof fn lemma_resolved_orderly(scene: Scene)
    requires
        orderly(scene.game),
    ensures
        orderly(rules::resolved(scene).game),
{
    let game = scene.game;
    let after = rules::resolved(scene).game;
    rules::lemma_resolved(scene);
    assert forall|i: int| 0 <= i < after.players.len() implies after.map.walkable(
        (#[trigger] after.players[i]).pos,
    ) && after.players[i].bomb_capacity == game.players[i].bomb_capacity by {
        assert(game.map.walkable(game.players[i].pos));
        assert(game.map.walkable(rules::spawn_of(game, i)));
    }
    assert forall|i: int| 0 <= i < after.players.len() implies after.map.walkable(
        #[trigger] rules::spawn_of(after, i),
    ) by {
        assert(rules::spawn_of(after, i) == rules::spawn_of(game, i));
    }
    assert forall|i: int| 0 <= i < after.players.len() implies rules::count(
        after.bombs,
        #[trigger] rules::owned_by(i),
    ) <= after.players[i].bomb_capacity by {
        assert(rules::count(game.bombs, rules::owned_by(i)) <= game.players[i].bomb_capacity);
        assert(after.map.walkable(after.players[i].pos));
    }
}

/// A tick of play keeps order on the board: nobody ends up in a wall or a block,
/// no two bombs share a cell, and no player has more bombs out than allowed.
pub proof fn lemma_play_keeps_order(scene: Scene, dt: Nanos, actions: Seq<Action>, luck: Luck)
    requires
        orderly(scene.game),
        scene.game.has_headroom(),
    ensures
        orderly(rules::played(scene, dt, actions, luck).game),
{
    let worn = rules::shields_passed(scene, dt);
    let n = scene.game.players.len();
    rules::lemma_shields_passed(scene, dt);
    assert(orderly(worn.game)) by {
        assert forall|i: int| 0 <= i < n implies worn.game.map.walkable(
            (#[trigger] worn.game.players[i]).pos,
        ) && worn.game.players[i].bomb_capacity == scene.game.players[i].bomb_capacity by {
            assert(scene.game.map.walkable(scene.game.players[i].pos));
        }
        assert forall|i: int| 0 <= i < n implies worn.game.map.walkable(
            #[trigger] rules::spawn_of(worn.game, i),
        ) by {
            assert(rules::spawn_of(worn.game, i) == rules::spawn_of(scene.game, i));
        }
        assert forall|i: int| 0 <= i < n implies rules::count(
            worn.game.bombs,
            #[trigger] rules::owned_by(i),
        ) <= worn.game.players[i].bomb_capacity by {
            assert(rules::count(scene.game.bombs, rules::owned_by(i))
                <= scene.game.players[i].bomb_capacity);
            assert(worn.game.map.walkable(worn.game.players[i].pos));
        }
    }
    lemma_all_acted_orderly(worn, dt, actions, n);
    rules::lemma_all_acted(worn, dt, actions, n);
    rules::lemma_all_acted_score(worn, dt, actions, n);
    let moved = after_input(scene, dt, actions);
    let burnt = rules::fuses_passed(moved, dt);
    rules::lemma_fuses_passed(moved, dt);
    assert(endured(moved.game, burnt.game));
    lemma_endured_orderly(moved.game, burnt.game);
    assert(rules::solvent(burnt.game)) by {
        assert forall|i: int| 0 <= i < burnt.game.players.len() implies (
        #[trigger] burnt.game.players[i]).score + rules::count(burnt.game.enemies, rules::living())
            * rules::SCORE_PER_ENEMY <= u32::MAX by {
            assert(moved.game.players[i].score <= worn.game.players[i].score
                + rules::SCORE_PER_ITEM);
            assert(rules::player_has_headroom(
                worn.game.players[i],
                rules::count(worn.game.enemies, rules::living()),
            ));
        }
    }
    lemma_detonated_orderly(burnt, luck.drops);
    lemma_detonated_endured(burnt, luck.drops);
    let blown = rules::detonated(burnt, luck.drops);
    let turned = Scene { game: rules::enemies_passed(blown.game, dt, luck.turns), ..blown };
    rules::lemma_enemies_passed(blown.game, dt, luck.turns);
    lemma_enemies_passed_endured(blown.game, dt, luck.turns);
    assert forall|k: int| 0 <= k < turned.game.enemies.len() implies turned.game.map.walkable(
        (#[trigger] turned.game.enemies[k]).pos,
    ) by {
        assert(blown.game.map.walkable(blown.game.enemies[k].pos));
    }
    lemma_endured_orderly(blown.game, turned.game);
    lemma_all_met_orderly(turned, turned.game.players.len());
    lemma_resolved_orderly(rules::all_met(turned, turned.game.players.len()));
}

/// A game starts out in order on every new board that leaves room for the start
/// area.
pub proof fn lemma_new_games_are_orderly(map: MapView, width: int, height: int, size: nat)
    requires
        crate::game::map::freshly_laid(map, width, height),
        3 <= width <= geometry::COORD_LIMIT,
        3 <= height <= geometry::COORD_LIMIT,
        size <= usize::MAX,
    ensures
        orderly(rules::solo_game(map)),
        orderly(rules::versus_game(map, size)),
{
    lemma_fresh_board(map, width, height, spawn::PLAYER_START);
    rules::lemma_solo_game(map);
    rules::lemma_versus_game(map, size);
    let solo = rules::solo_game(map);
    let spawns = spawn::spawns_away(map, spawn::enemy_kinds().len(), spawn::PLAYER_START);
    spawn::lemma_spawns_away(map, spawn::enemy_kinds().len(), spawn::PLAYER_START);
    assert forall|i: int| 0 <= i < solo.enemies.len() implies map.walkable(
        (#[trigger] solo.enemies[i]).pos,
    ) by {
        assert(map.walkable(spawns[i]));
    }
    let versus = rules::versus_game(map, size);
    let cells = spawn::player_spawns(map, size);
    spawn::lemma_player_spawns(map, size);
    assert forall|i: int| 0 <= i < versus.players.len() implies map.walkable(
        (#[trigger] versus.players[i]).pos,
    ) by {
        assert(map.walkable(cells[i]));
    }
    assert forall|i: int| 0 <= i < versus.players.len() implies map.walkable(
        #[trigger] rules::spawn_of(versus, i),
    ) by {
        assert(map.walkable(cells[i]));
    }
}

/// In every game that was in order, everybody on the board stays out of walls and
/// blocks for one more tick, whatever screen the game is on.
pub proof fn lemma_ticks_keep_order(before: Scene, dt: Nanos, actions: Seq<Action>, after: Scene)
    requires
        orderly(before.game),
        before.game.screen is Playing ==> before.game.has_headroom(),
        rules::ticked(before, dt, actions, after),
    ensures
        orderly(after.game),
{
    if before.game.screen is Playing {
        let luck = choose|luck: Luck| #[trigger]
            rules::fair(before, dt, actions, luck) && after == rules::played(
                before,
                dt,
                actions,
                luck,
            );
        lemma_play_keeps_order(before, dt, actions, luck);
    } else if before.game.screen is Title && rules::starts(
        actions,
        before.game.players.len(),
    ) {
        let map = choose|map: MapView| #[trigger]
            crate::game::map::freshly_laid(
                map,
                rules::MAP_WIDTH as int,
                rules::MAP_HEIGHT as int,
            ) && after == rules::started(before, map);
        lemma_new_games_are_orderly(
            map,
            rules::MAP_WIDTH as int,
            rules::MAP_HEIGHT as int,
            before.game.players.len(),
        );
        lemma_screen_is_no_matter(rules::solo_game(map), Screen::Playing);
        lemma_screen_is_no_matter(
            rules::versus_game(map, before.game.players.len()),
            Screen::Playing,
        );
    } else {
        lemma_screen_is_no_matter(before.game, Screen::Title);
    }
}

/// Order does not depend on the screen.
proof fn lemma_screen_is_no_matter(game: GameView, screen: Screen)
    requires
        orderly(game),
    ensures
        orderly(GameView { screen, ..game }),
{
    let other = GameView { screen, ..game };
    assert forall|i: int| 0 <= i < other.players.len() implies other.map.walkable(
        #[trigger] rules::spawn_of(other, i),
    ) by {
        assert(game.map.walkable(rules::spawn_of(game, i)));
    }
}

/// A player who leaves the game leaves order behind.
pub proof fn lemma_retiring_keeps_order(game: GameView, idx: int)
    requires
        orderly(game),
    ensures
        orderly(rules::retired(game, idx)),
{
    let after = rules::retired(game, idx);
    assert forall|i: int| 0 <= i < after.players.len() implies after.map.walkable(
        (#[trigger] after.players[i]).pos,
    ) && after.players[i].bomb_capacity == game.players[i].bomb_capacity by {
        assert(game.map.walkable(game.players[i].pos));
    }
    assert forall|i: int| 0 <= i < after.players.len() implies geometry::in_range(
        (#[trigger] after.players[i]).pos,
    ) by {
        assert(geometry::in_range(game.players[i].pos));
    }
    assert forall|i: int| 0 <= i < after.players.len() implies after.map.walkable(
        #[trigger] rules::spawn_of(after, i),
    ) by {
        assert(game.map.walkable(rules::spawn_of(game, i)));
    }
    assert forall|i: int| 0 <= i < after.players.len() implies rules::count(
        after.bombs,
        #[trigger] rules::owned_by(i),
    ) <= after.players[i].bomb_capacity by {
        assert(rules::count(game.bombs, rules::owned_by(i)) <= game.players[i].bomb_capacity);
        assert(after.map.walkable(after.players[i].pos));
    }
}

// ---------------------------------------------------------------------------
// Moves

/// Whether the two cells are the same or next to each other.
pub open spec fn within_a_step(one: Coord, other: Coord) -> bool {
    geometry::distance(one, other) <= 1
}

/// The input of one player takes the player one cell at most.
proof fn lemma_acted_one_step(scene: Scene, idx: int, dt: Nanos, action: Action)
    requires
        scene.game.wf(),
        0 <= idx < scene.game.players.len(),
    ensures
        within_a_step(
            scene.game.players[idx].pos,
            rules::acted(scene, idx, dt, action).game.players[idx].pos,
        ),
{
    assert(geometry::in_range(scene.game.players[idx].pos));
}

/// The input of the first players takes each player one cell at most.
proof fn lemma_all_acted_one_step(
    scene: Scene,
    dt: Nanos,
    actions: Seq<Action>,
    upto: nat,
    i: int,
)
    requires
        scene.game.wf(),
        upto <= scene.game.players.len(),
        0 <= i < scene.game.players.len(),
    ensures
        within_a_step(
            scene.game.players[i].pos,
            rules::all_acted(scene, dt, actions, upto).game.players[i].pos,
        ),
    decreases upto,
{
    if upto > 0 {
        let before = rules::all_acted(scene, dt, actions, (upto - 1) as nat);
        let action = rules::action_of(actions, upto - 1);
        lemma_all_acted_one_step(scene, dt, actions, (upto - 1) as nat, i);
        rules::lemma_all_acted(scene, dt, actions, (upto - 1) as nat);
        rules::lemma_acted(before, upto - 1, dt, action);
        lemma_acted_one_step(before, upto - 1, dt, action);
        if i == upto - 1 {
            assert(before.game.players[i] == scene.game.players[i]);
        } else {
            assert(rules::acted(before, upto - 1, dt, action).game.players[i]
                == before.game.players[i]);
        }
    }
}

/// In a tick of play nobody moves farther than one cell, but for those who come
/// back to life where they started.
pub proof fn lemma_one_cell_a_tick(
    scene: Scene,
    dt: Nanos,
    actions: Seq<Action>,
    luck: Luck,
    i: int,
)
    requires
        scene.game.wf(),
        scene.game.has_headroom(),
        0 <= i < scene.game.players.len(),
    ensures
        ({
            let before = scene.game.players[i];
            let after = rules::played(scene, dt, actions, luck).game.players[i];
            within_a_step(before.pos, after.pos) || after.pos == rules::spawn_of(scene.game, i)
        }),
{
    let worn = rules::shields_passed(scene, dt);
    rules::lemma_shields_passed(scene, dt);
    rules::lemma_all_acted(worn, dt, actions, scene.game.players.len());
    lemma_all_acted_one_step(worn, dt, actions, scene.game.players.len(), i);
    lemma_hazards_endured(scene, dt, actions, luck);
    let moved = after_input(scene, dt, actions).game;
    let met = after_hazards(scene, dt, actions, luck).game;
    assert(worn.game.players[i].pos == scene.game.players[i].pos);
    assert(weathered(moved.players[i], met.players[i]));
    assert(rules::spawn_of(met, i) == rules::spawn_of(scene.game, i));
}

/// Who walks faster waits no longer for the next move.
pub proof fn lemma_faster_waits_less(slow: u32, fast: u32)
    requires
        slow <= fast,
    ensures
        0 <= rules::move_interval(fast) <= rules::move_interval(slow),
{
    let one: int = if slow < 100 {
        100
    } else {
        slow as int
    };
    let other: int = if fast < 100 {
        100
    } else {
        fast as int
    };
    assert(0 <= 120_000_000_000int / other <= 120_000_000_000int / one <= 1_200_000_000) by (nonlinear_arith)
        requires
            100 <= one <= other,
    ;
}

// ---------------------------------------------------------------------------
// Chance

/// Whether there is no block on the board.
pub open spec fn no_blocks(map: MapView) -> bool {
    forall|pos: Coord| !((#[trigger] map.tile(pos)) is Block)
}

/// Without blocks it does not matter to blasts what blocks would leave behind.
proof fn lemma_detonated_without_chance(
    scene: Scene,
    one: spec_fn(Coord) -> Option<ItemKind>,
    other: spec_fn(Coord) -> Option<ItemKind>,
)
    requires
        scene.game.wf(),
        no_blocks(scene.game.map),
    ensures
        rules::detonated(scene, one) == rules::detonated(scene, other),
    decreases scene.game.bombs.len(),
{
    if exists|i: int| rules::first_due(scene.game.bombs, i) {
        let i = choose|i: int| rules::first_due(scene.game.bombs, i);
        let bomb = scene.game.bombs[i];
        let cells = entities::blast(bomb.pos, bomb.power as nat, scene.game.map);
        let next = rules::blown_up(scene, i, one);
        rules::lemma_blown_up(scene, i, one);
        assert forall|pos: Coord| !((#[trigger] next.game.map.tile(pos)) is Block) by {
            rules::lemma_cleared_tile(scene.game.map, cells, one, pos);
            assert(!(scene.game.map.tile(pos) is Block));
        }
        rules::lemma_blown_up_agree(scene, i, one, other);
        rules::lemma_detonated_step(scene, i, one);
        rules::lemma_detonated_step(scene, i, other);
        lemma_detonated_without_chance(next, one, other);
    }
}

/// Chance has a say in a tick of play only through blocks and live enemies: where
/// there are none, the tick comes out the same whatever the draws.
pub proof fn lemma_chance_needs_blocks_or_enemies(
    scene: Scene,
    dt: Nanos,
    actions: Seq<Action>,
    one: Luck,
    other: Luck,
)
    requires
        scene.game.wf(),
        scene.game.has_headroom(),
        no_blocks(scene.game.map),
        forall|i: int| 0 <= i < scene.game.enemies.len() ==> !(#[trigger] scene.game.enemies[i]).alive,
    ensures
        rules::played(scene, dt, actions, one) == rules::played(scene, dt, actions, other),
{
    let worn = rules::shields_passed(scene, dt);
    let n = scene.game.players.len();
    rules::lemma_shields_passed(scene, dt);
    rules::lemma_all_acted(worn, dt, actions, n);
    rules::lemma_all_acted_score(worn, dt, actions, n);
    lemma_all_acted_unharmed(worn, dt, actions, n);
    let moved = after_input(scene, dt, actions);
    let burnt = rules::fuses_passed(moved, dt);
    rules::lemma_fuses_passed(moved, dt);
    assert forall|pos: Coord| !((#[trigger] burnt.game.map.tile(pos)) is Block) by {
        assert(moved.game.map.tile(pos) is Block ==> worn.game.map.tile(pos) is Block);
        assert(!(scene.game.map.tile(pos) is Block));
    }
    lemma_detonated_without_chance(burnt, one.drops, other.drops);
    let blown = rules::detonated(burnt, one.drops);
    assert(rules::solvent(burnt.game)) by {
        assert forall|i: int| 0 <= i < burnt.game.players.len() implies (
        #[trigger] burnt.game.players[i]).score + rules::count(burnt.game.enemies, rules::living())
            * rules::SCORE_PER_ENEMY <= u32::MAX by {
            assert(moved.game.players[i].score <= worn.game.players[i].score
                + rules::SCORE_PER_ITEM);
            assert(rules::player_has_headroom(
                worn.game.players[i],
                rules::count(worn.game.enemies, rules::living()),
            ));
        }
    }
    lemma_detonated_endured(burnt, one.drops);
    assert forall|i: int| 0 <= i < blown.game.enemies.len() implies !(
    #[trigger] blown.game.enemies[i]).alive by {
        assert(carried_on(burnt.game.enemies[i], blown.game.enemies[i]));
        assert(!scene.game.enemies[i].alive);
    }
    assert(rules::enemies_passed(blown.game, dt, one.turns).enemies =~= rules::enemies_passed(
        blown.game,
        dt,
        other.turns,
    ).enemies);
}

// ---------------------------------------------------------------------------
// Screens

/// The title screen waits for a player to press a key other than the one for
/// leaving.
pub proof fn lemma_title_waits(before: Scene, dt: Nanos, actions: Seq<Action>, after: Scene)
    requires
        before.game.screen is Title,
        forall|i: int|
            0 <= i < before.game.players.len() ==> (#[trigger] rules::action_of(actions, i)) is Idle
                || rules::action_of(actions, i) is Quit,
        rules::ticked(before, dt, actions, after),
    ensures
        after == before,
{
}

/// Result screens stay until a player presses the bomb key, and then lead to the
/// title, with its music.
pub proof fn lemma_results_stay(before: Scene, dt: Nanos, actions: Seq<Action>, after: Scene)
    requires
        before.game.screen is Cleared || before.game.screen is GameOver
            || before.game.screen is MatchResult,
        rules::ticked(before, dt, actions, after),
    ensures
        after.game.screen is Title <==> exists|i: int|
            0 <= i < before.game.players.len() && (#[trigger] rules::action_of(
                actions,
                i,
            )) is PlaceBomb,
        !(after.game.screen is Title) ==> after == before,
        after.game.screen is Title ==> after == rules::left(before),
        after.game == (GameView { screen: after.game.screen, ..before.game }),
{
}

/// A game starts with everybody fresh: full lives, no points, no bombs, no blasts.
/// A lone player meets enemies; several players meet each other, as many as before
/// unless the board has no room for them.
pub proof fn lemma_games_start_fresh(before: Scene, map: MapView)
    requires
        spawn::measurable(map),
    ensures
        ({
            let after = rules::started(before, map).game;
            &&& after.screen is Playing
            &&& after.bombs.len() == 0
            &&& after.explosions.len() == 0
            &&& forall|i: int|
                0 <= i < after.players.len() ==> #[trigger] after.players[i] == Player::fresh(
                    rules::spawn_of(after, i),
                )
            &&& before.game.players.len() <= 1 ==> after.players.len() == 1
            &&& before.game.players.len() > 1 ==> after.enemies.len() == 0 && after.players.len()
                <= before.game.players.len()
            &&& before.game.players.len() > 1 && after.players.len() < before.game.players.len()
                ==> forall|pos: Coord| #[trigger]
                map.walkable(pos) ==> after.spawn_points.contains(pos)
        }),
{
    spawn::lemma_player_spawns(map, before.game.players.len());
}

/// Blasts do not outlast their time: of those that fade, only such are left as had
/// more than that time to go.
pub proof fn lemma_blasts_fade(
    explosions: Seq<entities::ExplosionView>,
    dt: Nanos,
    explosion: entities::ExplosionView,
)
    requires
        rules::faded(explosions, dt).contains(explosion),
    ensures
        explosion.remaining > 0,
        exists|i: int|
            0 <= i < explosions.len() && explosion == rules::cooler(#[trigger] explosions[i], dt),
{
    let cooled = explosions.map_values(
        |explosion: entities::ExplosionView| rules::cooler(explosion, dt),
    );
    cooled.lemma_filter_contains_rev(
        |explosion: entities::ExplosionView| explosion.remaining > 0,
        explosion,
    );
}

} // verus!
