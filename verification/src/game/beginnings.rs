//! How boards are laid out, and how games begin and are left.

use vstd::prelude::*;

use crate::audio::AudioCommand;
use crate::game::entities::{EnemyKind, Player};
use crate::game::geometry;
use crate::game::map::MapView;
use crate::game::rules;
use crate::game::rules::{GameView, Scene};
use crate::game::spawn;
use crate::types;
use crate::types::{Action, Bgm, Coord, Direction, ItemKind, Nanos, Screen, Tile};

verus! {

// ---------------------------------------------------------------------------
// The board

/// Inside the board the tile at a cell is the one in the grid; outside there is
/// wall. Only free cells and items can be walked on.
pub proof fn lemma_tiles(map: MapView, pos: Coord)
    ensures
        0 <= pos.0 < map.height && 0 <= pos.1 < map.width ==> map.tile(pos)
            == map.tiles[pos.0 as int][pos.1 as int],
        pos.0 < 0 || pos.1 < 0 || pos.0 >= map.height || pos.1 >= map.width ==> map.tile(pos)
            is Wall,
        map.tile(pos) is Wall ==> !map.walkable(pos),
        map.tile(pos) is Block ==> !map.walkable(pos),
        map.tile(pos) is Empty ==> map.walkable(pos),
        map.tile(pos) is ItemTile ==> map.walkable(pos),
{
}

/// A tile put on the board is found where it was put.
pub proof fn lemma_tiles_stay_put(map: MapView, pos: Coord, tile: Tile, other: Coord)
    requires
        map.rectangular(),
        0 <= pos.0 < map.height,
        0 <= pos.1 < map.width,
    ensures
        map.with_tile(pos, tile).tile(pos) == tile,
        other != pos ==> map.with_tile(pos, tile).tile(other) == map.tile(other),
        map.with_tile(pos, tile).width == map.width,
        map.with_tile(pos, tile).height == map.height,
        map.with_tile(pos, tile).rectangular(),
{
    assert(map.tiles[pos.0 as int].len() == map.width);
}

/// A new board: the outer ring is wall, and so is every cell with an even row and
/// an even column; the three cells at the top left are free; anything else is free
/// or a block.
pub proof fn lemma_new_boards(map: MapView, width: int, height: int, row: int, col: int)
    requires
        crate::game::map::freshly_laid(map, width, height),
        0 <= row < height,
        0 <= col < width,
    ensures
        map.width == width && map.height == height,
        map.tiles.len() == height && map.tiles[row].len() == width,
        ({
            let tile = map.tiles[row][col];
            if row == 0 || row == height - 1 || col == 0 || col == width - 1 {
                tile is Wall
            } else if row % 2 == 0 && col % 2 == 0 {
                tile is Wall
            } else if row + col <= 3 {
                tile is Empty
            } else {
                tile is Empty || tile is Block
            }
        }),
{
    let tile = map.tiles[row][col];
}

/// The draw for a cell decides between a block and a free cell, away from the
/// walls and the start, and nothing else.
pub proof fn lemma_draws_for_blocks(row: int, col: int, width: int, height: int)
    requires
        0 <= row < height,
        0 <= col < width,
    ensures
        ({
            let with = crate::game::map::fresh_tile(row, col, width, height, true);
            let without = crate::game::map::fresh_tile(row, col, width, height, false);
            &&& with is Block <==> 0 < row < height - 1 && 0 < col < width - 1 && row + col > 3
                && !(row % 2 == 0 && col % 2 == 0)
            &&& with is Block ==> without is Empty
            &&& !(with is Block) ==> with == without
            &&& with is Empty <==> 0 < row < height - 1 && 0 < col < width - 1 && row + col <= 3
            &&& !(with is Empty) && !(with is Block) ==> with is Wall
        }),
{
}

/// A destroyed block leaves what was drawn for it.
pub proof fn lemma_drops(drop: Option<ItemKind>)
    ensures
        drop is None ==> crate::game::map::dropped_tile(drop) is Empty,
        drop matches Some(kind) ==> crate::game::map::dropped_tile(drop) == Tile::ItemTile(kind),
{
}

/// The four items go by the numbers from zero on, and each has its own.
pub proof fn lemma_item_numbers(one: usize, other: usize)
    requires
        one < 4,
        other < 4,
    ensures
        one != other ==> crate::game::map::drop_with_number(Some(one))
            != crate::game::map::drop_with_number(Some(other)),
        crate::game::map::drop_with_number(Some(one)) is Some,
        crate::game::map::drop_with_number(Some(one)) == Some(ItemKind::Power) <==> one == 0,
        crate::game::map::drop_with_number(Some(one)) == Some(ItemKind::BombUp) <==> one == 1,
        crate::game::map::drop_with_number(Some(one)) == Some(ItemKind::SpeedUp) <==> one == 2,
        crate::game::map::drop_with_number(None) is None,
        crate::game::map::item_with_number(one as int) == crate::game::map::drop_with_number(
            Some(one),
        )->Some_0,
{
}

// ---------------------------------------------------------------------------
// Directions and distances

/// A move changes one coordinate by one: up and left lower the row and the column,
/// down and right raise them.
pub proof fn lemma_moves(pos: Coord)
    requires
        i32::MIN < pos.0 < i32::MAX,
        i32::MIN < pos.1 < i32::MAX,
    ensures
        ({
            let up = geometry::stepped(pos, Direction::Up);
            let down = geometry::stepped(pos, Direction::Down);
            let left = geometry::stepped(pos, Direction::Left);
            let right = geometry::stepped(pos, Direction::Right);
            &&& up.0 == pos.0 - 1 && up.1 == pos.1
            &&& down.0 == pos.0 + 1 && down.1 == pos.1
            &&& left.0 == pos.0 && left.1 == pos.1 - 1
            &&& right.0 == pos.0 && right.1 == pos.1 + 1
            &&& geometry::distance(pos, up) == 1
            &&& geometry::distance(pos, down) == 1
            &&& geometry::distance(pos, left) == 1
            &&& geometry::distance(pos, right) == 1
        }),
        geometry::delta_row(Direction::Up) == -1 && geometry::delta_col(Direction::Up) == 0,
        geometry::delta_row(Direction::Down) == 1 && geometry::delta_col(Direction::Down) == 0,
        geometry::delta_row(Direction::Left) == 0 && geometry::delta_col(Direction::Left) == -1,
        geometry::delta_row(Direction::Right) == 0 && geometry::delta_col(Direction::Right) == 1,
{
}

/// Distances are those of a grid: none from a cell to itself, the same both ways,
/// no longer straight than by way of a third cell, and as many rows and columns
/// as lie between.
pub proof fn lemma_distances(a: Coord, b: Coord, c: Coord)
    ensures
        geometry::distance(a, b) >= 0,
        geometry::distance(a, b) == 0 <==> a == b,
        geometry::distance(a, b) == geometry::distance(b, a),
        geometry::distance(a, b) <= geometry::distance(a, c) + geometry::distance(c, b),
        a.0 <= b.0 && a.1 <= b.1 ==> geometry::distance(a, b) == (b.0 - a.0) + (b.1 - a.1),
        a.0 <= b.0 && a.1 >= b.1 ==> geometry::distance(a, b) == (b.0 - a.0) + (a.1 - b.1),
{
}

/// The candidate that leads closest to a target is no farther from it than any
/// other, and closer than those before it; the one that leads farthest is no
/// closer than any other, and farther than those after it.
pub proof fn lemma_best_candidates(
    candidates: Seq<Direction>,
    from: Coord,
    target: Coord,
    best: int,
    j: int,
)
    requires
        0 <= j < candidates.len(),
    ensures
        ({
            let there = geometry::distance(geometry::stepped(from, candidates[best]), target);
            let elsewhere = geometry::distance(geometry::stepped(from, candidates[j]), target);
            let keys = geometry::distances_after(candidates, from, target);
            &&& geometry::first_least(keys, best) ==> 0 <= best < candidates.len() && there
                <= elsewhere && (j < best ==> there < elsewhere)
            &&& geometry::last_greatest(keys, best) ==> 0 <= best < candidates.len() && there
                >= elsewhere && (j > best ==> there > elsewhere)
        }),
{
    let keys = geometry::distances_after(candidates, from, target);
    assert(keys[j] == geometry::distance(geometry::stepped(from, candidates[j]), target));
    if 0 <= best < candidates.len() {
        assert(keys[best] == geometry::distance(geometry::stepped(from, candidates[best]), target));
    }
}

/// Countdowns run down by the time that passes, and stop at the ends of their
/// range.
pub proof fn lemma_countdowns(left: Nanos, dt: Nanos)
    ensures
        i64::MIN <= left - dt <= i64::MAX ==> types::elapsed(left, dt) == left - dt,
        left - dt < i64::MIN ==> types::elapsed(left, dt) == i64::MIN,
        left - dt > i64::MAX ==> types::elapsed(left, dt) == i64::MAX,
{
}

// ---------------------------------------------------------------------------
// Where everybody starts

/// Whether a cell of the board is free or holds an item.
pub open spec fn enterable(map: MapView, pos: Coord) -> bool {
    &&& 0 <= pos.0 < map.height
    &&& 0 <= pos.1 < map.width
    &&& (map.tiles[pos.0 as int][pos.1 as int] is Empty
        || map.tiles[pos.0 as int][pos.1 as int] is ItemTile)
}

/// What is gathered comes in the order gone through: whatever fits and comes
/// before something gathered has been gathered before it.
proof fn lemma_gathered_in_order(
    order: Seq<Coord>,
    fits: spec_fn(Coord) -> bool,
    got: Seq<Coord>,
    count: nat,
    i: int,
    j: int,
)
    requires
        order.no_duplicates(),
        got.len() <= i < spawn::gathered(order, fits, got, count).len(),
        0 <= j < order.len(),
        fits(order[j]),
    ensures
        ({
            let all = spawn::gathered(order, fits, got, count);
            ||| all.take(i).contains(order[j])
            ||| exists|k: int| 0 <= k <= j && #[trigger] order[k] == all[i]
        }),
    decreases order.len(),
{
    let all = spawn::gathered(order, fits, got, count);
    if order.len() > 0 && got.len() < count {
        let rest = order.drop_first();
        assert(rest.no_duplicates());
        if fits(order[0]) && !got.contains(order[0]) {
            let more = got.push(order[0]);
            lemma_gathered_keeps(rest, fits, more, count);
            assert(all[got.len() as int] == more[got.len() as int]);
            if i == got.len() {
                assert(order[0] == all[i]);
            } else if j == 0 {
                assert(all.take(i)[got.len() as int] == order[0]);
            } else {
                lemma_gathered_in_order(rest, fits, more, count, i, j - 1);
                if !all.take(i).contains(order[j]) {
                    let k = choose|k: int| 0 <= k <= j - 1 && #[trigger] rest[k] == all[i];
                    assert(order[k + 1] == all[i]);
                }
            }
        } else {
            lemma_gathered_keeps(rest, fits, got, count);
            if j == 0 {
                let k = choose|k: int| 0 <= k < got.len() && got[k] == order[0];
                assert(all[k] == got[k]);
                assert(all.take(i)[k] == order[0]);
            } else {
                lemma_gathered_in_order(rest, fits, got, count, i, j - 1);
                if !all.take(i).contains(order[j]) {
                    let k = choose|k: int| 0 <= k <= j - 1 && #[trigger] rest[k] == all[i];
                    assert(order[k + 1] == all[i]);
                }
            }
        }
    }
}

/// What was there before stays in front, and what comes behind it fits.
proof fn lemma_gathered_keeps(
    order: Seq<Coord>,
    fits: spec_fn(Coord) -> bool,
    got: Seq<Coord>,
    count: nat,
)
    ensures
        got.len() <= spawn::gathered(order, fits, got, count).len(),
        forall|i: int|
            0 <= i < got.len() ==> #[trigger] spawn::gathered(order, fits, got, count)[i] == got[i],
        forall|i: int|
            got.len() <= i < spawn::gathered(order, fits, got, count).len() ==> fits(
                #[trigger] spawn::gathered(order, fits, got, count)[i],
            ),
    decreases order.len(),
{
    if order.len() > 0 && got.len() < count {
        let rest = order.drop_first();
        let all = spawn::gathered(order, fits, got, count);
        if fits(order[0]) && !got.contains(order[0]) {
            let more = got.push(order[0]);
            lemma_gathered_keeps(rest, fits, more, count);
            assert forall|i: int| 0 <= i < got.len() implies #[trigger] all[i] == got[i] by {
                assert(all[i] == more[i]);
            }
            assert forall|i: int| got.len() <= i < all.len() implies fits(#[trigger] all[i]) by {
                if i == got.len() {
                    assert(all[i] == more[i]);
                } else {
                    assert(fits(spawn::gathered(rest, fits, more, count)[i]));
                }
            }
        } else {
            lemma_gathered_keeps(rest, fits, got, count);
        }
    }
}

/// Reading order: where each cell comes, and that each comes once.
proof fn lemma_order(map: MapView)
    requires
        spawn::measurable(map),
    ensures
        spawn::reading_order(map).no_duplicates(),
        spawn::reading_order(map).len() == map.height * map.width,
        forall|k: int|
            0 <= k < map.height * map.width ==> {
                let pos = #[trigger] spawn::reading_order(map)[k];
                &&& 0 <= pos.0 < map.height
                &&& 0 <= pos.1 < map.width
                &&& pos.0 * map.width + pos.1 == k
            },
{
    let order = spawn::reading_order(map);
    let w = map.width as int;
    let h = map.height as int;
    assert forall|k: int| 0 <= k < h * w implies {
        let pos = #[trigger] order[k];
        &&& 0 <= pos.0 < map.height
        &&& 0 <= pos.1 < map.width
        &&& pos.0 * map.width + pos.1 == k
    } by {
        assert(w > 0) by (nonlinear_arith)
            requires
                0 <= k < h * w,
                h >= 0,
                w >= 0,
        ;
        vstd::arithmetic::div_mod::lemma_fundamental_div_mod(k, w);
        vstd::arithmetic::div_mod::lemma_mod_bound(k, w);
        assert(0 <= k / w < h) by (nonlinear_arith)
            requires
                0 <= k < h * w,
                w > 0,
                k == w * (k / w) + k % w,
                0 <= k % w < w,
        ;
        assert((k / w) * w == w * (k / w)) by (nonlinear_arith);
    }
    assert forall|a: int, b: int| 0 <= a < order.len() && 0 <= b < order.len() && a != b implies order[a]
        != order[b] by {
        assert(order[a].0 * map.width + order[a].1 == a);
        assert(order[b].0 * map.width + order[b].1 == b);
    }
}

/// In reading order, a cell with a later row, or a later column of the same row,
/// comes later.
proof fn lemma_later(map: MapView, a: Coord, b: Coord)
    requires
        0 <= a.1 < map.width,
        0 <= b.1 < map.width,
    ensures
        a.0 * map.width + a.1 < b.0 * map.width + b.1 <==> a.0 < b.0 || (a.0 == b.0 && a.1 < b.1),
{
    let w = map.width as int;
    if a.0 < b.0 {
        assert(a.0 * w + a.1 < b.0 * w + b.1) by (nonlinear_arith)
            requires
                a.0 < b.0,
                0 <= a.1 < w,
                0 <= b.1 < w,
        ;
    } else if a.0 > b.0 {
        assert(a.0 * w + a.1 > b.0 * w + b.1) by (nonlinear_arith)
            requires
                a.0 > b.0,
                0 <= a.1 < w,
                0 <= b.1 < w,
        ;
    }
}

/// The cells away from another one, here for enemies: none of them is that cell,
/// each can be entered, and no two are the same. As long as there are cells six or
/// more moves off they are taken, from the end of the board; only when those are
/// used up are nearer ones.
pub proof fn lemma_cells_away(map: MapView, count: nat, avoid: Coord, i: int, pos: Coord)
    requires
        spawn::measurable(map),
        0 <= i < spawn::spawns_away(map, count, avoid).len(),
        enterable(map, pos),
        pos != avoid,
    ensures
        ({
            let cells = spawn::spawns_away(map, count, avoid);
            let earlier = cells.take(i);
            &&& cells.len() <= count
            &&& enterable(map, cells[i]) && cells[i] != avoid
            &&& cells.no_duplicates()
            &&& cells.len() < count ==> cells.contains(pos)
            &&& geometry::distance(pos, avoid) >= 6 && geometry::distance(cells[i], avoid) < 6
                ==> cells.contains(pos)
            &&& geometry::distance(pos, avoid) >= 6 && geometry::distance(cells[i], avoid) >= 6 && (
            pos.0 > cells[i].0 || (pos.0 == cells[i].0 && pos.1 > cells[i].1))
                ==> earlier.contains(pos)
        }),
{
    let cells = spawn::spawns_away(map, count, avoid);
    spawn::lemma_spawns_away(map, count, avoid);
    assert(map.walkable(cells[i]));
    assert(map.walkable(pos));
    let order = spawn::reading_order(map);
    let back = order.reverse();
    let fits = spawn::remote(map, avoid);
    let far = spawn::gathered(back, fits, Seq::<Coord>::empty(), count);
    lemma_order(map);
    lemma_gathered_keeps(order, spawn::standable(map, Some(avoid)), far, count);
    lemma_gathered_keeps(back, fits, Seq::<Coord>::empty(), count);
    spawn::lemma_gathered(back, fits, Seq::<Coord>::empty(), count);
    if geometry::distance(pos, avoid) >= 6 && geometry::distance(cells[i], avoid) >= 6 && (pos.0
        > cells[i].0 || (pos.0 == cells[i].0 && pos.1 > cells[i].1)) {
        if i >= far.len() {
            assert(far.len() < count);
            lemma_place(map, cells[i]);
            let m = cells[i].0 * map.width + cells[i].1;
            assert(order[m] == cells[i]);
            assert(back[order.len() - 1 - m] == cells[i]);
            assert(far.contains(cells[i]));
            let k = choose|k: int| 0 <= k < far.len() && far[k] == cells[i];
            assert(cells[k] == far[k]);
            assert(false);
        }
        assert(cells[i] == far[i]);
        let at = order.len() - 1 - (pos.0 * map.width + pos.1);
        let n = pos.0 * map.width + pos.1;
        lemma_place(map, pos);
        assert(order[n] == pos);
        assert(back[at] == pos);
        assert(back.no_duplicates()) by {
            assert forall|a: int, b: int| 0 <= a < back.len() && 0 <= b < back.len() && a != b implies back[a]
                != back[b] by {
                assert(back[a] == order[order.len() - 1 - a]);
                assert(back[b] == order[order.len() - 1 - b]);
            }
        }
        lemma_gathered_in_order(back, fits, Seq::<Coord>::empty(), count, i, at);
        assert(far.take(i) =~= cells.take(i)) by {
            assert forall|k: int| 0 <= k < i implies far[k] == cells[k] by {}
        }
        if !far.take(i).contains(pos) {
            let k = choose|k: int| 0 <= k <= at && #[trigger] back[k] == far[i];
            assert(back[k] == order[order.len() - 1 - k]);
            assert(order[order.len() - 1 - k] == cells[i]);
            lemma_later(map, cells[i], pos);
            assert(false);
        }
    }
}

/// Where a cell comes in reading order.
proof fn lemma_place(map: MapView, pos: Coord)
    requires
        spawn::measurable(map),
        0 <= pos.0 < map.height,
        0 <= pos.1 < map.width,
    ensures
        0 <= pos.0 * map.width + pos.1 < spawn::reading_order(map).len(),
        spawn::reading_order(map)[pos.0 * map.width + pos.1] == pos,
{
    let w = map.width as int;
    let n = pos.0 * w + pos.1;
    assert(0 <= n < map.height * w) by (nonlinear_arith)
        requires
            n == pos.0 * w + pos.1,
            0 <= pos.0 < map.height,
            0 <= pos.1 < w,
    ;
    vstd::arithmetic::div_mod::lemma_fundamental_div_mod_converse(
        n,
        w,
        pos.0 as int,
        pos.1 as int,
    );
}

/// Some cell is closest where any is to be had.
proof fn lemma_some_nearest(map: MapView, anchor: Coord, taken: Seq<Coord>, pos: Coord)
    requires
        spawn::available(map, taken, pos),
    ensures
        exists|found: Coord| spawn::nearest_available(map, anchor, taken, found),
    decreases geometry::distance(pos, anchor), pos.0, pos.1,
{
    if !spawn::nearest_available(map, anchor, taken, pos) {
        let other = choose|other: Coord| #[trigger]
            spawn::available(map, taken, other) && other != pos && !(geometry::distance(pos, anchor)
                < geometry::distance(other, anchor) || (geometry::distance(pos, anchor)
                == geometry::distance(other, anchor) && spawn::read_before(pos, other)));
        assert(spawn::available(map, taken, other));
        lemma_some_nearest(map, anchor, taken, other);
    }
}

/// The starting cells at the corners, one after the other: each is the closest to
/// its corner of those that are left.
proof fn lemma_at_the_corners(map: MapView, count: nat, i: int, pos: Coord)
    requires
        spawn::measurable(map),
        count <= 4,
        enterable(map, pos),
    ensures
        ({
            let cells = spawn::corner_spawns(map, count);
            let corner = spawn::corners(map)[i];
            &&& cells.len() <= count
            &&& cells.len() < count ==> cells.contains(pos)
            &&& 0 <= i < cells.len() && !cells.take(i).contains(pos) ==> geometry::distance(
                cells[i],
                corner,
            ) <= geometry::distance(pos, corner)
            &&& 0 <= i < cells.len() && cells[i] != pos && !cells.take(i).contains(pos)
                && geometry::distance(cells[i], corner) == geometry::distance(pos, corner) ==> (
            cells[i].0 < pos.0 || (cells[i].0 == pos.0 && cells[i].1 < pos.1))
        }),
    decreases count,
{
    let cells = spawn::corner_spawns(map, count);
    assert(map.walkable(pos));
    if count > 0 {
        let before = spawn::corner_spawns(map, (count - 1) as nat);
        let anchor = spawn::corners(map)[count - 1];
        lemma_at_the_corners(map, (count - 1) as nat, i, pos);
        match spawn::nearest(map, anchor, before) {
            Some(found) => {
                assert(spawn::nearest_available(map, anchor, before, found));
                assert(cells == before.push(found));
                assert(cells.take(before.len() as int) =~= before);
                if 0 <= i < before.len() {
                    assert(cells.take(i) =~= before.take(i));
                }
                if before.len() < count - 1 {
                    lemma_at_the_corners(map, (count - 1) as nat, i, found);
                    assert(before.contains(found));
                    assert(spawn::available(map, before, found));
                    assert(false);
                }
                if i == before.len() && !before.contains(pos) {
                    assert(spawn::available(map, before, pos));
                }
            },
            None => {
                if !before.contains(pos) {
                    assert(spawn::available(map, before, pos));
                    lemma_some_nearest(map, anchor, before, pos);
                }
            },
        }
    }
}

/// The players of a match start one to a corner: the first at the top left, then
/// top right, bottom left and bottom right; where a corner is taken up, as close to
/// it as can be. There is nobody short unless the board is full.
pub proof fn lemma_players_start_in_corners(map: MapView, count: nat, i: int, pos: Coord)
    requires
        spawn::measurable(map),
        map.width >= 2,
        map.height >= 2,
        0 <= i < spawn::player_spawns(map, count).len(),
        enterable(map, pos),
    ensures
        ({
            let cells = spawn::player_spawns(map, count);
            let row = if i == 0 || i == 1 {
                1
            } else {
                map.height - 2
            };
            let col = if i == 0 || i == 2 {
                1
            } else {
                map.width - 2
            };
            let corner: Coord = (row as i32, col as i32);
            &&& cells.len() <= count
            &&& cells.len() < count ==> cells.contains(pos)
            &&& enterable(map, cells[i])
            &&& cells.no_duplicates()
            &&& i < 4 && !cells.take(i).contains(pos) ==> geometry::distance(cells[i], corner)
                <= geometry::distance(pos, corner)
            &&& i < 4 && pos == corner && !cells.take(i).contains(pos) ==> cells[i] == pos
        }),
{
    let cells = spawn::player_spawns(map, count);
    let corner_count = if count < 4 {
        count
    } else {
        4
    };
    let first = spawn::corner_spawns(map, corner_count);
    spawn::lemma_player_spawns(map, count);
    assert(map.walkable(cells[i]));
    assert(map.walkable(pos));
    lemma_at_the_corners(map, corner_count, i, pos);
    lemma_at_the_corners(map, corner_count, i, cells[i]);
    lemma_gathered_keeps(spawn::reading_order(map), spawn::standable(map, None), first, count);
    if i < 4 {
        if i >= first.len() {
            assert(first.len() < corner_count);
            assert(first.contains(cells[i]));
            let k = choose|k: int| 0 <= k < first.len() && first[k] == cells[i];
            assert(cells[k] == first[k]);
            assert(false);
        }
        assert(cells[i] == first[i]);
        assert(cells.take(i) =~= first.take(i)) by {
            assert forall|k: int| 0 <= k < i implies cells[k] == first[k] by {}
        }
    }
}

// ---------------------------------------------------------------------------
// Beginning and leaving

/// Whether this is how a player begins: with three lives, no points, one bomb that
/// reaches one cell, at an ordinary pace and without protection.
pub open spec fn at_the_start(player: Player) -> bool {
    &&& player.alive
    &&& player.lives == 3
    &&& player.score == 0
    &&& player.power == 1
    &&& player.bomb_capacity == 1
    &&& player.speed == 1_000
    &&& player.move_cooldown == 0
    &&& player.invincible_remaining == 0
    &&& !player.god_mode
}

/// Whether a key that starts the game is pressed: any key of a player who is there
/// but the one for leaving.
pub open spec fn key_pressed(players: int, actions: Seq<Action>) -> bool {
    exists|i: int|
        0 <= i < players && i < actions.len() && (#[trigger] actions[i]) != Action::Idle
            && actions[i] != Action::Quit
}

/// A new game against enemies: the lone player is in the top left corner, and one
/// enemy of each kind at most is on the board, alive: a chaser, a wanderer and an
/// avoider, in that order, at the cells away from the player.
pub proof fn lemma_new_solo_games(map: MapView, i: int)
    requires
        spawn::measurable(map),
    ensures
        ({
            let game = rules::solo_game(map);
            let cells = spawn::spawns_away(map, 3, (1, 1));
            &&& game.screen is Title
            &&& game.map == map
            &&& game.players.len() == 1
            &&& at_the_start(game.players[0])
            &&& game.players[0].pos == (1i32, 1i32)
            &&& game.spawn_points == seq![(1i32, 1i32)]
            &&& game.bombs.len() == 0
            &&& game.explosions.len() == 0
            &&& game.enemy_move_cooldown == 450_000_000
            &&& game.enemies.len() == cells.len()
            &&& 0 <= i < game.enemies.len() ==> {
                let enemy = game.enemies[i];
                &&& i < 3
                &&& enemy.alive
                &&& enemy.pos == cells[i]
                &&& i == 0 ==> enemy.kind == EnemyKind::Chaser
                &&& i == 1 ==> enemy.kind == EnemyKind::Wander
                &&& i == 2 ==> enemy.kind == EnemyKind::Avoider
            }
        }),
{
    spawn::lemma_spawns_away(map, 3, (1, 1));
}

/// A new match: nobody but the players, each at a starting cell of their own.
pub proof fn lemma_new_matches(map: MapView, size: nat, i: int)
    ensures
        ({
            let game = rules::versus_game(map, size);
            &&& game.screen is Title
            &&& game.map == map
            &&& game.spawn_points == spawn::player_spawns(map, size)
            &&& game.players.len() == game.spawn_points.len()
            &&& 0 <= i < game.players.len() ==> at_the_start(game.players[i])
                && game.players[i].pos == game.spawn_points[i]
            &&& game.enemies.len() == 0
            &&& game.bombs.len() == 0
            &&& game.explosions.len() == 0
            &&& game.enemy_move_cooldown == 450_000_000
        }),
{
}

/// A match is for two to four players; any other number counts as the nearest.
pub proof fn lemma_match_sizes(asked: nat)
    ensures
        2 <= rules::match_size(asked) <= 4,
        2 <= asked <= 4 ==> rules::match_size(asked) == asked,
        asked < 2 ==> rules::match_size(asked) == 2,
        asked > 4 ==> rules::match_size(asked) == 4,
{
}

/// On the title screen a key starts the game on a new board of thirteen rows and
/// fifteen columns, with the music of the stage; a lone player plays against
/// enemies, several against each other. Without a key nothing happens.
pub proof fn lemma_starting(before: Scene, dt: Nanos, actions: Seq<Action>, after: Scene)
    requires
        rules::ticked(before, dt, actions, after),
        before.game.screen is Title,
    ensures
        !key_pressed(before.game.players.len() as int, actions) ==> after == before,
        key_pressed(before.game.players.len() as int, actions) ==> {
            let map = after.game.map;
            &&& crate::game::map::freshly_laid(map, 15, 13)
            &&& map.width == 15 && map.height == 13
            &&& after.heard == before.heard + seq![
                AudioCommand::StopBgm,
                AudioCommand::PlayBgm(Bgm::Stage),
            ]
            &&& before.game.players.len() <= 1 ==> after.game == (GameView {
                screen: Screen::Playing,
                ..rules::solo_game(map)
            })
            &&& before.game.players.len() > 1 ==> after.game == (GameView {
                screen: Screen::Playing,
                ..rules::versus_game(map, before.game.players.len())
            })
        },
{
    let players = before.game.players.len();
    if key_pressed(players as int, actions) {
        let i = choose|i: int|
            0 <= i < players && i < actions.len() && (#[trigger] actions[i]) != Action::Idle
                && actions[i] != Action::Quit;
        assert(!(rules::action_of(actions, i) is Idle) && !(rules::action_of(actions, i) is Quit));
        assert(rules::starts(actions, players));
    } else if rules::starts(actions, players) {
        let i = choose|i: int|
            0 <= i < players && !((#[trigger] rules::action_of(actions, i)) is Idle)
                && !(rules::action_of(actions, i) is Quit);
        assert(actions[i] != Action::Idle && actions[i] != Action::Quit);
    }
    if rules::starts(actions, players) {
        let map = choose|map: MapView| #[trigger]
            crate::game::map::freshly_laid(map, rules::MAP_WIDTH as int, rules::MAP_HEIGHT as int)
                && after == rules::started(before, map);
        assert(after.heard =~= before.heard + seq![
            AudioCommand::StopBgm,
            AudioCommand::PlayBgm(Bgm::Stage),
        ]);
    }
}

/// A result stays on the screen until a player who is there presses the key for
/// bombs; then the title is back, with its music, and nothing else changes.
pub proof fn lemma_leaving(before: Scene, dt: Nanos, actions: Seq<Action>, after: Scene)
    requires
        rules::ticked(before, dt, actions, after),
        before.game.screen is Cleared || before.game.screen is GameOver
            || before.game.screen is MatchResult,
    ensures
        ({
            let pressed = exists|i: int|
                0 <= i < before.game.players.len() && i < actions.len() && (#[trigger] actions[i])
                    == Action::PlaceBomb;
            &&& !pressed ==> after == before
            &&& pressed ==> after.game == (GameView { screen: Screen::Title, ..before.game })
            &&& pressed ==> after.heard == before.heard + seq![
                AudioCommand::StopBgm,
                AudioCommand::PlayBgm(Bgm::Title),
            ]
        }),
{
    let players = before.game.players.len();
    if rules::leaves(actions, players) {
        let i = choose|i: int|
            0 <= i < players && (#[trigger] rules::action_of(actions, i)) is PlaceBomb;
        assert(actions[i] == Action::PlaceBomb);
        assert(after.heard =~= before.heard + seq![
            AudioCommand::StopBgm,
            AudioCommand::PlayBgm(Bgm::Title),
        ]);
    } else if exists|i: int|
        0 <= i < players && i < actions.len() && (#[trigger] actions[i]) == Action::PlaceBomb {
        let i = choose|i: int|
            0 <= i < players && i < actions.len() && (#[trigger] actions[i]) == Action::PlaceBomb;
        assert(rules::action_of(actions, i) is PlaceBomb);
    }
}

/// A player who retires is out of the game, and nothing else changes; where there
/// is no such player nothing does.
pub proof fn lemma_retiring(game: GameView, idx: int, i: int)
    ensures
        ({
            let after = rules::retired(game, idx);
            &&& after.players.len() == game.players.len()
            &&& after == (GameView { players: after.players, ..game })
            &&& 0 <= i < game.players.len() && i != idx ==> after.players[i] == game.players[i]
            &&& 0 <= idx < game.players.len() ==> after.players[idx] == (Player {
                alive: false,
                ..game.players[idx]
            })
        }),
{
}

/// Whom the hidden command or an item protects is invincible, and nobody else.
pub proof fn lemma_protection(player: Player)
    ensures
        player.god_mode ==> player.invincible(),
        player.invincible_remaining > 0 ==> player.invincible(),
        !player.god_mode && player.invincible_remaining <= 0 ==> !player.invincible(),
{
}

} // verus!
