//! Directions and distances on the board.

use vstd::prelude::*;

use crate::types::{Coord, Direction};

verus! {

/// The change of row that a move in `dir` makes.
pub open spec fn delta_row(dir: Direction) -> int {
    match dir {
        Direction::Up => -1,
        Direction::Down => 1,
        Direction::Left => 0,
        Direction::Right => 0,
    }
}

/// The change of column that a move in `dir` makes.
pub open spec fn delta_col(dir: Direction) -> int {
    match dir {
        Direction::Up => 0,
        Direction::Down => 0,
        Direction::Left => -1,
        Direction::Right => 1,
    }
}

/// The cell one move in `dir` away from `pos`.
pub open spec fn stepped(pos: Coord, dir: Direction) -> Coord {
    ((pos.0 + delta_row(dir)) as i32, (pos.1 + delta_col(dir)) as i32)
}

/// Whether the four neighbours of `pos` can be written down as coordinates.
pub open spec fn has_neighbours(pos: Coord) -> bool {
    i32::MIN < pos.0 < i32::MAX && i32::MIN < pos.1 < i32::MAX
}

/// How far apart two numbers are.
pub open spec fn gap(a: int, b: int) -> int {
    if a < b {
        b - a
    } else {
        a - b
    }
}

/// The number of moves between two cells of an empty board.
pub open spec fn distance(a: Coord, b: Coord) -> int {
    gap(a.0 as int, b.0 as int) + gap(a.1 as int, b.1 as int)
}

/// The largest row or column, up or down, at which entities are kept. Any two
/// such cells are a distance apart that fits a coordinate.
pub const COORD_LIMIT: i32 = 536_870_911;

/// Whether `pos` keeps within `COORD_LIMIT`.
pub open spec fn in_range(pos: Coord) -> bool {
    &&& -COORD_LIMIT <= pos.0 <= COORD_LIMIT
    &&& -COORD_LIMIT <= pos.1 <= COORD_LIMIT
}

/// Whether `keys[i]` is the least key, and the first such.
pub open spec fn first_least(keys: Seq<int>, i: int) -> bool {
    &&& 0 <= i < keys.len()
    &&& forall|j: int| 0 <= j < keys.len() ==> keys[i] <= #[trigger] keys[j]
    &&& forall|j: int| 0 <= j < i ==> keys[i] < #[trigger] keys[j]
}

/// Whether `keys[i]` is the greatest key, and the last such.
pub open spec fn last_greatest(keys: Seq<int>, i: int) -> bool {
    &&& 0 <= i < keys.len()
    &&& forall|j: int| 0 <= j < keys.len() ==> #[trigger] keys[j] <= keys[i]
    &&& forall|j: int| i < j < keys.len() ==> #[trigger] keys[j] < keys[i]
}

/// For each candidate direction, how far from `target` it leads.
pub open spec fn distances_after(
    candidates: Seq<Direction>,
    from: Coord,
    target: Coord,
) -> Seq<int> {
    Seq::new(candidates.len(), |i: int| distance(stepped(from, candidates[i]), target))
}

/// There is only one first least key.
pub proof fn lemma_first_least_unique(keys: Seq<int>, i: int, j: int)
    requires
        first_least(keys, i),
        first_least(keys, j),
    ensures
        i == j,
{
    assert(keys[i] <= keys[j] && keys[j] <= keys[i]);
}

/// Turns a direction into a change of `(row, col)`.
pub fn direction_delta(dir: Direction) -> (delta: Coord)
    ensures
        delta.0 == delta_row(dir),
        delta.1 == delta_col(dir),
{
    match dir {
        Direction::Up => (-1, 0),
        Direction::Down => (1, 0),
        Direction::Left => (0, -1),
        Direction::Right => (0, 1),
    }
}

/// The cell one move in `dir` away from `pos`.
pub fn step(pos: Coord, dir: Direction) -> (target: Coord)
    requires
        i32::MIN <= pos.0 + delta_row(dir) <= i32::MAX,
        i32::MIN <= pos.1 + delta_col(dir) <= i32::MAX,
    ensures
        target == stepped(pos, dir),
        target.0 == pos.0 + delta_row(dir),
        target.1 == pos.1 + delta_col(dir),
{
    let (dr, dc) = direction_delta(dir);
    (pos.0 + dr, pos.1 + dc)
}

/// How far apart two numbers are.
fn difference(a: i32, b: i32) -> (d: i32)
    requires
        gap(a as int, b as int) <= i32::MAX,
    ensures
        d == gap(a as int, b as int),
{
    if a < b {
        b - a
    } else {
        a - b
    }
}

/// The Manhattan distance between two cells.
pub fn manhattan(a: Coord, b: Coord) -> (d: i32)
    requires
        distance(a, b) <= i32::MAX,
    ensures
        d == distance(a, b),
{
    difference(a.0, b.0) + difference(a.1, b.1)
}

/// The candidate that leads closest to `target`; the first of several.
pub fn closest_direction(candidates: &[Direction], from: Coord, target: Coord) -> (chosen: Option<
    Direction,
>)
    requires
        has_neighbours(from),
        distance(from, target) < i32::MAX,
    ensures
        match chosen {
            Some(dir) => exists|i: int|
                first_least(#[trigger] distances_after(candidates@, from, target), i) && dir
                    == candidates@[i],
            None => candidates@.len() == 0,
        },
{
    let ghost keys = distances_after(candidates@, from, target);
    if candidates.len() == 0 {
        return None;
    }
    let mut best: usize = 0;
    let mut best_distance: i32 = manhattan(step(from, candidates[0]), target);
    for i in 1..candidates.len()
        invariant
            keys == distances_after(candidates@, from, target),
            keys.len() == candidates@.len(),
            has_neighbours(from),
            distance(from, target) < i32::MAX,
            best < i <= candidates@.len(),
            best_distance == keys[best as int],
            forall|j: int| 0 <= j < i ==> keys[best as int] <= #[trigger] keys[j],
            forall|j: int| 0 <= j < best ==> keys[best as int] < #[trigger] keys[j],
    {
        let candidate_distance = manhattan(step(from, candidates[i]), target);
        assert(candidate_distance == keys[i as int]);
        if candidate_distance < best_distance {
            best = i;
            best_distance = candidate_distance;
        }
    }
    assert(first_least(keys, best as int));
    Some(candidates[best])
}

/// The candidate that leads farthest from `target`; the last of several.
pub fn farthest_direction(candidates: &[Direction], from: Coord, target: Coord) -> (chosen: Option<
    Direction,
>)
    requires
        has_neighbours(from),
        distance(from, target) < i32::MAX,
    ensures
        match chosen {
            Some(dir) => exists|i: int|
                last_greatest(#[trigger] distances_after(candidates@, from, target), i) && dir
                    == candidates@[i],
            None => candidates@.len() == 0,
        },
{
    let ghost keys = distances_after(candidates@, from, target);
    if candidates.len() == 0 {
        return None;
    }
    let mut best: usize = 0;
    let mut best_distance: i32 = manhattan(step(from, candidates[0]), target);
    for i in 1..candidates.len()
        invariant
            keys == distances_after(candidates@, from, target),
            keys.len() == candidates@.len(),
            has_neighbours(from),
            distance(from, target) < i32::MAX,
            best < i <= candidates@.len(),
            best_distance == keys[best as int],
            forall|j: int| 0 <= j < i ==> #[trigger] keys[j] <= keys[best as int],
            forall|j: int| best < j < i ==> #[trigger] keys[j] < keys[best as int],
    {
        let candidate_distance = manhattan(step(from, candidates[i]), target);
        assert(candidate_distance == keys[i as int]);
        if candidate_distance >= best_distance {
            best = i;
            best_distance = candidate_distance;
        }
    }
    assert(last_greatest(keys, best as int));
    Some(candidates[best])
}

/// Whether `pos` is one of `cells`.
pub fn lists(cells: &[Coord], pos: Coord) -> (found: bool)
    ensures
        found == cells@.contains(pos),
{
    for i in 0..cells.len()
        invariant
            forall|j: int| 0 <= j < i ==> cells@[j] != pos,
    {
        if cells[i].0 == pos.0 && cells[i].1 == pos.1 {
            assert(cells@[i as int] == pos);
            return true;
        }
    }
    false
}

} // verus!
