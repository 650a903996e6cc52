//! Vocabulary shared by the whole crate.

use vstd::prelude::*;

verus! {

/// A cell of the board or a move target, as `(row, col)`.
pub type Coord = (i32, i32);

/// A span of game time in whole nanoseconds. Countdowns may run below zero.
pub type Nanos = i64;

/// One second.
pub const SECOND: Nanos = 1_000_000_000;

/// The direction of a move.
#[derive(Debug, Clone, Copy, PartialEq, Eq, Structural)]
pub enum Direction {
    Up,
    Down,
    Left,
    Right,
}

/// What a player asks for in one tick.
#[derive(Debug, Clone, Copy, PartialEq, Eq, Structural)]
pub enum Action {
    Move(Direction),
    PlaceBomb,
    Pause,
    Quit,
    /// Hidden command: switches forced invincibility on or off.
    ToggleGodMode,
    /// Display only: never reaches the game.
    ZoomIn,
    /// Display only: never reaches the game.
    ZoomOut,
    /// No input.
    Idle,
}

/// The kind of one cell of the map.
#[derive(Debug, Clone, Copy, PartialEq, Eq, Structural)]
pub enum Tile {
    Empty,
    Wall,
    Block,
    ItemTile(ItemKind),
}

/// The kind of an item.
#[derive(Debug, Clone, Copy, PartialEq, Eq, Structural)]
pub enum ItemKind {
    Power,
    BombUp,
    SpeedUp,
    Invincible,
}

/// A one-shot sound.
#[derive(Debug, Clone, Copy, PartialEq, Eq, Structural)]
pub enum SoundEffect {
    PlaceBomb,
    Explosion,
    ItemGet,
    Death,
    StageClear,
}

/// Background music, played in a loop.
#[derive(Debug, Clone, Copy, PartialEq, Eq, Structural)]
pub enum Bgm {
    Title,
    Stage,
    Clear,
    GameOver,
}

/// Which screen the game is on.
///
/// `MatchResult` is the end of a match between players: the index of the
/// winner, or `None` for a draw.
#[derive(Debug, Clone, Copy, PartialEq, Eq, Structural)]
pub enum Screen {
    Title,
    Playing,
    Cleared,
    GameOver,
    MatchResult(Option<usize>),
}

/// What a countdown of `left` shows once `dt` has passed.
pub open spec fn elapsed(left: Nanos, dt: Nanos) -> Nanos {
    if left - dt < i64::MIN {
        i64::MIN
    } else if left - dt > i64::MAX {
        i64::MAX
    } else {
        (left - dt) as i64
    }
}

/// Lets `dt` pass on a countdown. The countdown stops at the ends of its range.
pub fn elapse(left: Nanos, dt: Nanos) -> (rest: Nanos)
    ensures
        rest == elapsed(left, dt),
{
    match left.checked_sub(dt) {
        Some(rest) => rest,
        None => {
            if dt > 0 {
                i64::MIN
            } else {
                i64::MAX
            }
        },
    }
}

} // verus!
