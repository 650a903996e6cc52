//! The board: laying it out and reading it.
//!
//! - The outermost ring is always `Wall`.
//! - Inside, every cell whose row and column are both even is `Wall`.
//! - The three cells around the top left corner, `(1, 1)`, `(1, 2)` and `(2, 1)`,
//!   start out `Empty`.
//! - About three in ten of the other cells start out as a destructible `Block`.

use vstd::prelude::*;

use crate::chance::{random_below, random_ratio};
use crate::types::{Coord, ItemKind, Tile};

verus! {

/// A block is laid on a free cell in this many cases out of `ODDS`.
const BLOCK_SPAWN_ODDS: u32 = 3;

/// A destroyed block leaves an item in this many cases out of `ODDS`.
const ITEM_DROP_ODDS: u32 = 3;

const ODDS: u32 = 10;

/// The board as a value: a grid of tiles.
#[verifier::ext_equal]
pub struct MapView {
    pub width: nat,
    pub height: nat,
    pub tiles: Seq<Seq<Tile>>,
}

impl MapView {
    /// The grid has `height` rows of `width` tiles each.
    pub open spec fn rectangular(self) -> bool {
        &&& self.tiles.len() == self.height
        &&& forall|row: int|
            0 <= row < self.height ==> (#[trigger] self.tiles[row]).len() == self.width
    }

    /// Whether `pos` is a cell of the board.
    pub open spec fn contains(self, pos: Coord) -> bool {
        0 <= pos.0 < self.height && 0 <= pos.1 < self.width
    }

    /// The tile at `pos`. There is nothing but wall outside the board.
    pub open spec fn tile(self, pos: Coord) -> Tile {
        if self.contains(pos) {
            self.tiles[pos.0 as int][pos.1 as int]
        } else {
            Tile::Wall
        }
    }

    /// Whether players and enemies may stand on `pos`.
    pub open spec fn walkable(self, pos: Coord) -> bool {
        self.tile(pos) is Empty || self.tile(pos) is ItemTile
    }

    /// The board with the tile at `pos` replaced.
    pub open spec fn with_tile(self, pos: Coord, tile: Tile) -> MapView {
        MapView {
            tiles: self.tiles.update(
                pos.0 as int,
                self.tiles[pos.0 as int].update(pos.1 as int, tile),
            ),
            ..self
        }
    }
}

/// Whether the cell belongs to the outer ring of a board of that size.
pub open spec fn on_border(row: int, col: int, width: int, height: int) -> bool {
    row == 0 || col == 0 || row == height - 1 || col == width - 1
}

/// Whether the cell belongs to the fixed grid of inner walls.
pub open spec fn on_wall_grid(row: int, col: int) -> bool {
    row % 2 == 0 && col % 2 == 0
}

/// Whether the cell is one of the three kept free for the first player.
pub open spec fn in_start_area(row: int, col: int) -> bool {
    (row == 1 && col == 1) || (row == 1 && col == 2) || (row == 2 && col == 1)
}

/// The tile a new board has at a cell, given whether the draw for the cell came
/// out in favour of a block.
pub open spec fn fresh_tile(row: int, col: int, width: int, height: int, block: bool) -> Tile {
    if on_border(row, col, width, height) || on_wall_grid(row, col) {
        Tile::Wall
    } else if in_start_area(row, col) || !block {
        Tile::Empty
    } else {
        Tile::Block
    }
}

/// Whether `map` is a board as `GameMap::generate` lays it out: each cell is
/// what `fresh_tile` makes of one of the two possible draws.
pub open spec fn freshly_laid(map: MapView, width: int, height: int) -> bool {
    &&& map.width == width
    &&& map.height == height
    &&& map.rectangular()
    &&& forall|row: int, col: int|
        #![trigger map.tiles[row][col]]
        0 <= row < height && 0 <= col < width ==> {
            ||| map.tiles[row][col] == fresh_tile(row, col, width, height, true)
            ||| map.tiles[row][col] == fresh_tile(row, col, width, height, false)
        }
}

/// The tile that a destroyed block turns into.
pub open spec fn dropped_tile(drop: Option<ItemKind>) -> Tile {
    match drop {
        Some(kind) => Tile::ItemTile(kind),
        None => Tile::Empty,
    }
}

/// What a new board has at a cell, given the draw for the cell.
pub fn initial_tile(row: usize, col: usize, width: usize, height: usize, block: bool) -> (tile: Tile)
    requires
        row < height,
        col < width,
    ensures
        tile == fresh_tile(row as int, col as int, width as int, height as int, block),
{
    let is_border = row == 0 || col == 0 || row == height - 1 || col == width - 1;
    let is_fixed_wall = row % 2 == 0 && col % 2 == 0;
    let is_start_area = (row == 1 && col == 1) || (row == 1 && col == 2) || (row == 2 && col == 1);

    if is_border || is_fixed_wall {
        Tile::Wall
    } else if is_start_area || !block {
        Tile::Empty
    } else {
        Tile::Block
    }
}

/// The item with the given number. Numbers past the last item stand for it too.
pub fn item_of_roll(roll: usize) -> (kind: ItemKind)
    ensures
        kind == item_with_number(roll as int),
{
    if roll == 0 {
        ItemKind::Power
    } else if roll == 1 {
        ItemKind::BombUp
    } else if roll == 2 {
        ItemKind::SpeedUp
    } else {
        ItemKind::Invincible
    }
}

/// The item with the given number.
pub open spec fn item_with_number(roll: int) -> ItemKind {
    if roll == 0 {
        ItemKind::Power
    } else if roll == 1 {
        ItemKind::BombUp
    } else if roll == 2 {
        ItemKind::SpeedUp
    } else {
        ItemKind::Invincible
    }
}

/// What a destroyed block leaves behind when the draw for an item came out with
/// that number, or came out against one.
pub open spec fn drop_with_number(roll: Option<usize>) -> Option<ItemKind> {
    match roll {
        Some(number) => Some(item_with_number(number as int)),
        None => None,
    }
}

/// What a destroyed block leaves behind, given the draw for it.
pub fn drop_of_roll(roll: Option<usize>) -> (drop: Option<ItemKind>)
    ensures
        drop == drop_with_number(roll),
{
    match roll {
        Some(number) => Some(item_of_roll(number)),
        None => None,
    }
}

/// Draws what a destroyed block leaves behind: nothing in seven cases out of
/// ten, else one of the four items. Any of these can come out, so nothing more is
/// known of the result; `drop_of_roll` says what each draw stands for.
fn draw_drop() -> (drop: Option<ItemKind>) {
    let roll: Option<usize> = if random_ratio(ITEM_DROP_ODDS, ODDS) {
        Some(random_below(4))
    } else {
        None
    };
    drop_of_roll(roll)
}

/// The board.
#[derive(Debug, Clone)]
pub struct GameMap {
    pub width: usize,
    pub height: usize,
    pub tiles: Vec<Vec<Tile>>,
}

impl View for GameMap {
    type V = MapView;

    open spec fn view(&self) -> MapView {
        MapView {
            width: self.width as nat,
            height: self.height as nat,
            tiles: Seq::new(self.tiles@.len(), |row: int| self.tiles@[row]@),
        }
    }
}

impl GameMap {
    /// The size fields agree with the grid.
    pub open spec fn wf(&self) -> bool {
        self@.rectangular()
    }

    /// Lays out a new board of the given size.
    pub fn generate(width: usize, height: usize) -> (map: GameMap)
        ensures
            map.wf(),
            map.width == width,
            map.height == height,
            freshly_laid(map@, width as int, height as int),
    {
        let mut tiles: Vec<Vec<Tile>> = Vec::with_capacity(height);
        for row in 0..height
            invariant
                tiles@.len() == row,
                forall|r: int| 0 <= r < row ==> (#[trigger] tiles@[r])@.len() == width,
                forall|r: int, c: int|
                    #![trigger tiles@[r]@[c]]
                    0 <= r < row && 0 <= c < width ==> {
                        ||| tiles@[r]@[c] == fresh_tile(r, c, width as int, height as int, true)
                        ||| tiles@[r]@[c] == fresh_tile(r, c, width as int, height as int, false)
                    },
        {
            let mut line: Vec<Tile> = Vec::with_capacity(width);
            for col in 0..width
                invariant
                    row < height,
                    line@.len() == col,
                    forall|c: int|
                        #![trigger line@[c]]
                        0 <= c < col ==> {
                            ||| line@[c] == fresh_tile(
                                row as int,
                                c,
                                width as int,
                                height as int,
                                true,
                            )
                            ||| line@[c] == fresh_tile(
                                row as int,
                                c,
                                width as int,
                                height as int,
                                false,
                            )
                        },
            {
                let block = matches!(initial_tile(row, col, width, height, true), Tile::Block)
                    && random_ratio(BLOCK_SPAWN_ODDS, ODDS);
                line.push(initial_tile(row, col, width, height, block));
            }
            tiles.push(line);
        }
        GameMap { width, height, tiles }
    }

    /// The grid index of `pos`, if it is a cell of the board.
    pub fn index_of(&self, pos: Coord) -> (index: Option<(usize, usize)>)
        requires
            self.wf(),
        ensures
            index == (if self@.contains(pos) {
                Some((pos.0 as usize, pos.1 as usize))
            } else {
                None
            }),
    {
        let (row, col) = pos;
        if row < 0 || col < 0 {
            return None;
        }
        let (row, col): (usize, usize) = (row as usize, col as usize);
        if row >= self.height || col >= self.width {
            return None;
        }
        Some((row, col))
    }

    /// The tile at `pos`; outside the board everything is wall.
    pub fn tile_at(&self, pos: Coord) -> (tile: Tile)
        requires
            self.wf(),
        ensures
            tile == self@.tile(pos),
    {
        match self.index_of(pos) {
            Some((row, col)) => {
                assert(self@.tiles[row as int].len() == self.width);
                self.tiles[row][col]
            },
            None => Tile::Wall,
        }
    }

    /// Whether players and enemies may stand on `pos`.
    pub fn is_walkable(&self, pos: Coord) -> (walkable: bool)
        requires
            self.wf(),
        ensures
            walkable == self@.walkable(pos),
    {
        matches!(self.tile_at(pos), Tile::Empty | Tile::ItemTile(_))
    }

    /// Replaces the tile at a cell of the board.
    fn put(&mut self, row: usize, col: usize, tile: Tile)
        requires
            old(self).wf(),
            row < old(self).height,
            col < old(self).width,
            row <= i32::MAX,
            col <= i32::MAX,
        ensures
            final(self).wf(),
            final(self).width == old(self).width,
            final(self).height == old(self).height,
            final(self)@ == old(self)@.with_tile((row as i32, col as i32), tile),
    {
        assert(self@.tiles[row as int].len() == self.width);
        self.tiles[row][col] = tile;
        assert(self@.tiles =~= old(self)@.with_tile((row as i32, col as i32), tile).tiles);
    }

    /// Destroys the block at `pos`, leaving `drop` behind, and gives `drop` back.
    /// Does nothing, and gives `None`, where there is no block.
    pub fn destroy_block_into(&mut self, pos: Coord, drop: Option<ItemKind>) -> (left: Option<ItemKind>)
        requires
            old(self).wf(),
        ensures
            final(self).wf(),
            final(self).width == old(self).width,
            final(self).height == old(self).height,
            old(self)@.tile(pos) is Block ==> {
                &&& left == drop
                &&& final(self)@ == old(self)@.with_tile(pos, dropped_tile(drop))
            },
            !(old(self)@.tile(pos) is Block) ==> left is None && final(self)@ == old(self)@,
    {
        match self.index_of(pos) {
            Some((row, col)) => {
                if !matches!(self.tile_at(pos), Tile::Block) {
                    return None;
                }
                match drop {
                    Some(kind) => self.put(row, col, Tile::ItemTile(kind)),
                    None => self.put(row, col, Tile::Empty),
                }
                drop
            },
            None => None,
        }
    }

    /// Destroys the block at `pos`. With luck an item is left in its place and
    /// given back. Does nothing, and gives `None`, where there is no block.
    pub fn destroy_block(&mut self, pos: Coord) -> (left: Option<ItemKind>)
        requires
            old(self).wf(),
        ensures
            final(self).wf(),
            final(self).width == old(self).width,
            final(self).height == old(self).height,
            old(self)@.tile(pos) is Block ==> final(self)@ == old(self)@.with_tile(
                pos,
                dropped_tile(left),
            ),
            !(old(self)@.tile(pos) is Block) ==> left is None && final(self)@ == old(self)@,
    {
        if !matches!(self.tile_at(pos), Tile::Block) {
            return None;
        }
        let drop = draw_drop();
        self.destroy_block_into(pos, drop)
    }

    /// Takes the item lying at `pos`, if there is one, and clears the cell.
    pub fn take_item(&mut self, pos: Coord) -> (taken: Option<ItemKind>)
        requires
            old(self).wf(),
        ensures
            final(self).wf(),
            final(self).width == old(self).width,
            final(self).height == old(self).height,
            match old(self)@.tile(pos) {
                Tile::ItemTile(kind) => {
                    &&& taken == Some(kind)
                    &&& final(self)@ == old(self)@.with_tile(pos, Tile::Empty)
                },
                _ => taken is None && final(self)@ == old(self)@,
            },
    {
        match self.index_of(pos) {
            Some((row, col)) => {
                if let Tile::ItemTile(kind) = self.tile_at(pos) {
                    self.put(row, col, Tile::Empty);
                    Some(kind)
                } else {
                    None
                }
            },
            None => None,
        }
    }
}

} // verus!
