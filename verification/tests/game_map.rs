//! The board.

use bombermanterm::game::map::GameMap;
use bombermanterm::types::Tile;

#[test]
fn border_is_wall() {
    let map = GameMap::generate(13, 11);
    for col in 0..map.width {
        assert_eq!(map.tile_at((0, col as i32)), Tile::Wall);
        assert_eq!(map.tile_at((map.height as i32 - 1, col as i32)), Tile::Wall);
    }
    for row in 0..map.height {
        assert_eq!(map.tile_at((row as i32, 0)), Tile::Wall);
        assert_eq!(map.tile_at((row as i32, map.width as i32 - 1)), Tile::Wall);
    }
}

#[test]
fn fixed_grid_walls_are_placed() {
    let map = GameMap::generate(13, 11);
    assert_eq!(map.tile_at((2, 2)), Tile::Wall);
    assert_eq!(map.tile_at((4, 6)), Tile::Wall);
}

#[test]
fn player_start_area_is_clear() {
    let map = GameMap::generate(13, 11);
    assert_eq!(map.tile_at((1, 1)), Tile::Empty);
    assert_eq!(map.tile_at((1, 2)), Tile::Empty);
    assert_eq!(map.tile_at((2, 1)), Tile::Empty);
}

#[test]
fn out_of_bounds_is_wall_and_not_walkable() {
    let map = GameMap::generate(13, 11);
    assert_eq!(map.tile_at((-1, 0)), Tile::Wall);
    assert_eq!(map.tile_at((100, 100)), Tile::Wall);
    assert!(!map.is_walkable((-1, 0)));
}

#[test]
fn destroy_block_only_affects_blocks() {
    let mut map = GameMap::generate(13, 11);
    assert_eq!(map.destroy_block((0, 0)), None);
    assert_eq!(map.tile_at((0, 0)), Tile::Wall);

    assert_eq!(map.destroy_block((1, 1)), None);
    assert_eq!(map.tile_at((1, 1)), Tile::Empty);
}

#[test]
fn destroy_block_removes_block_and_may_drop_item() {
    for _ in 0..50 {
        let mut map = GameMap::generate(13, 11);
        let mut found = false;
        'outer: for row in 0..map.height {
            for col in 0..map.width {
                if map.tile_at((row as i32, col as i32)) == Tile::Block {
                    let pos = (row as i32, col as i32);
                    let result = map.destroy_block(pos);
                    match result {
                        Some(kind) => {
                            assert_eq!(map.tile_at(pos), Tile::ItemTile(kind));
                        }
                        None => {
                            assert_eq!(map.tile_at(pos), Tile::Empty);
                        }
                    }
                    assert!(map.is_walkable(pos));
                    found = true;
                    break 'outer;
                }
            }
        }
        if found {
            return;
        }
    }
    panic!("no Block tile generated across 50 attempts");
}

#[test]
fn take_item_consumes_item_tile_only() {
    let mut map = GameMap::generate(13, 11);

    assert_eq!(map.take_item((0, 0)), None);
    assert_eq!(map.take_item((1, 1)), None);
    assert_eq!(map.take_item((-1, -1)), None);

    for _ in 0..200 {
        let mut fresh = GameMap::generate(13, 11);
        let mut done = false;
        'items: for row in 0..fresh.height {
            for col in 0..fresh.width {
                let pos = (row as i32, col as i32);
                if fresh.tile_at(pos) == Tile::Block {
                    if let Some(kind) = fresh.destroy_block(pos) {
                        assert_eq!(fresh.take_item(pos), Some(kind));
                        assert_eq!(fresh.tile_at(pos), Tile::Empty);
                        assert_eq!(fresh.take_item(pos), None);
                        done = true;
                        break 'items;
                    }
                }
            }
        }
        if done {
            return;
        }
    }
    panic!("no item drop across 200 attempts");
}
