//! Players, enemies, bombs and blasts.

use bombermanterm::game::entities::{
    explosion_cells, random_direction, Bomb, Enemy, EnemyKind, Explosion, Player,
};
use bombermanterm::game::geometry::{
    closest_direction, direction_delta, farthest_direction, manhattan, step,
};
use bombermanterm::game::map::GameMap;
use bombermanterm::types::{Direction, Tile};

#[test]
fn direction_delta_matches_expected_offsets() {
    assert_eq!(direction_delta(Direction::Up), (-1, 0));
    assert_eq!(direction_delta(Direction::Down), (1, 0));
    assert_eq!(direction_delta(Direction::Left), (0, -1));
    assert_eq!(direction_delta(Direction::Right), (0, 1));
}

#[test]
fn step_moves_one_cell_in_direction() {
    assert_eq!(step((5, 5), Direction::Up), (4, 5));
    assert_eq!(step((5, 5), Direction::Down), (6, 5));
    assert_eq!(step((5, 5), Direction::Left), (5, 4));
    assert_eq!(step((5, 5), Direction::Right), (5, 6));
}

#[test]
fn manhattan_distance_is_correct() {
    assert_eq!(manhattan((0, 0), (3, 4)), 7);
    assert_eq!(manhattan((2, 2), (2, 2)), 0);
}

#[test]
fn closest_direction_picks_the_move_that_reduces_distance() {
    // player is directly below -> Down should be closest.
    let candidates = [
        Direction::Up,
        Direction::Down,
        Direction::Left,
        Direction::Right,
    ];
    let from = (0, 0);
    let target = (5, 0);
    assert_eq!(
        closest_direction(&candidates, from, target),
        Some(Direction::Down)
    );
}

#[test]
fn farthest_direction_picks_the_move_that_increases_distance() {
    // Restricted to an opposing pair so the result is unambiguous:
    // with all 4 cardinal directions the max distance is always tied
    // between at least two directions (Manhattan distance geometry),
    // so this checks the underlying comparison logic without relying
    // on max_by_key's tie-break rule.
    let candidates = [Direction::Up, Direction::Down];
    let from = (0, 0);
    let target = (5, 0);
    assert_eq!(
        farthest_direction(&candidates, from, target),
        Some(Direction::Up)
    );
}

#[test]
fn closest_and_farthest_direction_return_none_for_empty_candidates() {
    assert_eq!(closest_direction(&[], (0, 0), (1, 1)), None);
    assert_eq!(farthest_direction(&[], (0, 0), (1, 1)), None);
}

#[test]
fn random_direction_returns_none_for_empty_slice() {
    assert_eq!(random_direction(&[]), None);
}

#[test]
fn random_direction_only_returns_candidates_from_input() {
    let candidates = [Direction::Left, Direction::Right];
    for _ in 0..50 {
        let picked = random_direction(&candidates).expect("non-empty candidates");
        assert!(candidates.contains(&picked));
    }
}

#[test]
fn player_new_has_sane_defaults() {
    let player = Player::new((1, 1));
    assert_eq!(player.pos, (1, 1));
    assert!(player.alive);
    assert!(player.power >= 1);
    assert!(player.bomb_capacity >= 1);
    assert!(player.speed > 0);
}

#[test]
fn enemy_new_is_alive_and_keeps_kind() {
    let enemy = Enemy::new((2, 3), EnemyKind::Chaser);
    assert_eq!(enemy.pos, (2, 3));
    assert_eq!(enemy.kind, EnemyKind::Chaser);
    assert!(enemy.alive);
}

#[test]
fn bomb_new_keeps_given_fields_and_has_positive_timer() {
    let bomb = Bomb::new((4, 4), 2, 0);
    assert_eq!(bomb.pos, (4, 4));
    assert_eq!(bomb.power, 2);
    assert_eq!(bomb.owner, 0);
    assert!(bomb.timer > 0);
}

#[test]
fn explosion_new_stores_cells_and_has_positive_remaining() {
    let explosion = Explosion::new(vec![(0, 0), (0, 1)]);
    assert_eq!(explosion.cells, vec![(0, 0), (0, 1)]);
    assert!(explosion.remaining > 0);
}

fn opposite(dir: Direction) -> Direction {
    match dir {
        Direction::Up => Direction::Down,
        Direction::Down => Direction::Up,
        Direction::Left => Direction::Right,
        Direction::Right => Direction::Left,
    }
}

#[test]
fn explosion_cells_stops_before_wall_border_and_inner() {
    let map = GameMap::generate(13, 11);

    let border_cells = explosion_cells((2, 1), 1, &map);
    assert!(border_cells.contains(&(2, 1)));
    assert!(!border_cells.contains(&(2, 0)));

    let inner_cells = explosion_cells((2, 1), 5, &map);
    assert!(!inner_cells.contains(&(2, 2)));
    assert!(!inner_cells.contains(&(2, 3)));
}

#[test]
fn explosion_cells_reaches_block_but_not_beyond_it() {
    for _ in 0..200 {
        let map = GameMap::generate(13, 11);
        for row in 0..map.height as i32 {
            for col in 0..map.width as i32 {
                let block_pos = (row, col);
                if map.tile_at(block_pos) != Tile::Block {
                    continue;
                }
                for dir in [Direction::Up, Direction::Down, Direction::Left, Direction::Right] {
                    let origin = step(block_pos, opposite(dir));
                    if !map.is_walkable(origin) {
                        continue;
                    }
                    let beyond = step(block_pos, dir);

                    let cells = explosion_cells(origin, 5, &map);
                    assert!(
                        cells.contains(&block_pos),
                        "blast must reach the destructible block itself"
                    );
                    assert!(
                        !cells.contains(&beyond),
                        "blast must not pass through a destructible block"
                    );
                    return;
                }
            }
        }
    }
    panic!("no Block tile with a walkable neighbor found across 200 attempts");
}
