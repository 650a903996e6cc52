//! What holds of every game, tried on boards without chance.

use bombermanterm::audio::{AudioCommand, AudioQueue};
use bombermanterm::game::entities::{
    explosion_cells, Bomb, Enemy, EnemyKind, Explosion, DEFAULT_BOMB_TIMER,
    DEFAULT_EXPLOSION_DURATION, STARTING_LIVES,
};
use bombermanterm::game::geometry::{manhattan, step};
use bombermanterm::game::map::{drop_of_roll, initial_tile, item_of_roll, GameMap};
use bombermanterm::game::rules::{
    BASE_MOVE_INTERVAL, ENEMY_MOVE_INTERVAL, INVINCIBLE_DURATION, SCORE_PER_ENEMY,
};
use bombermanterm::game::spawn::{
    nearest_walkable, player_spawn_positions, spawn_enemies, spawn_positions,
    MIN_ENEMY_SPAWN_DISTANCE, PLAYER_START,
};
use bombermanterm::game::state::GameState;
use bombermanterm::render::field::is_drawable;
use bombermanterm::types::{
    elapse, Action, Bgm, Coord, Direction, ItemKind, Nanos, Screen, SoundEffect, Tile,
};

const TICK: Nanos = 33_000_000;

/// A board with its walls and nothing else, or with blocks everywhere.
fn board(width: usize, height: usize, block: bool) -> GameMap {
    let mut tiles = Vec::new();
    for row in 0..height {
        let mut line = Vec::new();
        for col in 0..width {
            line.push(initial_tile(row, col, width, height, block));
        }
        tiles.push(line);
    }
    GameMap {
        width,
        height,
        tiles,
    }
}

/// A game of one player without enemies that is under way on a bare board.
fn alone() -> GameState {
    let mut state = GameState::new_on(board(9, 7, false));
    state.screen = Screen::Playing;
    state.enemies.clear();
    state
}

/// A match that is under way on a bare board.
fn versus(players: usize) -> GameState {
    let mut state = GameState::new_multiplayer_on(board(9, 7, false), players);
    state.screen = Screen::Playing;
    state
}

fn queue() -> AudioQueue {
    AudioQueue::new()
}

#[test]
fn a_fresh_board_has_its_walls_and_its_start_area() {
    let map = board(9, 7, true);
    assert_eq!(map.tile_at((0, 4)), Tile::Wall);
    assert_eq!(map.tile_at((6, 8)), Tile::Wall);
    assert_eq!(map.tile_at((2, 2)), Tile::Wall);
    assert_eq!(map.tile_at((1, 1)), Tile::Empty);
    assert_eq!(map.tile_at((1, 2)), Tile::Empty);
    assert_eq!(map.tile_at((2, 1)), Tile::Empty);
    assert_eq!(map.tile_at((1, 3)), Tile::Block);
    assert_eq!(map.tile_at((3, 3)), Tile::Block);
    assert_eq!(board(9, 7, false).tile_at((3, 3)), Tile::Empty);
}

#[test]
fn every_draw_stands_for_an_item() {
    assert_eq!(item_of_roll(0), ItemKind::Power);
    assert_eq!(item_of_roll(1), ItemKind::BombUp);
    assert_eq!(item_of_roll(2), ItemKind::SpeedUp);
    assert_eq!(item_of_roll(3), ItemKind::Invincible);
    assert_eq!(item_of_roll(99), ItemKind::Invincible);
}

#[test]
fn every_draw_for_a_block_leaves_its_item_or_nothing() {
    assert_eq!(drop_of_roll(None), None);
    assert_eq!(drop_of_roll(Some(0)), Some(ItemKind::Power));
    assert_eq!(drop_of_roll(Some(1)), Some(ItemKind::BombUp));
    assert_eq!(drop_of_roll(Some(2)), Some(ItemKind::SpeedUp));
    assert_eq!(drop_of_roll(Some(3)), Some(ItemKind::Invincible));
}

#[test]
fn a_block_is_destroyed_once_and_its_item_taken_once() {
    let mut map = board(9, 7, true);
    let pos = (1, 3);
    let other = (3, 3);
    assert_eq!(
        map.destroy_block_into(pos, Some(ItemKind::BombUp)),
        Some(ItemKind::BombUp)
    );
    assert_eq!(map.tile_at(pos), Tile::ItemTile(ItemKind::BombUp));
    assert_eq!(map.tile_at(other), Tile::Block);
    assert!(map.is_walkable(pos));
    assert_eq!(map.destroy_block_into(pos, Some(ItemKind::Power)), None);
    assert_eq!(map.tile_at(pos), Tile::ItemTile(ItemKind::BombUp));
    assert_eq!(map.take_item(pos), Some(ItemKind::BombUp));
    assert_eq!(map.take_item(pos), None);
    assert_eq!(map.tile_at(pos), Tile::Empty);

    assert_eq!(map.destroy_block_into(other, None), None);
    assert_eq!(map.tile_at(other), Tile::Empty);
    assert_eq!(map.destroy_block_into((0, 0), None), None);
    assert_eq!(map.tile_at((0, 0)), Tile::Wall);
}

#[test]
fn a_blast_covers_what_it_reaches() {
    let mut map = board(9, 7, false);
    let cells = explosion_cells((3, 3), 2, &map);
    let mut sorted = cells.clone();
    sorted.sort();
    assert_eq!(cells[0], (3, 3));
    assert_eq!(
        sorted,
        vec![(1, 3), (2, 3), (3, 1), (3, 2), (3, 3), (3, 4), (3, 5), (4, 3), (5, 3)]
    );
    map.tiles[3][4] = Tile::Block;
    let cells = explosion_cells((3, 3), 2, &map);
    assert!(cells.contains(&(3, 4)));
    assert!(!cells.contains(&(3, 5)));
}

#[test]
fn a_chain_goes_off_at_once() {
    let mut state = alone();
    let mut audio = queue();
    state.players[0].pos = (5, 7);
    // Only the first of the row is due, and each reaches the next.
    for (i, col) in [1, 3, 5].iter().enumerate() {
        let mut bomb = Bomb::new((1, *col), 2, 0);
        if i == 0 {
            bomb.timer = TICK;
        }
        state.bombs.push(bomb);
    }
    state.bombs.push(Bomb::new((5, 1), 1, 0));
    state.tick(TICK, Action::Idle, &mut audio);
    assert_eq!(state.explosions.len(), 3);
    assert_eq!(state.bombs.len(), 1, "the bomb out of reach stays");
    assert_eq!(state.bombs[0].pos, (5, 1));
    assert!(state.bombs.iter().all(|bomb| bomb.timer > 0));
    assert_eq!(state.bombs[0].timer, DEFAULT_BOMB_TIMER - TICK);
    let bangs = audio
        .commands
        .iter()
        .filter(|command| **command == AudioCommand::PlaySe(SoundEffect::Explosion))
        .count();
    assert_eq!(bangs, 3);
}

#[test]
fn blasts_fade_in_time() {
    let mut state = alone();
    let mut audio = queue();
    state.players[0].pos = (5, 7);
    state.explosions.push(Explosion::new(vec![(1, 1)]));
    state.tick(DEFAULT_EXPLOSION_DURATION - 1, Action::Idle, &mut audio);
    assert_eq!(state.explosions.len(), 1);
    assert_eq!(state.explosions[0].remaining, 1);
    state.tick(1, Action::Idle, &mut audio);
    assert!(state.explosions.is_empty());
}

#[test]
fn walls_stand_and_blocks_wear_down() {
    let mut state = alone();
    let mut audio = queue();
    state.players[0].pos = (5, 7);
    state.map.tiles[1][2] = Tile::Block;
    state.map.tiles[5][3] = Tile::Block;
    let mut bomb = Bomb::new((1, 1), 3, 0);
    bomb.timer = 0;
    state.bombs.push(bomb);
    state.tick(TICK, Action::Idle, &mut audio);
    assert!(state.map.is_walkable((1, 2)), "the block is gone");
    assert_eq!(state.map.tile_at((5, 3)), Tile::Block, "out of reach");
    assert_eq!(state.map.tile_at((0, 1)), Tile::Wall);
    assert_eq!(state.map.tile_at((2, 2)), Tile::Wall);
}

#[test]
fn nobody_moves_farther_than_one_cell() {
    let mut state = versus(2);
    let mut audio = queue();
    let before: Vec<Coord> = state.players.iter().map(|player| player.pos).collect();
    // However long the tick, it is one move.
    state.tick_multi(
        10 * BASE_MOVE_INTERVAL,
        &[
            Action::Move(Direction::Right),
            Action::Move(Direction::Left),
        ],
        &mut audio,
    );
    assert_eq!(state.players[0].pos, step(before[0], Direction::Right));
    assert_eq!(state.players[1].pos, step(before[1], Direction::Left));
    for (player, from) in state.players.iter().zip(before) {
        assert_eq!(manhattan(player.pos, from), 1);
        assert!(state.map.is_walkable(player.pos));
    }
}

#[test]
fn who_is_faster_waits_less() {
    let mut audio = queue();
    let mut waits = Vec::new();
    for speed in [100, 1_000, 1_400, 2_000] {
        let mut state = versus(2);
        state.players[0].speed = speed;
        state.tick_multi(TICK, &[Action::Move(Direction::Right)], &mut audio);
        waits.push(state.players[0].move_cooldown);
    }
    assert_eq!(waits[0], 10 * BASE_MOVE_INTERVAL);
    assert_eq!(waits[1], BASE_MOVE_INTERVAL);
    assert_eq!(waits[3], BASE_MOVE_INTERVAL / 2);
    assert!(waits.windows(2).all(|pair| pair[0] > pair[1]));
}

#[test]
fn the_hidden_command_undoes_itself() {
    let mut state = versus(2);
    let mut audio = queue();
    for expected in [true, false, true, false] {
        state.tick_multi(0, &[Action::ToggleGodMode], &mut audio);
        assert_eq!(state.players[0].god_mode, expected);
        assert!(!state.players[1].god_mode);
    }
}

#[test]
fn only_own_actions_count() {
    let mut audio = queue();
    let mut short = versus(2);
    short.tick_multi(TICK, &[Action::Move(Direction::Right)], &mut audio);
    let mut long = versus(2);
    long.tick_multi(
        TICK,
        &[
            Action::Move(Direction::Right),
            Action::Idle,
            Action::PlaceBomb,
            Action::Move(Direction::Down),
        ],
        &mut audio,
    );
    assert_eq!(format!("{short:?}"), format!("{long:?}"));
}

#[test]
fn missing_actions_are_idle() {
    for screen in [Screen::Title, Screen::Playing, Screen::GameOver] {
        let mut short = versus(3);
        let mut heard_short = queue();
        short.screen = screen;
        let mut long = versus(3);
        let mut heard_long = queue();
        long.screen = screen;
        short.tick_multi(TICK, &[Action::Quit], &mut heard_short);
        long.tick_multi(TICK, &[Action::Quit, Action::Idle, Action::Idle], &mut heard_long);
        assert_eq!(format!("{short:?}"), format!("{long:?}"));
        assert_eq!(heard_short.commands, heard_long.commands);
    }
}

#[test]
fn surplus_actions_do_not_start_a_game() {
    let mut state = GameState::new();
    let mut audio = queue();
    state.tick_multi(TICK, &[Action::Idle, Action::PlaceBomb], &mut audio);
    assert_eq!(state.screen, Screen::Title);
    assert!(audio.commands.is_empty());

    let mut state = GameState::new_multiplayer(2);
    let surplus = [Action::Idle, Action::Quit, Action::PlaceBomb, Action::Pause];
    state.tick_multi(TICK, &surplus, &mut audio);
    assert_eq!(state.screen, Screen::Title);
    assert!(audio.commands.is_empty());

    // The last player's key counts.
    state.tick_multi(TICK, &surplus[1..], &mut audio);
    assert_eq!(state.screen, Screen::Playing);
    assert_eq!(
        audio.commands,
        vec![AudioCommand::StopBgm, AudioCommand::PlayBgm(Bgm::Stage)]
    );
}

#[test]
fn surplus_actions_do_not_leave_a_result_screen() {
    for screen in [
        Screen::Cleared,
        Screen::GameOver,
        Screen::MatchResult(None),
        Screen::MatchResult(Some(1)),
    ] {
        let mut audio = queue();
        let mut state = versus(2);
        state.screen = screen;
        let actions = [Action::Idle, Action::Idle, Action::PlaceBomb];
        state.tick_multi(TICK, &actions, &mut audio);
        assert_eq!(state.screen, screen);
        assert!(audio.commands.is_empty());
        state.tick_multi(TICK, &actions[1..], &mut audio);
        assert_eq!(state.screen, Screen::Title);
    }
}

#[test]
fn without_blocks_and_enemies_nothing_is_left_to_chance() {
    let script = [
        Action::PlaceBomb,
        Action::Move(Direction::Right),
        Action::Move(Direction::Right),
        Action::Idle,
    ];
    let mut ends = Vec::new();
    for _ in 0..5 {
        let mut state = versus(3);
        let mut audio = queue();
        for action in script {
            state.tick_multi(BASE_MOVE_INTERVAL, &[action, action], &mut audio);
        }
        state.tick_multi(DEFAULT_BOMB_TIMER, &[], &mut audio);
        ends.push(format!("{state:?} {:?}", audio.commands));
    }
    assert!(ends.windows(2).all(|pair| pair[0] == pair[1]));
}

#[test]
fn invincible_players_lose_nothing() {
    let mut state = alone();
    let mut audio = queue();
    state.players[0].invincible_remaining = INVINCIBLE_DURATION;
    state.enemies.push(Enemy::new((1, 1), EnemyKind::Wander));
    state.enemies.push(Enemy::new((5, 7), EnemyKind::Wander));
    state.enemy_move_cooldown = ENEMY_MOVE_INTERVAL;
    let mut bomb = Bomb::new((1, 1), 2, 0);
    bomb.timer = 0;
    state.bombs.push(bomb);
    state.tick(TICK, Action::Idle, &mut audio);
    assert_eq!(state.lives(), STARTING_LIVES);
    assert!(state.players[0].alive);
    assert_eq!(state.score(), SCORE_PER_ENEMY);
    assert!(!state.enemies[0].alive);
    // What is dead stays dead, and stays what it was.
    state.tick(TICK, Action::Idle, &mut audio);
    assert!(!state.enemies[0].alive);
    assert_eq!(state.enemies[0].kind, EnemyKind::Wander);
    assert_eq!(state.score(), SCORE_PER_ENEMY);
}

#[test]
fn order_is_kept_on_the_board() {
    let mut state = versus(4);
    let mut audio = queue();
    let script = [
        Action::PlaceBomb,
        Action::PlaceBomb,
        Action::Move(Direction::Right),
        Action::Move(Direction::Down),
        Action::PlaceBomb,
        Action::Move(Direction::Left),
        Action::Move(Direction::Up),
    ];
    for turn in 0..40 {
        let actions = [
            script[turn % 7],
            script[(turn + 2) % 7],
            script[(turn + 3) % 7],
            script[(turn + 5) % 7],
        ];
        state.tick_multi(BASE_MOVE_INTERVAL, &actions, &mut audio);
        if state.screen != Screen::Playing {
            break;
        }
        for player in &state.players {
            assert!(state.map.is_walkable(player.pos));
        }
        for (i, bomb) in state.bombs.iter().enumerate() {
            assert!(state.bombs[..i].iter().all(|other| other.pos != bomb.pos));
        }
        for (idx, player) in state.players.iter().enumerate() {
            let out = state.bombs.iter().filter(|bomb| bomb.owner == idx).count();
            assert!(out <= player.bomb_capacity as usize);
        }
    }
}

#[test]
fn who_leaves_a_match_is_out_of_it() {
    let mut state = versus(3);
    let mut audio = queue();
    state.retire_player(1);
    state.tick_multi(TICK, &[], &mut audio);
    assert_eq!(state.screen, Screen::Playing);
    assert!(!state.players[1].alive);
    state.retire_player(2);
    state.retire_player(7);
    state.tick_multi(TICK, &[], &mut audio);
    assert_eq!(state.screen, Screen::MatchResult(Some(0)));
}

#[test]
fn a_death_in_a_match_is_for_good() {
    let mut state = versus(3);
    let mut audio = queue();
    let mut bomb = Bomb::new(state.players[2].pos, 1, 0);
    bomb.timer = 0;
    state.bombs.push(bomb);
    state.tick_multi(TICK, &[], &mut audio);
    assert!(!state.players[2].alive);
    state.tick_multi(DEFAULT_EXPLOSION_DURATION, &[], &mut audio);
    state.tick_multi(TICK, &[Action::Idle, Action::Idle, Action::PlaceBomb], &mut audio);
    assert!(!state.players[2].alive);
    assert!(state.bombs.is_empty());
    assert_eq!(state.screen, Screen::Playing);
}

#[test]
fn result_screens_stay_until_the_bomb_key() {
    for screen in [
        Screen::Cleared,
        Screen::GameOver,
        Screen::MatchResult(None),
        Screen::MatchResult(Some(1)),
    ] {
        let mut state = versus(2);
        let mut audio = queue();
        state.screen = screen;
        for action in [
            Action::Idle,
            Action::Quit,
            Action::Pause,
            Action::Move(Direction::Up),
        ] {
            state.tick_multi(TICK, &[action, action], &mut audio);
            assert_eq!(state.screen, screen);
        }
        assert!(audio.commands.is_empty());
        state.tick_multi(TICK, &[Action::Idle, Action::PlaceBomb], &mut audio);
        assert_eq!(state.screen, Screen::Title);
        assert_eq!(audio.commands, vec![AudioCommand::StopBgm, AudioCommand::PlayBgm(Bgm::Title)]);
    }
}

#[test]
fn games_start_fresh_on_a_given_board() {
    let mut audio = queue();
    let mut state = versus(3);
    state.screen = Screen::Title;
    state.players[0].score = 700;
    state.players[1].lives = 0;
    state.players[2].alive = false;
    state.bombs.push(Bomb::new((1, 1), 1, 0));
    state.explosions.push(Explosion::new(vec![(1, 1)]));
    state.start_on(board(9, 7, false), &mut audio);
    assert_eq!(state.screen, Screen::Playing);
    assert_eq!(state.players.len(), 3);
    assert!(state.is_versus_match());
    assert!(state
        .players
        .iter()
        .all(|player| player.alive && player.score == 0 && player.lives == STARTING_LIVES));
    assert!(state.bombs.is_empty() && state.explosions.is_empty());
    assert_eq!(audio.commands, vec![AudioCommand::StopBgm, AudioCommand::PlayBgm(Bgm::Stage)]);

    let mut solo = GameState::new_on(board(9, 7, false));
    solo.start_on(board(15, 13, false), &mut audio);
    assert_eq!(solo.enemies.len(), 3);
    assert!(!solo.is_versus_match());
}

#[test]
fn enemies_go_where_they_turn_unless_something_is_in_the_way() {
    let mut state = alone();
    state.enemies.push(Enemy::new((1, 1), EnemyKind::Wander));
    state.enemies.push(Enemy::new((1, 3), EnemyKind::Chaser));
    state.enemies.push(Enemy::new((5, 5), EnemyKind::Avoider));
    state.enemies.push(Enemy::new((5, 1), EnemyKind::Wander));
    state.bombs.push(Bomb::new((1, 4), 1, 0));
    state.enemies[3].alive = false;
    state.move_enemies(&[
        Direction::Right,
        Direction::Right,
        Direction::Down,
        Direction::Right,
    ]);
    assert_eq!(state.enemies[0].pos, (1, 2));
    assert_eq!(state.enemies[1].pos, (1, 3), "a bomb is in the way");
    assert_eq!(state.enemies[2].pos, (5, 5), "a wall is in the way");
    assert_eq!(state.enemies[3].pos, (5, 1), "dead enemies do not move");
}

#[test]
fn enemies_start_away_from_the_player_and_apart() {
    let map = board(15, 13, false);
    let enemies = spawn_enemies(&map);
    assert_eq!(enemies.len(), 3);
    let kinds: Vec<EnemyKind> = enemies.iter().map(|enemy| enemy.kind).collect();
    assert_eq!(
        kinds,
        vec![EnemyKind::Chaser, EnemyKind::Wander, EnemyKind::Avoider]
    );
    for (i, enemy) in enemies.iter().enumerate() {
        assert!(map.is_walkable(enemy.pos));
        assert!(manhattan(enemy.pos, PLAYER_START) >= MIN_ENEMY_SPAWN_DISTANCE);
        assert!(enemies[..i].iter().all(|other| other.pos != enemy.pos));
    }

    // Where nothing is far enough, cells near the player have to do.
    let small = board(5, 5, false);
    let cells = spawn_positions(&small, 3, PLAYER_START);
    assert_eq!(cells.len(), 3);
    assert!(!cells.contains(&PLAYER_START));
    assert!(cells.iter().all(|cell| small.is_walkable(*cell)));
}

#[test]
fn players_start_at_the_corners() {
    let map = board(9, 7, false);
    assert_eq!(
        player_spawn_positions(&map, 4),
        vec![(1, 1), (1, 7), (5, 1), (5, 7)]
    );
    assert_eq!(player_spawn_positions(&map, 2), vec![(1, 1), (1, 7)]);

    // With the corner taken, the next cell in reading order has to do.
    assert_eq!(nearest_walkable(&map, (1, 1), &[(1, 1)]), Some((1, 2)));
    assert_eq!(nearest_walkable(&board(2, 2, false), (1, 1), &[]), None);
}

#[test]
fn boards_that_have_lost_their_shape_are_not_drawable() {
    let mut state = versus(2);
    assert!(is_drawable(&state));
    state.map.tiles[2].pop();
    assert!(!is_drawable(&state));

    let mut state = versus(2);
    state.map.tiles.pop();
    assert!(!is_drawable(&state));
}

#[test]
fn countdowns_stop_at_the_ends_of_their_range() {
    assert_eq!(elapse(100, 30), 70);
    assert_eq!(elapse(100, 130), -30);
    assert_eq!(elapse(-2, Nanos::MAX), Nanos::MIN);
    assert_eq!(elapse(2, Nanos::MIN), Nanos::MAX);
}

#[test]
fn counters_about_to_run_over_are_noticed() {
    let mut state = alone();
    assert!(state.has_headroom());
    state.players[0].score = u32::MAX;
    assert!(!state.has_headroom());
}
