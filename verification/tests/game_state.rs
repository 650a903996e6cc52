//! The game as a whole.

use bombermanterm::audio::AudioPlayer;
use bombermanterm::game::entities::{Bomb, EnemyKind, Player, STARTING_LIVES};
use bombermanterm::game::geometry::manhattan;
use bombermanterm::game::map::GameMap;
use bombermanterm::game::rules::{
    INVINCIBLE_DURATION, MAP_HEIGHT, MAP_WIDTH, SCORE_PER_ENEMY, SCORE_PER_ITEM, SPEED_INCREMENT,
};
use bombermanterm::game::spawn::{
    corner_anchors, player_spawn_positions, MAX_PLAYERS, MIN_MULTIPLAYER_PLAYERS, PLAYER_START,
};
use bombermanterm::game::state::{nearest_player_pos, GameState};
use bombermanterm::types::{
    Action, Bgm, Coord, Direction, ItemKind, Nanos, Screen, SoundEffect, Tile,
};

/// A span of time in seconds.
fn secs(s: f64) -> Nanos {
    (s * 1e9).round() as Nanos
}

/// A sound device that only takes note of what it is asked for.
#[derive(Default)]
struct NoopAudio {
    se_calls: Vec<SoundEffect>,
    bgm_calls: Vec<Bgm>,
    stop_calls: u32,
}

impl AudioPlayer for NoopAudio {
    fn play_se(&mut self, se: SoundEffect) {
        self.se_calls.push(se);
    }
    fn play_bgm(&mut self, bgm: Bgm) {
        self.bgm_calls.push(bgm);
    }
    fn stop_bgm(&mut self) {
        self.stop_calls += 1;
    }
}

#[test]
fn new_starts_on_title_with_full_lives_and_enemies() {
    let state = GameState::new();
    assert_eq!(state.screen, Screen::Title);
    assert_eq!(state.lives(), STARTING_LIVES);
    assert_eq!(state.score(), 0);
    assert!(state.players[0].alive);
    assert_eq!(state.enemies.len(), 3);
    assert!(state.bombs.is_empty());
    assert!(state.explosions.is_empty());
}

#[test]
fn any_action_on_title_starts_playing_except_none_and_quit() {
    let mut audio = NoopAudio::default();

    let mut state = GameState::new();
    state.tick(secs(0.033), Action::Idle, &mut audio);
    assert_eq!(state.screen, Screen::Title, "None must not start the game");

    state.tick(secs(0.033), Action::Quit, &mut audio);
    assert_eq!(state.screen, Screen::Title, "Quit must not start the game");

    state.tick(secs(0.033), Action::PlaceBomb, &mut audio);
    assert_eq!(state.screen, Screen::Playing);
    assert!(audio.bgm_calls.contains(&Bgm::Stage));
}

#[test]
fn player_moves_into_walkable_cell_and_not_into_wall() {
    let mut audio = NoopAudio::default();
    let mut state = GameState::new();
    state.tick(secs(0.033), Action::PlaceBomb, &mut audio); // -> Playing

    let before = state.players[0].pos;
    state.tick(secs(1.0), Action::Move(Direction::Up), &mut audio);
    assert_eq!(state.players[0].pos, before);

    state.players[0].move_cooldown = secs(0.0);
    state.tick(secs(1.0), Action::Move(Direction::Right), &mut audio);
    assert_eq!(state.players[0].pos, (1, 2));
}

#[test]
fn player_cannot_walk_onto_a_bomb_tile() {
    let mut audio = NoopAudio::default();
    let mut state = GameState::new();
    state.tick(secs(0.033), Action::PlaceBomb, &mut audio); // -> Playing
    state.bombs.clear();

    state.bombs.push(Bomb::new((1, 2), 1, 0));

    state.players[0].move_cooldown = secs(0.0);
    state.tick(secs(1.0), Action::Move(Direction::Right), &mut audio);
    assert_eq!(
        state.players[0].pos, PLAYER_START,
        "player must not overlap a bomb tile"
    );
}

#[test]
fn enemy_cannot_walk_onto_a_bomb_tile() {
    let mut audio = NoopAudio::default();
    let mut state = GameState::new();
    state.tick(secs(0.033), Action::PlaceBomb, &mut audio); // -> Playing
    state.bombs.clear();

    state.enemies[0].pos = (1, 2);
    state.enemies[0].kind = EnemyKind::Chaser;
    state.enemies[0].alive = true;

    state.bombs.push(Bomb::new(PLAYER_START, 1, 0));

    state.enemy_move_cooldown = secs(0.0);
    state.tick(secs(1.0), Action::Idle, &mut audio);

    assert_eq!(
        state.enemies[0].pos,
        (1, 2),
        "enemy must not overlap a bomb tile even when it is the closest direction to the player"
    );
}

#[test]
fn place_bomb_respects_capacity_and_dedup() {
    let mut audio = NoopAudio::default();
    let mut state = GameState::new();
    state.tick(secs(0.033), Action::PlaceBomb, &mut audio); // -> Playing, capacity=1

    state.bombs.clear();
    state.tick(secs(0.001), Action::PlaceBomb, &mut audio);
    assert_eq!(state.bombs.len(), 1);

    state.tick(secs(0.001), Action::PlaceBomb, &mut audio);
    assert_eq!(state.bombs.len(), 1);
}

#[test]
fn bomb_timer_expires_and_creates_explosion() {
    let mut audio = NoopAudio::default();
    let mut state = GameState::new();
    state.tick(secs(0.033), Action::PlaceBomb, &mut audio); // -> Playing
    state.bombs.clear();
    state.explosions.clear();

    state.bombs.push(Bomb::new(state.players[0].pos, 1, 0));
    state.tick(secs(10.0), Action::Idle, &mut audio);

    assert!(state.bombs.is_empty());
    assert!(!state.explosions.is_empty());
    assert!(audio.se_calls.contains(&SoundEffect::Explosion));
}

#[test]
fn explosion_kills_player_and_respawns_when_lives_remain() {
    let mut audio = NoopAudio::default();
    let mut state = GameState::new();
    state.tick(secs(0.033), Action::PlaceBomb, &mut audio); // -> Playing
    state.bombs.clear();

    let starting_lives = state.lives();
    state.bombs.push(Bomb::new(state.players[0].pos, 1, 0));
    state.tick(secs(10.0), Action::Idle, &mut audio);

    assert_eq!(state.lives(), starting_lives - 1);
    assert_eq!(state.screen, Screen::Playing);
    assert!(state.players[0].alive, "should respawn while lives remain");
    assert_eq!(state.players[0].pos, PLAYER_START);
    assert!(audio.se_calls.contains(&SoundEffect::Death));
}

#[test]
fn player_death_with_no_lives_ends_game() {
    let mut audio = NoopAudio::default();
    let mut state = GameState::new();
    state.tick(secs(0.033), Action::PlaceBomb, &mut audio); // -> Playing
    state.players[0].lives = 1;
    state.bombs.clear();

    state.bombs.push(Bomb::new(state.players[0].pos, 1, 0));
    state.tick(secs(10.0), Action::Idle, &mut audio);

    assert_eq!(state.lives(), 0);
    assert_eq!(state.screen, Screen::GameOver);
    assert!(audio.bgm_calls.contains(&Bgm::GameOver));
}

#[test]
fn all_enemies_defeated_clears_stage() {
    let mut audio = NoopAudio::default();
    let mut state = GameState::new();
    state.tick(secs(0.033), Action::PlaceBomb, &mut audio); // -> Playing
    state.bombs.clear();

    for enemy in state.enemies.iter_mut() {
        enemy.alive = false;
    }
    state.tick(secs(0.033), Action::Idle, &mut audio);

    assert_eq!(state.screen, Screen::Cleared);
    assert!(audio.bgm_calls.contains(&Bgm::Clear));
}

#[test]
fn result_screen_space_returns_to_title() {
    let mut audio = NoopAudio::default();
    let mut state = GameState::new();
    state.screen = Screen::GameOver;

    state.tick(secs(0.033), Action::Move(Direction::Up), &mut audio);
    assert_eq!(
        state.screen,
        Screen::GameOver,
        "only PlaceBomb should return to title"
    );

    state.tick(secs(0.033), Action::PlaceBomb, &mut audio);
    assert_eq!(state.screen, Screen::Title);
}

#[test]
fn item_pickup_increases_player_stats() {
    let mut audio = NoopAudio::default();
    let mut state = GameState::new();
    state.tick(secs(0.033), Action::PlaceBomb, &mut audio); // -> Playing

    let before_power = state.players[0].power;
    state.players[0].move_cooldown = secs(0.0);
    state.tick(secs(1.0), Action::Move(Direction::Right), &mut audio);
    assert_eq!(state.players[0].power, before_power);
}

#[test]
fn item_pickup_applies_correct_effect_for_each_kind() {
    let mut audio = NoopAudio::default();
    let mut seen_power = false;
    let mut seen_bomb_up = false;
    let mut seen_speed_up = false;
    let mut seen_invincible = false;

    'attempts: for _ in 0..600 {
        let mut state = GameState::new();
        state.tick(secs(0.033), Action::PlaceBomb, &mut audio); // -> Playing

        for row in 0..state.map.height as i32 {
            for col in 0..state.map.width as i32 {
                let pos = (row, col);
                if state.map.tile_at(pos) != Tile::Block {
                    continue;
                }
                let kind = match state.map.destroy_block(pos) {
                    Some(kind) => kind,
                    None => continue,
                };
                match kind {
                    ItemKind::Power if seen_power => continue,
                    ItemKind::BombUp if seen_bomb_up => continue,
                    ItemKind::SpeedUp if seen_speed_up => continue,
                    ItemKind::Invincible if seen_invincible => continue,
                    _ => {}
                }

                let before_power = state.players[0].power;
                let before_capacity = state.players[0].bomb_capacity;
                let before_speed = state.players[0].speed;
                let before_score = state.score();
                let before_invincible = state.players[0].invincible_remaining;

                state.players[0].pos = pos;
                state.try_pickup_item(0, &mut audio);

                assert_eq!(
                    state.map.tile_at(pos),
                    Tile::Empty,
                    "item tile must be consumed on pickup"
                );
                assert_eq!(state.score(), before_score + SCORE_PER_ITEM);
                assert!(audio.se_calls.contains(&SoundEffect::ItemGet));

                match kind {
                    ItemKind::Power => {
                        assert_eq!(state.players[0].power, before_power + 1);
                        seen_power = true;
                    }
                    ItemKind::BombUp => {
                        assert_eq!(state.players[0].bomb_capacity, before_capacity + 1);
                        seen_bomb_up = true;
                    }
                    ItemKind::SpeedUp => {
                        assert_eq!(state.players[0].speed, before_speed + SPEED_INCREMENT);
                        seen_speed_up = true;
                    }
                    ItemKind::Invincible => {
                        assert_eq!(before_invincible, 0);
                        assert_eq!(state.players[0].invincible_remaining, INVINCIBLE_DURATION);
                        assert!(state.players[0].is_invincible());
                        seen_invincible = true;
                    }
                }

                if seen_power && seen_bomb_up && seen_speed_up && seen_invincible {
                    break 'attempts;
                }
            }
        }
    }

    assert!(seen_power, "never observed a Power pickup across attempts");
    assert!(seen_bomb_up, "never observed a BombUp pickup across attempts");
    assert!(
        seen_speed_up,
        "never observed a SpeedUp pickup across attempts"
    );
    assert!(
        seen_invincible,
        "never observed an Invincible pickup across attempts"
    );
}

#[test]
fn bomb_explosion_chain_detonates_bomb_in_blast_range() {
    let mut audio = NoopAudio::default();
    let mut state = GameState::new();
    state.tick(secs(0.033), Action::PlaceBomb, &mut audio); // -> Playing
    state.bombs.clear();
    state.explosions.clear();

    let mut bomb_a = Bomb::new(state.players[0].pos, 1, 0);
    bomb_a.timer = secs(0.001);
    let mut bomb_b = Bomb::new((1, 2), 1, 0);
    bomb_b.timer = secs(100.0);
    state.bombs.push(bomb_a);
    state.bombs.push(bomb_b);

    state.tick(secs(1.0), Action::Idle, &mut audio);

    assert!(
        state.bombs.is_empty(),
        "both bombs should detonate in the same tick via chain reaction"
    );
    assert_eq!(
        state.explosions.len(),
        2,
        "each detonation (original + chained) should produce its own explosion"
    );
    assert_eq!(audio.se_calls.iter().filter(|se| **se == SoundEffect::Explosion).count(), 2);
}

#[test]
fn explosion_defeats_enemy_in_blast_range_and_awards_score() {
    let mut audio = NoopAudio::default();
    let mut state = GameState::new();
    state.tick(secs(0.033), Action::PlaceBomb, &mut audio); // -> Playing
    state.bombs.clear();

    state.enemies[0].pos = (1, 2);
    state.enemies[0].alive = true;
    let before_score = state.score();

    state.bombs.push(Bomb::new(state.players[0].pos, 1, 0));
    state.tick(secs(10.0), Action::Idle, &mut audio);

    assert!(!state.enemies[0].alive, "enemy in blast range must be defeated");
    assert_eq!(state.score(), before_score + SCORE_PER_ENEMY);
}

#[test]
fn player_touching_alive_enemy_dies_but_dead_enemy_is_harmless() {
    let mut audio = NoopAudio::default();
    let mut state = GameState::new();
    state.tick(secs(0.033), Action::PlaceBomb, &mut audio); // -> Playing
    let starting_lives = state.lives();

    state.enemies[0].pos = state.players[0].pos;
    state.enemies[0].alive = false;
    state.tick(secs(0.033), Action::Idle, &mut audio);
    assert!(
        state.players[0].alive,
        "a dead enemy must not hurt the player"
    );
    assert_eq!(state.lives(), starting_lives);

    state.enemies[0].alive = true;
    state.tick(secs(0.033), Action::Idle, &mut audio);
    assert_eq!(
        state.lives(),
        starting_lives - 1,
        "touching a live enemy must consume a life"
    );
    assert!(audio.se_calls.contains(&SoundEffect::Death));
    assert!(state.players[0].alive, "should respawn while lives remain");
    assert_eq!(state.players[0].pos, PLAYER_START);
}

#[test]
fn invincible_player_survives_enemy_contact_and_defeats_the_enemy() {
    let mut audio = NoopAudio::default();
    let mut state = GameState::new();
    state.tick(secs(0.033), Action::PlaceBomb, &mut audio); // -> Playing

    state.players[0].invincible_remaining = INVINCIBLE_DURATION;
    state.enemies[0].pos = state.players[0].pos;
    state.enemies[0].alive = true;
    let starting_lives = state.lives();
    let before_score = state.score();

    state.tick(secs(0.033), Action::Idle, &mut audio);

    assert_eq!(
        state.lives(),
        starting_lives,
        "an invincible player must not lose a life on enemy contact"
    );
    assert!(state.players[0].alive);
    assert!(
        !state.enemies[0].alive,
        "touching an enemy while invincible must defeat it"
    );
    assert_eq!(state.score(), before_score + SCORE_PER_ENEMY);
}

#[test]
fn invincible_player_survives_explosion() {
    let mut audio = NoopAudio::default();
    let mut state = GameState::new();
    state.tick(secs(0.033), Action::PlaceBomb, &mut audio); // -> Playing
    state.bombs.clear();

    state.players[0].invincible_remaining = INVINCIBLE_DURATION;
    let starting_lives = state.lives();

    let mut bomb = Bomb::new(state.players[0].pos, 1, 0);
    bomb.timer = secs(0.001);
    state.bombs.push(bomb);
    state.tick(secs(0.01), Action::Idle, &mut audio);

    assert!(
        state.bombs.is_empty(),
        "the bomb should have detonated this tick"
    );
    assert_eq!(
        state.lives(),
        starting_lives,
        "an invincible player must not lose a life to an explosion"
    );
    assert!(state.players[0].alive);
}

#[test]
fn invincibility_expires_after_its_duration() {
    let mut audio = NoopAudio::default();
    let mut state = GameState::new();
    state.tick(secs(0.033), Action::PlaceBomb, &mut audio); // -> Playing

    state.players[0].invincible_remaining = INVINCIBLE_DURATION;
    state.tick(INVINCIBLE_DURATION + secs(0.1), Action::Idle, &mut audio);

    assert!(!state.players[0].is_invincible());
    assert_eq!(state.players[0].invincible_remaining, 0);
}

#[test]
fn toggle_god_mode_action_flips_the_flag_regardless_of_move_cooldown() {
    let mut audio = NoopAudio::default();
    let mut state = GameState::new();
    state.tick(secs(0.033), Action::PlaceBomb, &mut audio); // -> Playing
    assert!(!state.players[0].god_mode);

    state.tick(secs(0.033), Action::ToggleGodMode, &mut audio);
    assert!(state.players[0].god_mode);
    assert!(state.players[0].is_invincible());

    state.tick(secs(0.033), Action::ToggleGodMode, &mut audio);
    assert!(!state.players[0].god_mode);
}

#[test]
fn god_mode_makes_player_immune_to_explosion_without_a_timer() {
    let mut audio = NoopAudio::default();
    let mut state = GameState::new();
    state.tick(secs(0.033), Action::PlaceBomb, &mut audio); // -> Playing
    state.bombs.clear();

    state.players[0].god_mode = true;
    let starting_lives = state.lives();

    let mut bomb = Bomb::new(state.players[0].pos, 1, 0);
    bomb.timer = secs(0.001);
    state.bombs.push(bomb);
    state.tick(secs(0.01), Action::Idle, &mut audio);

    assert_eq!(state.lives(), starting_lives);
    assert!(state.players[0].alive);
    assert!(
        state.players[0].god_mode,
        "god mode must stay on until toggled again (unlike the timed item)"
    );
}

fn started_versus(num_players: usize, audio: &mut NoopAudio) -> GameState {
    let mut state = GameState::new_multiplayer(num_players);
    let actions = vec![Action::PlaceBomb; num_players];
    state.tick_multi(secs(0.033), &actions, audio);
    assert_eq!(state.screen, Screen::Playing);
    assert!(
        state.bombs.is_empty(),
        "the title keypress must not place a bomb"
    );
    state
}

fn bomb_positions_of(state: &GameState, owner: usize) -> Vec<Coord> {
    state
        .bombs
        .iter()
        .filter(|bomb| bomb.owner == owner)
        .map(|bomb| bomb.pos)
        .collect()
}

#[test]
fn tick_multi_with_a_single_action_drives_the_solo_game_like_tick() {
    let mut audio = NoopAudio::default();
    let mut state = GameState::new();

    state.tick_multi(secs(0.033), &[Action::PlaceBomb], &mut audio); // -> Playing
    assert_eq!(state.screen, Screen::Playing);
    assert_eq!(state.players.len(), 1);
    assert_eq!(
        state.enemies.len(),
        3,
        "solo play must still spawn the CPU enemies"
    );

    state.players[0].move_cooldown = secs(0.0);
    state.tick_multi(secs(1.0), &[Action::Move(Direction::Right)], &mut audio);
    assert_eq!(state.players[0].pos, (1, 2));
}

#[test]
fn score_and_lives_accessors_expose_player_zero() {
    let mut audio = NoopAudio::default();
    let mut state = GameState::new();
    state.tick(secs(0.033), Action::PlaceBomb, &mut audio); // -> Playing

    assert_eq!(state.score(), state.players[0].score);
    assert_eq!(state.lives(), state.players[0].lives);

    state.players[0].score = 1234;
    state.players[0].lives = 2;
    assert_eq!(state.score(), 1234);
    assert_eq!(state.lives(), 2);

    let mut versus = started_versus(2, &mut audio);
    versus.players[0].score = 10;
    versus.players[1].score = 99;
    assert_eq!(versus.score(), 10);
}

#[test]
fn new_multiplayer_places_distinct_walkable_players_without_enemies() {
    for num_players in MIN_MULTIPLAYER_PLAYERS..=MAX_PLAYERS {
        let state = GameState::new_multiplayer(num_players);

        assert_eq!(state.screen, Screen::Title);
        assert_eq!(state.players.len(), num_players);
        assert_eq!(state.spawn_points.len(), num_players);
        assert!(
            state.enemies.is_empty(),
            "a versus match must not spawn CPU enemies"
        );
        assert_eq!(
            state.players[0].pos, PLAYER_START,
            "player 0 takes the corner that generate() always keeps empty"
        );

        for (idx, player) in state.players.iter().enumerate() {
            assert!(
                state.map.is_walkable(player.pos),
                "every spawn must be a walkable cell"
            );
            assert_eq!(player.pos, state.spawn_points[idx]);
            assert!(player.alive);
            assert_eq!(player.lives, STARTING_LIVES);
            assert_eq!(player.score, 0);
            assert_eq!(player.move_cooldown, 0);
        }

        for i in 0..num_players {
            for j in (i + 1)..num_players {
                assert_ne!(
                    state.players[i].pos, state.players[j].pos,
                    "players must not share a spawn cell"
                );
            }
        }
    }
}

#[test]
fn new_multiplayer_clamps_the_player_count_into_the_supported_range() {
    assert_eq!(
        GameState::new_multiplayer(0).players.len(),
        MIN_MULTIPLAYER_PLAYERS
    );
    assert_eq!(
        GameState::new_multiplayer(1).players.len(),
        MIN_MULTIPLAYER_PLAYERS
    );
    assert_eq!(GameState::new_multiplayer(3).players.len(), 3);
    assert_eq!(
        GameState::new_multiplayer(MAX_PLAYERS).players.len(),
        MAX_PLAYERS
    );
    assert_eq!(GameState::new_multiplayer(9).players.len(), MAX_PLAYERS);
}

#[test]
fn multiplayer_spawns_are_the_nearest_walkable_cell_to_each_corner() {
    let map = GameMap::generate(MAP_WIDTH, MAP_HEIGHT);
    let spawns = player_spawn_positions(&map, MAX_PLAYERS);
    let anchors = corner_anchors(&map);

    assert_eq!(spawns.len(), MAX_PLAYERS);

    for (i, &spawn) in spawns.iter().enumerate() {
        let distance = manhattan(spawn, anchors[i]);
        for row in 0..map.height as i32 {
            for col in 0..map.width as i32 {
                let candidate = (row, col);
                if !map.is_walkable(candidate) || spawns[..i].contains(&candidate) {
                    continue;
                }
                assert!(
                    manhattan(candidate, anchors[i]) >= distance,
                    "spawn {spawn:?} is not the closest available cell to corner {:?}",
                    anchors[i]
                );
            }
        }
    }
}

#[test]
fn nearest_player_pos_prefers_the_closest_living_player() {
    let mut players = vec![Player::new((1, 1)), Player::new((9, 9))];
    assert_eq!(nearest_player_pos(&players, (8, 9)), Some((9, 9)));
    assert_eq!(nearest_player_pos(&players, (1, 2)), Some((1, 1)));

    players[1].alive = false;
    assert_eq!(nearest_player_pos(&players, (8, 9)), Some((1, 1)));

    players[0].alive = false;
    assert_eq!(nearest_player_pos(&players, (8, 9)), Some((9, 9)));

    assert_eq!(nearest_player_pos(&[], (0, 0)), None);
}

#[test]
fn move_cooldowns_are_tracked_per_player() {
    let mut audio = NoopAudio::default();
    let mut state = started_versus(2, &mut audio);

    state.players[0].pos = PLAYER_START;
    state.players[1].pos = PLAYER_START;
    state.players[0].move_cooldown = secs(1.0);
    state.players[1].move_cooldown = secs(0.0);

    let actions = [
        Action::Move(Direction::Right),
        Action::Move(Direction::Right),
    ];
    state.tick_multi(secs(0.01), &actions, &mut audio);

    assert_eq!(
        state.players[0].pos, PLAYER_START,
        "player 0 is still on cooldown and must not move"
    );
    assert_eq!(
        state.players[1].pos,
        (1, 2),
        "player 1 was ready and must move"
    );
    assert!(
        state.players[1].move_cooldown > 0,
        "moving must start that player's own cooldown"
    );
    assert!(
        state.players[0].move_cooldown == secs(0.99),
        "a waiting player only has dt subtracted"
    );
}

#[test]
fn each_player_places_bombs_within_their_own_capacity() {
    let mut audio = NoopAudio::default();
    let mut state = started_versus(2, &mut audio);

    state.players[0].pos = (1, 1);
    state.players[1].pos = (2, 1);

    let place_both = [Action::PlaceBomb, Action::PlaceBomb];
    state.tick_multi(secs(0.001), &place_both, &mut audio);

    assert_eq!(state.bombs.len(), 2, "both players place one bomb each");
    assert_eq!(bomb_positions_of(&state, 0), vec![(1, 1)]);
    assert_eq!(bomb_positions_of(&state, 1), vec![(2, 1)]);

    state.players[1].pos = (1, 2);
    state.tick_multi(secs(0.001), &place_both, &mut audio);
    assert_eq!(
        state.bombs.len(),
        2,
        "capacity 1 must block a second bomb per player"
    );

    state.players[1].bomb_capacity = 2;
    state.tick_multi(secs(0.001), &place_both, &mut audio);
    assert_eq!(bomb_positions_of(&state, 1), vec![(2, 1), (1, 2)]);
    assert_eq!(
        bomb_positions_of(&state, 0),
        vec![(1, 1)],
        "player 0 capacity must be unaffected by player 1"
    );
}

#[test]
fn tick_multi_treats_a_missing_action_as_no_input() {
    let mut audio = NoopAudio::default();
    let mut state = started_versus(2, &mut audio);

    state.players[0].pos = PLAYER_START;
    state.players[1].pos = PLAYER_START;
    state.players[0].move_cooldown = secs(0.0);
    state.players[1].move_cooldown = secs(0.0);

    state.tick_multi(secs(1.0), &[Action::Move(Direction::Right)], &mut audio);

    assert_eq!(state.players[0].pos, (1, 2));
    assert_eq!(
        state.players[1].pos, PLAYER_START,
        "a player without an action must not move"
    );
}

#[test]
fn an_explosion_hurts_every_player_in_range_and_a_mutual_kill_is_a_draw() {
    let mut audio = NoopAudio::default();
    let mut state = started_versus(2, &mut audio);

    state.players[0].pos = (1, 1);
    state.players[1].pos = (1, 2);

    let mut bomb = Bomb::new((1, 1), 1, 0);
    bomb.timer = secs(0.001);
    state.bombs.push(bomb);
    state.tick_multi(secs(0.01), &[Action::Idle, Action::Idle], &mut audio);

    assert!(
        !state.players[0].alive,
        "the owner is not immune to their own bomb"
    );
    assert!(!state.players[1].alive, "every player in range is caught");
    assert_eq!(state.players[0].lives, STARTING_LIVES - 1);
    assert_eq!(state.players[1].lives, STARTING_LIVES - 1);
    assert_eq!(
        state.screen,
        Screen::MatchResult(None),
        "wiping out everyone is a draw"
    );
    assert!(audio.se_calls.contains(&SoundEffect::Death));
    assert!(audio.bgm_calls.contains(&Bgm::GameOver));
}

#[test]
fn invincibility_is_evaluated_per_player() {
    let mut audio = NoopAudio::default();
    let mut state = started_versus(2, &mut audio);

    state.players[0].pos = (1, 1);
    state.players[1].pos = (1, 2);
    state.players[1].invincible_remaining = INVINCIBLE_DURATION;

    let mut bomb = Bomb::new((1, 1), 1, 1);
    bomb.timer = secs(0.001);
    state.bombs.push(bomb);
    state.tick_multi(secs(0.01), &[Action::Idle, Action::Idle], &mut audio);

    assert!(
        !state.players[0].alive,
        "the player without invincibility dies"
    );
    assert!(
        state.players[1].alive,
        "the invincible player survives the same blast"
    );
    assert_eq!(
        state.screen,
        Screen::MatchResult(Some(1)),
        "the survivor wins the match"
    );
}

#[test]
fn last_player_standing_wins_the_match() {
    let mut audio = NoopAudio::default();
    let mut state = started_versus(MAX_PLAYERS, &mut audio);

    for idx in [0, 1, 3] {
        state.players[idx].alive = false;
    }
    state.tick_multi(secs(0.033), &[Action::Idle; MAX_PLAYERS], &mut audio);

    assert_eq!(state.screen, Screen::MatchResult(Some(2)));
    assert!(audio.se_calls.contains(&SoundEffect::StageClear));
    assert!(audio.bgm_calls.contains(&Bgm::Clear));
}

#[test]
fn a_versus_death_is_permanent_even_with_lives_remaining() {
    let mut audio = NoopAudio::default();
    let mut state = started_versus(3, &mut audio);

    state.players[1].pos = (1, 2);
    state.players[1].alive = false;
    assert!(
        state.players[1].lives > 0,
        "lives remain, but a versus match has no respawn"
    );

    state.tick_multi(secs(0.033), &[Action::Idle; 3], &mut audio);

    assert!(
        !state.players[1].alive,
        "an eliminated player must not respawn"
    );
    assert_eq!(state.players[1].pos, (1, 2));
    assert_eq!(
        state.screen,
        Screen::Playing,
        "two players are still alive so the match continues"
    );
}

#[test]
fn match_result_screen_space_returns_to_title() {
    let mut audio = NoopAudio::default();
    let mut state = GameState::new_multiplayer(2);
    state.screen = Screen::MatchResult(Some(1));

    state.tick_multi(
        secs(0.033),
        &[Action::Move(Direction::Up), Action::Idle],
        &mut audio,
    );
    assert_eq!(
        state.screen,
        Screen::MatchResult(Some(1)),
        "only PlaceBomb should return to title"
    );

    state.tick_multi(secs(0.033), &[Action::Idle, Action::PlaceBomb], &mut audio);
    assert_eq!(state.screen, Screen::Title);
}

#[test]
fn restarting_from_the_title_keeps_the_multiplayer_setup() {
    let mut audio = NoopAudio::default();
    let mut state = started_versus(3, &mut audio);
    state.players[0].score = 500;
    state.players[0].lives = 1;

    state.screen = Screen::Title;
    state.tick_multi(
        secs(0.033),
        &[Action::PlaceBomb, Action::Idle, Action::Idle],
        &mut audio,
    );

    assert_eq!(state.screen, Screen::Playing);
    assert_eq!(
        state.players.len(),
        3,
        "the player count must survive a restart"
    );
    assert!(
        state.enemies.is_empty(),
        "a versus restart must not spawn CPU enemies"
    );
    for (idx, player) in state.players.iter().enumerate() {
        assert_eq!(player.pos, state.spawn_points[idx]);
        assert_eq!(player.score, 0, "scores are reset on a new game");
        assert_eq!(player.lives, STARTING_LIVES);
        assert!(player.alive);
    }
}
