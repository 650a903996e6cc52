//! The rules of the game as functions on values.
//!
//! A `Scene` is a state of the game together with the sounds asked for so far.
//! Each stage of a tick takes a scene to the next one. Where chance has a part,
//! its outcome is an argument: a `Luck`.

use vstd::prelude::*;

use crate::audio::AudioCommand;
use crate::game::entities;
use crate::game::entities::{Bomb, Enemy, ExplosionView, Player};
use crate::game::geometry;
use crate::game::map::MapView;
use crate::game::spawn;
use crate::types;
use crate::types::{Action, Bgm, Coord, Direction, ItemKind, Nanos, Screen, SoundEffect, Tile};

verus! {

/// The width of the board, walls included.
pub const MAP_WIDTH: usize = 15;

/// The height of the board, walls included.
pub const MAP_HEIGHT: usize = 13;

/// The time a player takes for one cell at speed one: 0.12 seconds.
pub const BASE_MOVE_INTERVAL: Nanos = 120_000_000;

/// Slower than this, in thousandths, no player walks.
pub const MIN_SPEED: u32 = 100;

/// The time between two moves of the enemies: 0.45 seconds.
pub const ENEMY_MOVE_INTERVAL: Nanos = 450_000_000;

/// What a speed item adds to the speed, in thousandths.
pub const SPEED_INCREMENT: u32 = 400;

/// Points for an item.
pub const SCORE_PER_ITEM: u32 = 50;

/// Points for an enemy.
pub const SCORE_PER_ENEMY: u32 = 200;

/// How long an invincibility item lasts: five seconds.
pub const INVINCIBLE_DURATION: Nanos = 5_000_000_000;

/// The state of a game as a value.
#[verifier::ext_equal]
pub struct GameView {
    pub screen: Screen,
    pub map: MapView,
    pub players: Seq<Player>,
    pub enemies: Seq<Enemy>,
    pub bombs: Seq<Bomb>,
    pub explosions: Seq<ExplosionView>,
    pub spawn_points: Seq<Coord>,
    pub enemy_move_cooldown: Nanos,
}

/// A state of a game and the sounds asked for so far.
#[verifier::ext_equal]
pub struct Scene {
    pub game: GameView,
    pub heard: Seq<AudioCommand>,
}

/// The outcome of every draw made in one tick.
pub struct Luck {
    /// What a block leaves behind when it is destroyed.
    pub drops: spec_fn(Coord) -> Option<ItemKind>,
    /// The direction that each enemy chooses.
    pub turns: Seq<Direction>,
}

impl GameView {
    /// What every operation of a game keeps: the board has its shape, and nobody
    /// is out of range.
    pub open spec fn wf(self) -> bool {
        &&& spawn::measurable(self.map)
        &&& forall|i: int|
            0 <= i < self.players.len() ==> geometry::in_range((#[trigger] self.players[i]).pos)
        &&& forall|i: int|
            0 <= i < self.enemies.len() ==> geometry::in_range((#[trigger] self.enemies[i]).pos)
        &&& forall|i: int|
            0 <= i < self.bombs.len() ==> geometry::in_range((#[trigger] self.bombs[i]).pos)
        &&& forall|i: int|
            0 <= i < self.spawn_points.len() ==> geometry::in_range(
                #[trigger] self.spawn_points[i],
            )
    }

    /// Whether no counter can run over in the coming tick: a player gains at most
    /// one item and the points for every enemy alive.
    pub open spec fn has_headroom(self) -> bool {
        forall|i: int|
            0 <= i < self.players.len() ==> player_has_headroom(
                #[trigger] self.players[i],
                count(self.enemies, living()),
            )
    }
}

/// Picks out the enemies that are alive.
pub open spec fn living() -> spec_fn(Enemy) -> bool {
    |enemy: Enemy| enemy.alive
}

/// Whether the counters of a player stand one item and that many enemies.
pub open spec fn player_has_headroom(player: Player, enemies: nat) -> bool {
    &&& player.power < u32::MAX
    &&& player.bomb_capacity < u32::MAX
    &&& player.speed <= u32::MAX - SPEED_INCREMENT
    &&& player.score + SCORE_PER_ITEM + enemies * SCORE_PER_ENEMY <= u32::MAX
}

/// The scene with these two parts.
pub open spec fn scene(game: GameView, heard: Seq<AudioCommand>) -> Scene {
    Scene { game, heard }
}

impl Scene {
    /// The scene after one more request to the sound device.
    pub open spec fn sounding(self, command: AudioCommand) -> Scene {
        Scene { heard: self.heard.push(command), ..self }
    }

    /// The scene with another player in the place of player `idx`.
    pub open spec fn with_player(self, idx: int, player: Player) -> Scene {
        Scene {
            game: GameView { players: self.game.players.update(idx, player), ..self.game },
            ..self
        }
    }
}

/// The number of elements with a property.
pub open spec fn count<T>(s: Seq<T>, p: spec_fn(T) -> bool) -> nat
    decreases s.len(),
{
    if s.len() == 0 {
        0
    } else {
        count(s.drop_last(), p) + if p(s.last()) {
            1nat
        } else {
            0nat
        }
    }
}

// ---------------------------------------------------------------------------
// Input

/// The action of player `idx`; players without one do nothing.
pub open spec fn action_of(actions: Seq<Action>, idx: int) -> Action {
    if 0 <= idx < actions.len() {
        actions[idx]
    } else {
        Action::Idle
    }
}

/// Whether there is a bomb at `pos`.
pub open spec fn bomb_on(bombs: Seq<Bomb>, pos: Coord) -> bool {
    exists|i: int| 0 <= i < bombs.len() && (#[trigger] bombs[i]).pos == pos
}

/// Picks out the bombs of player `idx`.
pub open spec fn owned_by(idx: int) -> spec_fn(Bomb) -> bool {
    |bomb: Bomb| bomb.owner == idx
}

/// The player with `dt` off the wait for the next move.
pub open spec fn rested(player: Player, dt: Nanos) -> Player {
    if player.move_cooldown > 0 {
        Player { move_cooldown: types::elapsed(player.move_cooldown, dt), ..player }
    } else {
        player
    }
}

/// The time that one move takes at a speed given in thousandths.
pub open spec fn move_interval(speed: u32) -> Nanos {
    (BASE_MOVE_INTERVAL * entities::NORMAL_SPEED / (if speed < MIN_SPEED {
        MIN_SPEED as int
    } else {
        speed as int
    })) as i64
}

/// The player after taking an item.
pub open spec fn equipped(player: Player, kind: ItemKind) -> Player {
    let better = match kind {
        ItemKind::Power => Player { power: (player.power + 1) as u32, ..player },
        ItemKind::BombUp => Player { bomb_capacity: (player.bomb_capacity + 1) as u32, ..player },
        ItemKind::SpeedUp => Player { speed: (player.speed + SPEED_INCREMENT) as u32, ..player },
        ItemKind::Invincible => Player { invincible_remaining: INVINCIBLE_DURATION, ..player },
    };
    Player { score: (player.score + SCORE_PER_ITEM) as u32, ..better }
}

/// Player `idx` takes the item lying underfoot, if there is one.
pub open spec fn picked_up(scene: Scene, idx: int) -> Scene {
    let player = scene.game.players[idx];
    match scene.game.map.tile(player.pos) {
        Tile::ItemTile(kind) => Scene {
            game: GameView {
                map: scene.game.map.with_tile(player.pos, Tile::Empty),
                ..scene.game
            },
            ..scene
        }.with_player(idx, equipped(player, kind)).sounding(
            AudioCommand::PlaySe(SoundEffect::ItemGet),
        ),
        _ => scene,
    }
}

/// Player `idx` places a bomb, unless all the player's bombs are on the board or
/// there is a bomb in that place already.
pub open spec fn bomb_placed(scene: Scene, idx: int) -> Scene {
    let player = scene.game.players[idx];
    let own = count(scene.game.bombs, owned_by(idx));
    if (own as u32) >= player.bomb_capacity || bomb_on(scene.game.bombs, player.pos) {
        scene
    } else {
        Scene {
            game: GameView {
                bombs: scene.game.bombs.push(
                    Bomb {
                        pos: player.pos,
                        owner: idx as usize,
                        timer: entities::DEFAULT_BOMB_TIMER,
                        power: player.power,
                    },
                ),
                ..scene.game
            },
            ..scene
        }.sounding(AudioCommand::PlaySe(SoundEffect::PlaceBomb))
    }
}

/// Player `idx` moves one cell, if the cell is walkable and holds no bomb, and
/// takes the item lying there.
pub open spec fn walked(scene: Scene, idx: int, dir: Direction) -> Scene {
    let player = scene.game.players[idx];
    let target = geometry::stepped(player.pos, dir);
    if scene.game.map.walkable(target) && !bomb_on(scene.game.bombs, target) {
        picked_up(
            scene.with_player(
                idx,
                Player { pos: target, move_cooldown: move_interval(player.speed), ..player },
            ),
            idx,
        )
    } else {
        scene
    }
}

/// What the input of player `idx` does. Only the hidden command works on the
/// dead, and only players who have waited long enough move.
pub open spec fn acted(scene: Scene, idx: int, dt: Nanos, action: Action) -> Scene {
    let player = rested(scene.game.players[idx], dt);
    let ready = scene.with_player(idx, player);
    match action {
        Action::ToggleGodMode => scene.with_player(
            idx,
            Player { god_mode: !player.god_mode, ..player },
        ),
        Action::Move(dir) if player.alive && player.move_cooldown <= 0 => walked(ready, idx, dir),
        Action::PlaceBomb if player.alive => bomb_placed(ready, idx),
        _ => ready,
    }
}

/// The input of the first `upto` players, one after the other.
pub open spec fn all_acted(scene: Scene, dt: Nanos, actions: Seq<Action>, upto: nat) -> Scene
    decreases upto,
{
    if upto == 0 {
        scene
    } else {
        acted(
            all_acted(scene, dt, actions, (upto - 1) as nat),
            upto - 1,
            dt,
            action_of(actions, upto - 1),
        )
    }
}

// ---------------------------------------------------------------------------
// Time

/// The player with `dt` off the time of invincibility, down to zero.
pub open spec fn less_shielded(player: Player, dt: Nanos) -> Player {
    if player.invincible_remaining > 0 {
        let left = types::elapsed(player.invincible_remaining, dt);
        Player {
            invincible_remaining: if left > 0 {
                left
            } else {
                0
            },
            ..player
        }
    } else {
        player
    }
}

/// The bomb with `dt` off its fuse.
pub open spec fn burnt(bomb: Bomb, dt: Nanos) -> Bomb {
    Bomb { timer: types::elapsed(bomb.timer, dt), ..bomb }
}

/// The blast with `dt` off the time it has left.
pub open spec fn cooler(explosion: ExplosionView, dt: Nanos) -> ExplosionView {
    ExplosionView { remaining: types::elapsed(explosion.remaining, dt), ..explosion }
}

/// The blasts that are left after `dt`.
pub open spec fn faded(explosions: Seq<ExplosionView>, dt: Nanos) -> Seq<ExplosionView> {
    explosions.map_values(|explosion: ExplosionView| cooler(explosion, dt)).filter(
        |explosion: ExplosionView| explosion.remaining > 0,
    )
}

/// Invincibility runs out a little.
pub open spec fn shields_passed(scene: Scene, dt: Nanos) -> Scene {
    Scene {
        game: GameView {
            players: scene.game.players.map_values(|player: Player| less_shielded(player, dt)),
            ..scene.game
        },
        ..scene
    }
}

/// Blasts fade and fuses burn.
pub open spec fn fuses_passed(scene: Scene, dt: Nanos) -> Scene {
    Scene {
        game: GameView {
            explosions: faded(scene.game.explosions, dt),
            bombs: scene.game.bombs.map_values(|bomb: Bomb| burnt(bomb, dt)),
            ..scene.game
        },
        ..scene
    }
}

// ---------------------------------------------------------------------------
// Blasts

/// The player killed, and one life poorer.
pub open spec fn killed(player: Player) -> Player {
    Player {
        alive: false,
        lives: if player.lives > 0 {
            (player.lives - 1) as u32
        } else {
            0
        },
        ..player
    }
}

/// Whether the blast kills the player.
pub open spec fn caught(player: Player, cells: Seq<Coord>) -> bool {
    player.alive && !player.invincible() && cells.contains(player.pos)
}

/// Whether the blast kills the enemy.
pub open spec fn struck(enemy: Enemy, cells: Seq<Coord>) -> bool {
    enemy.alive && cells.contains(enemy.pos)
}

/// Picks out the players whom the blast kills.
pub open spec fn caught_in(cells: Seq<Coord>) -> spec_fn(Player) -> bool {
    |player: Player| caught(player, cells)
}

/// Picks out the enemies that the blast kills.
pub open spec fn struck_in(cells: Seq<Coord>) -> spec_fn(Enemy) -> bool {
    |enemy: Enemy| struck(enemy, cells)
}

/// The bombs with those in the blast set off.
pub open spec fn chained(bombs: Seq<Bomb>, cells: Seq<Coord>) -> Seq<Bomb> {
    bombs.map_values(
        |bomb: Bomb|
            if cells.contains(bomb.pos) {
                Bomb { timer: 0, ..bomb }
            } else {
                bomb
            },
    )
}

/// The board with the blocks in the blast destroyed.
pub open spec fn cleared(
    map: MapView,
    cells: Seq<Coord>,
    drops: spec_fn(Coord) -> Option<ItemKind>,
) -> MapView {
    MapView {
        tiles: Seq::new(
            map.tiles.len(),
            |row: int|
                Seq::new(
                    map.tiles[row].len(),
                    |col: int|
                        if map.tiles[row][col] is Block && cells.contains((row as i32, col as i32)) {
                            crate::game::map::dropped_tile(drops((row as i32, col as i32)))
                        } else {
                            map.tiles[row][col]
                        },
                ),
        ),
        ..map
    }
}

/// The players with those in the blast killed.
pub open spec fn scorched(players: Seq<Player>, cells: Seq<Coord>) -> Seq<Player> {
    players.map_values(
        |player: Player|
            if caught(player, cells) {
                killed(player)
            } else {
                player
            },
    )
}

/// The enemies with those in the blast killed.
pub open spec fn decimated(enemies: Seq<Enemy>, cells: Seq<Coord>) -> Seq<Enemy> {
    enemies.map_values(
        |enemy: Enemy|
            if struck(enemy, cells) {
                Enemy { alive: false, ..enemy }
            } else {
                enemy
            },
    )
}

/// The players with `enemies` more enemies to the credit of player `idx`, if
/// there is such a player.
pub open spec fn credited(players: Seq<Player>, idx: int, enemies: nat) -> Seq<Player> {
    if 0 <= idx < players.len() {
        players.update(
            idx,
            Player {
                score: (players[idx].score + enemies * SCORE_PER_ENEMY) as u32,
                ..players[idx]
            },
        )
    } else {
        players
    }
}

/// The requests to play one sound `n` times.
pub open spec fn repeated(se: SoundEffect, n: nat) -> Seq<AudioCommand> {
    Seq::new(n, |i: int| AudioCommand::PlaySe(se))
}

/// Whether the bomb is due.
pub open spec fn due(bomb: Bomb) -> bool {
    bomb.timer <= 0
}

/// Bomb `i` goes off. Its blast sets off the bombs it reaches, destroys blocks,
/// and kills players and enemies; the points for the enemies go to the player
/// whose bomb it was.
pub open spec fn blown_up(
    scene: Scene,
    i: int,
    drops: spec_fn(Coord) -> Option<ItemKind>,
) -> Scene {
    let game = scene.game;
    let bomb = game.bombs[i];
    let cells = entities::blast(bomb.pos, bomb.power as nat, game.map);
    let deaths = count(game.players, caught_in(cells));
    let kills = count(game.enemies, struck_in(cells));
    Scene {
        game: GameView {
            bombs: chained(game.bombs.remove(i), cells),
            map: cleared(game.map, cells, drops),
            players: credited(scorched(game.players, cells), bomb.owner as int, kills),
            enemies: decimated(game.enemies, cells),
            explosions: game.explosions.push(
                ExplosionView { cells, remaining: entities::DEFAULT_EXPLOSION_DURATION },
            ),
            ..game
        },
        heard: scene.heard + repeated(SoundEffect::Death, deaths),
    }.sounding(AudioCommand::PlaySe(SoundEffect::Explosion))
}

/// Whether bomb `i` is the first that is due.
pub open spec fn first_due(bombs: Seq<Bomb>, i: int) -> bool {
    &&& 0 <= i < bombs.len()
    &&& due(bombs[i])
    &&& forall|j: int| 0 <= j < i ==> !due(#[trigger] bombs[j])
}

/// Bombs that are due go off, one after the other, until none is due any more.
pub open spec fn detonated(scene: Scene, drops: spec_fn(Coord) -> Option<ItemKind>) -> Scene
    decreases scene.game.bombs.len(),
{
    if exists|i: int| first_due(scene.game.bombs, i) {
        let i = choose|i: int| first_due(scene.game.bombs, i);
        detonated(blown_up(scene, i, drops), drops)
    } else {
        scene
    }
}

// ---------------------------------------------------------------------------
// Enemies

/// How far each player is from a cell.
pub open spec fn player_distances(players: Seq<Player>, from: Coord) -> Seq<int> {
    players.map_values(|player: Player| geometry::distance(player.pos, from))
}

/// The players that enemies go by: those alive, or all of them if none is.
pub open spec fn targets(players: Seq<Player>) -> Seq<Player> {
    let living = players.filter(|player: Player| player.alive);
    if living.len() > 0 {
        living
    } else {
        players
    }
}

/// Where the player closest to a cell is; the first of several.
pub open spec fn nearest_target(players: Seq<Player>, from: Coord) -> Option<Coord> {
    let pool = targets(players);
    if pool.len() == 0 {
        None
    } else {
        Some(
            pool[choose|i: int| geometry::first_least(player_distances(pool, from), i)].pos,
        )
    }
}

/// Whether an enemy may choose `dir` in this state.
pub open spec fn fair_turn(game: GameView, enemy: Enemy, dir: Direction) -> bool {
    match nearest_target(game.players, enemy.pos) {
        Some(target) => enemy.alive ==> entities::may_choose(
            enemy.kind,
            entities::open_directions(game.map, enemy.pos),
            enemy.pos,
            target,
            dir,
        ),
        None => true,
    }
}

/// The enemy after a turn in `dir`: it does not enter cells that are not walkable
/// or that hold a bomb.
pub open spec fn turned(game: GameView, enemy: Enemy, dir: Direction) -> Enemy {
    let target = geometry::stepped(enemy.pos, dir);
    if enemy.alive && game.players.len() > 0 && game.map.walkable(target) && !bomb_on(
        game.bombs,
        target,
    ) {
        Enemy { pos: target, ..enemy }
    } else {
        enemy
    }
}

/// Whether the enemies move in this tick.
pub open spec fn enemies_ready(game: GameView) -> bool {
    game.enemy_move_cooldown <= 0
}

/// The enemies move when their wait is over; else the wait gets shorter.
pub open spec fn enemies_passed(game: GameView, dt: Nanos, turns: Seq<Direction>) -> GameView {
    if enemies_ready(game) {
        GameView {
            enemies: Seq::new(
                game.enemies.len(),
                |i: int| turned(game, game.enemies[i], turns[i]),
            ),
            enemy_move_cooldown: ENEMY_MOVE_INTERVAL,
            ..game
        }
    } else {
        GameView {
            enemy_move_cooldown: types::elapsed(game.enemy_move_cooldown, dt),
            ..game
        }
    }
}

/// Whether every enemy may choose the direction that `turns` has for it.
pub open spec fn fair_turns(game: GameView, turns: Seq<Direction>) -> bool {
    enemies_ready(game) ==> {
        &&& turns.len() == game.enemies.len()
        &&& forall|i: int|
            0 <= i < game.enemies.len() ==> fair_turn(
                game,
                game.enemies[i],
                #[trigger] turns[i],
            )
    }
}

/// Player `idx` meets the enemies in the same cell: they kill the player, or are
/// killed if the player is invincible.
pub open spec fn met(scene: Scene, idx: int) -> Scene {
    let game = scene.game;
    let player = game.players[idx];
    let here = seq![player.pos];
    let kills = count(game.enemies, struck_in(here));
    if !player.alive {
        scene
    } else if player.invincible() {
        Scene {
            game: GameView {
                enemies: decimated(game.enemies, here),
                players: credited(game.players, idx, kills),
                ..game
            },
            ..scene
        }
    } else if kills > 0 {
        scene.with_player(idx, killed(player)).sounding(AudioCommand::PlaySe(SoundEffect::Death))
    } else {
        scene
    }
}

/// The first `upto` players meet the enemies, one after the other.
pub open spec fn all_met(scene: Scene, upto: nat) -> Scene
    decreases upto,
{
    if upto == 0 {
        scene
    } else {
        met(all_met(scene, (upto - 1) as nat), upto - 1)
    }
}

// ---------------------------------------------------------------------------
// The end of a round

/// Whether players play against each other: there are several and no enemies.
pub open spec fn versus(game: GameView) -> bool {
    game.players.len() > 1 && game.enemies.len() == 0
}

/// Where player `idx` starts and comes back to life.
pub open spec fn spawn_of(game: GameView, idx: int) -> Coord {
    if 0 <= idx < game.spawn_points.len() {
        game.spawn_points[idx]
    } else {
        spawn::PLAYER_START
    }
}

/// The player back to life at `spawn`.
pub open spec fn revived(player: Player, spawn: Coord) -> Player {
    Player { pos: spawn, alive: true, move_cooldown: 0, ..player }
}

/// Whether some player is dead.
pub open spec fn someone_dead(players: Seq<Player>) -> bool {
    exists|i: int| 0 <= i < players.len() && !(#[trigger] players[i]).alive
}

/// Whether some player is dead for good.
pub open spec fn someone_out(players: Seq<Player>) -> bool {
    exists|i: int|
        0 <= i < players.len() && !(#[trigger] players[i]).alive && players[i].lives == 0
}

/// Whether there were enemies and all are dead.
pub open spec fn enemies_gone(enemies: Seq<Enemy>) -> bool {
    &&& enemies.len() > 0
    &&& forall|i: int| 0 <= i < enemies.len() ==> !(#[trigger] enemies[i]).alive
}

/// The scene on another screen.
pub open spec fn on_screen(scene: Scene, screen: Screen) -> Scene {
    Scene { game: GameView { screen, ..scene.game }, ..scene }
}

/// The sounds of a round that is won.
pub open spec fn fanfare(scene: Scene) -> Scene {
    scene.sounding(AudioCommand::StopBgm).sounding(
        AudioCommand::PlaySe(SoundEffect::StageClear),
    ).sounding(AudioCommand::PlayBgm(Bgm::Clear))
}

/// The sounds of a round that is lost.
pub open spec fn dirge(scene: Scene) -> Scene {
    scene.sounding(AudioCommand::StopBgm).sounding(AudioCommand::PlayBgm(Bgm::GameOver))
}

/// The players with those back to life who were dead and have lives left.
pub open spec fn solo_revived(game: GameView) -> Seq<Player> {
    Seq::new(
        game.players.len(),
        |i: int|
            if !game.players[i].alive && game.players[i].lives > 0 {
                revived(game.players[i], spawn_of(game, i))
            } else {
                game.players[i]
            },
    )
}

/// The end of a round against enemies: the dead come back to life while they have
/// lives; without lives the game is over; the stage is cleared once all enemies
/// are dead, but not in a tick in which a player died.
pub open spec fn solo_resolved(scene: Scene) -> Scene {
    let game = scene.game;
    let after = Scene { game: GameView { players: solo_revived(game), ..game }, ..scene };
    if someone_out(game.players) {
        dirge(on_screen(after, Screen::GameOver))
    } else if !someone_dead(game.players) && enemies_gone(game.enemies) {
        fanfare(on_screen(after, Screen::Cleared))
    } else {
        after
    }
}

/// Whether player `i` is the only one alive.
pub open spec fn sole_survivor(players: Seq<Player>, i: int) -> bool {
    &&& 0 <= i < players.len()
    &&& players[i].alive
    &&& forall|j: int| 0 <= j < players.len() && j != i ==> !(#[trigger] players[j]).alive
}

/// Whether nobody is alive.
pub open spec fn wiped_out(players: Seq<Player>) -> bool {
    forall|i: int| 0 <= i < players.len() ==> !(#[trigger] players[i]).alive
}

/// The end of a match between players: the last one alive wins; nobody comes back
/// to life; if all are dead it is a draw.
pub open spec fn versus_resolved(scene: Scene) -> Scene {
    let players = scene.game.players;
    if exists|i: int| sole_survivor(players, i) {
        let winner = choose|i: int| sole_survivor(players, i);
        fanfare(on_screen(scene, Screen::MatchResult(Some(winner as usize))))
    } else if wiped_out(players) {
        dirge(on_screen(scene, Screen::MatchResult(None)))
    } else {
        scene
    }
}

/// The end of a round, if it is over.
pub open spec fn resolved(scene: Scene) -> Scene {
    if versus(scene.game) {
        versus_resolved(scene)
    } else {
        solo_resolved(scene)
    }
}

// ---------------------------------------------------------------------------
// A tick

/// A tick of play up to the enemies' turn.
pub open spec fn before_enemies(
    scene: Scene,
    dt: Nanos,
    actions: Seq<Action>,
    drops: spec_fn(Coord) -> Option<ItemKind>,
) -> Scene {
    detonated(
        fuses_passed(
            all_acted(shields_passed(scene, dt), dt, actions, scene.game.players.len()),
            dt,
        ),
        drops,
    )
}

/// A tick of play.
pub open spec fn played(scene: Scene, dt: Nanos, actions: Seq<Action>, luck: Luck) -> Scene {
    let before = before_enemies(scene, dt, actions, luck.drops);
    let after = Scene {
        game: enemies_passed(before.game, dt, luck.turns),
        ..before
    };
    resolved(all_met(after, after.game.players.len()))
}

/// Whether chance can have come out like this in a tick of play.
pub open spec fn fair(scene: Scene, dt: Nanos, actions: Seq<Action>, luck: Luck) -> bool {
    fair_turns(before_enemies(scene, dt, actions, luck.drops).game, luck.turns)
}

/// Whether one of that many players presses a key that starts the game.
pub open spec fn starts(actions: Seq<Action>, players: nat) -> bool {
    exists|i: int|
        0 <= i < players && !((#[trigger] action_of(actions, i)) is Idle) && !(action_of(
            actions,
            i,
        ) is Quit)
}

/// Whether one of that many players presses the key that leaves a result screen.
pub open spec fn leaves(actions: Seq<Action>, players: nat) -> bool {
    exists|i: int| 0 <= i < players && (#[trigger] action_of(actions, i)) is PlaceBomb
}

/// The players at the start of a game, one for each starting cell.
pub open spec fn fresh_players(spawns: Seq<Coord>) -> Seq<Player> {
    spawns.map_values(|pos: Coord| Player::fresh(pos))
}

/// A new solo game on that board, on the title screen.
pub open spec fn solo_game(map: MapView) -> GameView {
    GameView {
        screen: Screen::Title,
        map,
        players: seq![Player::fresh(spawn::PLAYER_START)],
        enemies: spawn::spawned_enemies(map),
        bombs: seq![],
        explosions: seq![],
        spawn_points: seq![spawn::PLAYER_START],
        enemy_move_cooldown: ENEMY_MOVE_INTERVAL,
    }
}

/// A new match between `size` players on that board, on the title screen.
pub open spec fn versus_game(map: MapView, size: nat) -> GameView {
    let spawns = spawn::player_spawns(map, size);
    GameView {
        screen: Screen::Title,
        map,
        players: fresh_players(spawns),
        enemies: seq![],
        bombs: seq![],
        explosions: seq![],
        spawn_points: spawns,
        enemy_move_cooldown: ENEMY_MOVE_INTERVAL,
    }
}

/// The number of players in a match when `asked` were asked for: two to four.
pub open spec fn match_size(asked: nat) -> nat {
    if asked < spawn::MIN_MULTIPLAYER_PLAYERS {
        spawn::MIN_MULTIPLAYER_PLAYERS as nat
    } else if asked > spawn::MAX_PLAYERS {
        spawn::MAX_PLAYERS as nat
    } else {
        asked
    }
}

/// The game begins anew on that board, with as many players as before.
pub open spec fn started(scene: Scene, map: MapView) -> Scene {
    let players = scene.game.players.len();
    on_screen(
        Scene {
            game: if players <= 1 {
                solo_game(map)
            } else {
                versus_game(map, players)
            },
            ..scene
        },
        Screen::Playing,
    ).sounding(AudioCommand::StopBgm).sounding(AudioCommand::PlayBgm(Bgm::Stage))
}

/// Back to the title screen.
pub open spec fn left(scene: Scene) -> Scene {
    on_screen(scene, Screen::Title).sounding(AudioCommand::StopBgm).sounding(
        AudioCommand::PlayBgm(Bgm::Title),
    )
}

/// Whether a tick can lead from one scene to the other. On the title screen a key
/// press of a player starts the game, on a result screen the bomb key of a player
/// leads back to the title, and in between the game is played.
pub open spec fn ticked(before: Scene, dt: Nanos, actions: Seq<Action>, after: Scene) -> bool {
    match before.game.screen {
        Screen::Title => if starts(actions, before.game.players.len()) {
            exists|map: MapView| #[trigger]
                crate::game::map::freshly_laid(map, MAP_WIDTH as int, MAP_HEIGHT as int) && after
                    == started(before, map)
        } else {
            after == before
        },
        Screen::Playing => exists|luck: Luck| #[trigger]
            fair(before, dt, actions, luck) && after == played(before, dt, actions, luck),
        _ => if leaves(actions, before.game.players.len()) {
            after == left(before)
        } else {
            after == before
        },
    }
}

/// The game with player `idx` out of it, if there is such a player.
pub open spec fn retired(game: GameView, idx: int) -> GameView {
    if 0 <= idx < game.players.len() {
        GameView {
            players: game.players.update(idx, Player { alive: false, ..game.players[idx] }),
            ..game
        }
    } else {
        game
    }
}

// ---------------------------------------------------------------------------
// What the stages keep

/// Whether a stage has kept the frame of a game: who is in it and where they start.
pub open spec fn same_cast(before: GameView, after: GameView) -> bool {
    &&& after.players.len() == before.players.len()
    &&& after.enemies.len() == before.enemies.len()
    &&& after.spawn_points == before.spawn_points
    &&& after.map.width == before.map.width
    &&& after.map.height == before.map.height
}

/// The input of one player keeps the state well formed, and touches no other
/// player and no enemy.
pub proof fn lemma_acted(scene: Scene, idx: int, dt: Nanos, action: Action)
    requires
        scene.game.wf(),
        0 <= idx < scene.game.players.len(),
    ensures
        acted(scene, idx, dt, action).game.wf(),
        same_cast(scene.game, acted(scene, idx, dt, action).game),
        acted(scene, idx, dt, action).game.enemies == scene.game.enemies,
        acted(scene, idx, dt, action).game.screen == scene.game.screen,
        acted(scene, idx, dt, action).game.explosions == scene.game.explosions,
        forall|j: int|
            0 <= j < scene.game.players.len() && j != idx ==> #[trigger] acted(
                scene,
                idx,
                dt,
                action,
            ).game.players[j] == scene.game.players[j],
{
}

/// The input of the first players keeps the state well formed, and touches
/// neither the players after them nor the enemies.
pub proof fn lemma_all_acted(scene: Scene, dt: Nanos, actions: Seq<Action>, upto: nat)
    requires
        scene.game.wf(),
        upto <= scene.game.players.len(),
    ensures
        all_acted(scene, dt, actions, upto).game.wf(),
        same_cast(scene.game, all_acted(scene, dt, actions, upto).game),
        all_acted(scene, dt, actions, upto).game.enemies == scene.game.enemies,
        all_acted(scene, dt, actions, upto).game.screen == scene.game.screen,
        all_acted(scene, dt, actions, upto).game.explosions == scene.game.explosions,
        forall|j: int|
            upto <= j < scene.game.players.len() ==> #[trigger] all_acted(
                scene,
                dt,
                actions,
                upto,
            ).game.players[j] == scene.game.players[j],
    decreases upto,
{
    if upto > 0 {
        let before = all_acted(scene, dt, actions, (upto - 1) as nat);
        lemma_all_acted(scene, dt, actions, (upto - 1) as nat);
        lemma_acted(before, upto - 1, dt, action_of(actions, upto - 1));
    }
}

/// The input of one player earns that player at most one item.
pub proof fn lemma_acted_score(scene: Scene, idx: int, dt: Nanos, action: Action)
    requires
        0 <= idx < scene.game.players.len(),
        player_has_headroom(scene.game.players[idx], 0),
    ensures
        acted(scene, idx, dt, action).game.players[idx].score <= scene.game.players[idx].score
            + SCORE_PER_ITEM,
{
}

/// The input of the players earns each of them at most one item.
pub proof fn lemma_all_acted_score(scene: Scene, dt: Nanos, actions: Seq<Action>, upto: nat)
    requires
        scene.game.wf(),
        scene.game.has_headroom(),
        upto <= scene.game.players.len(),
    ensures
        forall|j: int|
            0 <= j < scene.game.players.len() ==> (#[trigger] all_acted(
                scene,
                dt,
                actions,
                upto,
            ).game.players[j]).score <= scene.game.players[j].score + SCORE_PER_ITEM,
    decreases upto,
{
    if upto > 0 {
        let before = all_acted(scene, dt, actions, (upto - 1) as nat);
        lemma_all_acted(scene, dt, actions, (upto - 1) as nat);
        lemma_all_acted_score(scene, dt, actions, (upto - 1) as nat);
        assert(before.game.players[upto - 1] == scene.game.players[upto - 1]);
        lemma_acted(before, upto - 1, dt, action_of(actions, upto - 1));
        lemma_acted_score(before, upto - 1, dt, action_of(actions, upto - 1));
    }
}

/// Whether the owner of any further kills can be paid: every player's score has
/// room for all the enemies that are alive.
pub open spec fn solvent(game: GameView) -> bool {
    forall|i: int|
        0 <= i < game.players.len() ==> (#[trigger] game.players[i]).score + count(
            game.enemies,
            living(),
        ) * SCORE_PER_ENEMY <= u32::MAX
}

/// Killing the enemies in some cells takes them off the number of the living.
pub proof fn lemma_decimated(enemies: Seq<Enemy>, cells: Seq<Coord>)
    ensures
        count(decimated(enemies, cells), living()) + count(enemies, struck_in(cells)) == count(
            enemies,
            living(),
        ),
    decreases enemies.len(),
{
    if enemies.len() > 0 {
        lemma_decimated(enemies.drop_last(), cells);
        assert(decimated(enemies, cells).drop_last() =~= decimated(enemies.drop_last(), cells));
    }
}

/// What blocks leave behind matters only where the blast reaches a block.
pub proof fn lemma_cleared_agree(
    map: MapView,
    cells: Seq<Coord>,
    one: spec_fn(Coord) -> Option<ItemKind>,
    other: spec_fn(Coord) -> Option<ItemKind>,
)
    requires
        spawn::measurable(map),
        forall|pos: Coord| #[trigger]
            map.tile(pos) is Block && cells.contains(pos) ==> one(pos) == other(pos),
    ensures
        cleared(map, cells, one) == cleared(map, cells, other),
{
    let a = cleared(map, cells, one).tiles;
    let b = cleared(map, cells, other).tiles;
    assert forall|row: int| 0 <= row < a.len() implies a[row] == b[row] by {
        assert forall|col: int| 0 <= col < a[row].len() implies a[row][col] == b[row][col] by {
            let pos = (row as i32, col as i32);
            assert(map.tiles[row].len() == map.width);
            assert(map.tile(pos) == map.tiles[row][col]);
        }
        assert(a[row] =~= b[row]);
    }
    assert(a =~= b);
}

/// After a blast the tile at a cell is what the block there left behind, or what
/// it was.
pub proof fn lemma_cleared_tile(
    map: MapView,
    cells: Seq<Coord>,
    drops: spec_fn(Coord) -> Option<ItemKind>,
    pos: Coord,
)
    requires
        spawn::measurable(map),
    ensures
        spawn::measurable(cleared(map, cells, drops)),
        cleared(map, cells, drops).tile(pos) == if map.tile(pos) is Block && cells.contains(pos) {
            crate::game::map::dropped_tile(drops(pos))
        } else {
            map.tile(pos)
        },
{
    let after = cleared(map, cells, drops);
    assert forall|row: int| 0 <= row < after.height implies (#[trigger] after.tiles[row]).len()
        == after.width by {
        assert(map.tiles[row].len() == map.width);
    }
    if map.contains(pos) {
        assert(map.tiles[pos.0 as int].len() == map.width);
    }
}

/// A blast keeps the state well formed and the scores within their range.
pub proof fn lemma_blown_up(scene: Scene, i: int, drops: spec_fn(Coord) -> Option<ItemKind>)
    requires
        scene.game.wf(),
        0 <= i < scene.game.bombs.len(),
    ensures
        blown_up(scene, i, drops).game.wf(),
        same_cast(scene.game, blown_up(scene, i, drops).game),
        blown_up(scene, i, drops).game.bombs.len() == scene.game.bombs.len() - 1,
        blown_up(scene, i, drops).game.screen == scene.game.screen,
        solvent(scene.game) ==> solvent(blown_up(scene, i, drops).game),
{
    let game = scene.game;
    let after = blown_up(scene, i, drops).game;
    let bomb = game.bombs[i];
    let cells = entities::blast(bomb.pos, bomb.power as nat, game.map);
    lemma_cleared_tile(game.map, cells, drops, (0, 0));
    lemma_decimated(game.enemies, cells);
    let hurt = scorched(game.players, cells);
    let kills = count(game.enemies, struck_in(cells));
    assert forall|j: int| 0 <= j < after.players.len() implies after.players[j].pos
        == game.players[j].pos && (solvent(game) ==> (#[trigger] after.players[j]).score <= game.players[j].score + kills
        * SCORE_PER_ENEMY) by {
        assert(hurt[j].score == game.players[j].score);
        if solvent(game) {
            assert(game.players[j].score + count(game.enemies, living()) * SCORE_PER_ENEMY
                <= u32::MAX);
        }
    }
    assert forall|j: int| 0 <= j < after.players.len() implies geometry::in_range(
        (#[trigger] after.players[j]).pos,
    ) by {
        assert(geometry::in_range(game.players[j].pos));
    }
    assert forall|j: int| 0 <= j < after.enemies.len() implies geometry::in_range(
        (#[trigger] after.enemies[j]).pos,
    ) by {
        assert(geometry::in_range(game.enemies[j].pos));
    }
    assert forall|j: int| 0 <= j < after.bombs.len() implies geometry::in_range(
        (#[trigger] after.bombs[j]).pos,
    ) by {
        let k = if j < i {
            j
        } else {
            j + 1
        };
        assert(after.bombs[j].pos == game.bombs[k].pos);
        assert(geometry::in_range(game.bombs[k].pos));
    }
    if solvent(game) {
        assert forall|j: int| 0 <= j < after.players.len() implies (#[trigger] after.players[j]).score
            + count(after.enemies, living()) * SCORE_PER_ENEMY <= u32::MAX by {
            assert(game.players[j].score + count(game.enemies, living()) * SCORE_PER_ENEMY
                <= u32::MAX);
        }
    }
}

/// Two outcomes that agree wherever a blast reaches a block make no difference
/// to that blast.
pub proof fn lemma_blown_up_agree(
    scene: Scene,
    i: int,
    one: spec_fn(Coord) -> Option<ItemKind>,
    other: spec_fn(Coord) -> Option<ItemKind>,
)
    requires
        scene.game.wf(),
        0 <= i < scene.game.bombs.len(),
        forall|pos: Coord| #[trigger]
            scene.game.map.tile(pos) is Block && !(blown_up(scene, i, one).game.map.tile(
                pos,
            ) is Block) ==> one(pos) == other(pos),
    ensures
        blown_up(scene, i, one) == blown_up(scene, i, other),
{
    let bomb = scene.game.bombs[i];
    let cells = entities::blast(bomb.pos, bomb.power as nat, scene.game.map);
    assert forall|pos: Coord| #[trigger]
        scene.game.map.tile(pos) is Block && cells.contains(pos) implies one(pos) == other(pos) by {
        lemma_cleared_tile(scene.game.map, cells, one, pos);
    }
    lemma_cleared_agree(scene.game.map, cells, one, other);
}

/// While a bomb is due, the first such bomb goes off and the rest follows.
pub proof fn lemma_detonated_step(
    scene: Scene,
    i: int,
    drops: spec_fn(Coord) -> Option<ItemKind>,
)
    requires
        first_due(scene.game.bombs, i),
    ensures
        detonated(scene, drops) == detonated(blown_up(scene, i, drops), drops),
{
    let chosen = choose|j: int| first_due(scene.game.bombs, j);
    assert(first_due(scene.game.bombs, chosen));
    assert(chosen == i);
}

/// The enemies' turn keeps the state well formed and the scores within range.
pub proof fn lemma_enemies_passed(game: GameView, dt: Nanos, turns: Seq<Direction>)
    requires
        game.wf(),
    ensures
        enemies_passed(game, dt, turns).wf(),
        same_cast(game, enemies_passed(game, dt, turns)),
        enemies_passed(game, dt, turns).screen == game.screen,
        solvent(game) ==> solvent(enemies_passed(game, dt, turns)),
{
    let after = enemies_passed(game, dt, turns);
    assert forall|j: int| 0 <= j < after.enemies.len() implies geometry::in_range(
        (#[trigger] after.enemies[j]).pos,
    ) by {
        assert(geometry::in_range(game.enemies[j].pos));
    }
    lemma_count_same(game.enemies, after.enemies, living());
    if solvent(game) {
        assert forall|j: int| 0 <= j < after.players.len() implies (#[trigger] after.players[j]).score
            + count(after.enemies, living()) * SCORE_PER_ENEMY <= u32::MAX by {
            assert(game.players[j].score + count(game.enemies, living()) * SCORE_PER_ENEMY
                <= u32::MAX);
        }
    }
}

/// Sequences with the property in the same places have it equally often.
pub proof fn lemma_count_same<T>(one: Seq<T>, other: Seq<T>, p: spec_fn(T) -> bool)
    requires
        one.len() == other.len(),
        forall|i: int| 0 <= i < one.len() ==> p(#[trigger] one[i]) == p(other[i]),
    ensures
        count(one, p) == count(other, p),
    decreases one.len(),
{
    if one.len() > 0 {
        assert forall|i: int| 0 <= i < one.drop_last().len() implies p(
            #[trigger] one.drop_last()[i],
        ) == p(other.drop_last()[i]) by {
            assert(one[i] == one.drop_last()[i]);
        }
        lemma_count_same(one.drop_last(), other.drop_last(), p);
        assert(p(one[one.len() - 1]) == p(other[one.len() - 1]));
    }
}

/// Meeting enemies keeps the state well formed and the scores within range.
pub proof fn lemma_met(scene: Scene, idx: int)
    requires
        scene.game.wf(),
        0 <= idx < scene.game.players.len(),
    ensures
        met(scene, idx).game.wf(),
        same_cast(scene.game, met(scene, idx).game),
        met(scene, idx).game.screen == scene.game.screen,
        solvent(scene.game) ==> solvent(met(scene, idx).game),
{
    let game = scene.game;
    let after = met(scene, idx).game;
    let here = seq![game.players[idx].pos];
    lemma_decimated(game.enemies, here);
    assert forall|j: int| 0 <= j < after.enemies.len() implies geometry::in_range(
        (#[trigger] after.enemies[j]).pos,
    ) by {
        assert(geometry::in_range(game.enemies[j].pos));
    }
    if solvent(game) {
        assert(game.players[idx].score + count(game.enemies, living()) * SCORE_PER_ENEMY
            <= u32::MAX);
        assert forall|j: int| 0 <= j < after.players.len() implies (#[trigger] after.players[j]).score
            + count(after.enemies, living()) * SCORE_PER_ENEMY <= u32::MAX by {
            assert(game.players[j].score + count(game.enemies, living()) * SCORE_PER_ENEMY
                <= u32::MAX);
        }
    }
}

/// Wearing off of invincibility keeps the state well formed and changes nothing
/// that counts for the headroom.
pub proof fn lemma_shields_passed(scene: Scene, dt: Nanos)
    requires
        scene.game.wf(),
    ensures
        shields_passed(scene, dt).game.wf(),
        same_cast(scene.game, shields_passed(scene, dt).game),
        scene.game.has_headroom() ==> shields_passed(scene, dt).game.has_headroom(),
{
    let after = shields_passed(scene, dt).game;
    assert forall|i: int| 0 <= i < after.players.len() implies geometry::in_range(
        (#[trigger] after.players[i]).pos,
    ) by {
        assert(geometry::in_range(scene.game.players[i].pos));
    }
    if scene.game.has_headroom() {
        assert forall|i: int| 0 <= i < after.players.len() implies player_has_headroom(
            #[trigger] after.players[i],
            count(after.enemies, living()),
        ) by {
            assert(player_has_headroom(
                scene.game.players[i],
                count(scene.game.enemies, living()),
            ));
        }
    }
}

/// The burning of fuses keeps the state well formed.
pub proof fn lemma_fuses_passed(scene: Scene, dt: Nanos)
    requires
        scene.game.wf(),
    ensures
        fuses_passed(scene, dt).game.wf(),
        same_cast(scene.game, fuses_passed(scene, dt).game),
{
    let after = fuses_passed(scene, dt).game;
    assert forall|i: int| 0 <= i < after.bombs.len() implies geometry::in_range(
        (#[trigger] after.bombs[i]).pos,
    ) by {
        assert(geometry::in_range(scene.game.bombs[i].pos));
    }
}

/// The end of a round keeps the state well formed.
pub proof fn lemma_resolved(scene: Scene)
    requires
        scene.game.wf(),
    ensures
        resolved(scene).game.wf(),
        same_cast(scene.game, resolved(scene).game),
{
    let revived = solo_revived(scene.game);
    assert forall|i: int| 0 <= i < revived.len() implies geometry::in_range(
        (#[trigger] revived[i]).pos,
    ) by {
        assert(geometry::in_range(scene.game.players[i].pos));
        if i < scene.game.spawn_points.len() {
            assert(geometry::in_range(scene.game.spawn_points[i]));
        }
    }
}

/// A new solo game is well formed.
pub proof fn lemma_solo_game(map: MapView)
    requires
        spawn::measurable(map),
    ensures
        solo_game(map).wf(),
{
    let enemies = spawn::spawned_enemies(map);
    let spawns = spawn::spawns_away(map, spawn::enemy_kinds().len(), spawn::PLAYER_START);
    spawn::lemma_spawns_away(map, spawn::enemy_kinds().len(), spawn::PLAYER_START);
    assert forall|i: int| 0 <= i < enemies.len() implies geometry::in_range(
        (#[trigger] enemies[i]).pos,
    ) by {
        assert(map.walkable(spawns[i]));
    }
}

/// A new match is well formed.
pub proof fn lemma_versus_game(map: MapView, size: nat)
    requires
        spawn::measurable(map),
    ensures
        versus_game(map, size).wf(),
{
    let spawns = spawn::player_spawns(map, size);
    spawn::lemma_player_spawns(map, size);
    assert forall|i: int| 0 <= i < spawns.len() implies geometry::in_range(#[trigger] spawns[i]) by {
        assert(map.walkable(spawns[i]));
    }
    let players = fresh_players(spawns);
    assert forall|i: int| 0 <= i < players.len() implies geometry::in_range(
        (#[trigger] players[i]).pos,
    ) by {
        assert(map.walkable(spawns[i]));
    }
}

} // verus!
