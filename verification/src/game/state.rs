//! The state of a game and how a tick changes it.
//!
//! A tick of play runs through these stages:
//!
//! 1. The input of every player takes effect. How soon a player may move again
//!    depends on the player's speed.
//! 2. Blasts fade, fuses burn, and bombs that are due go off. A blast sets off
//!    the bombs it reaches, turns blocks into items, and kills.
//! 3. The enemies move when their wait is over.
//! 4. Players who touch an enemy die, or kill it if they are invincible.
//! 5. The round is decided. Against enemies the dead come back while they have
//!    lives; in a match between players they do not, and the last one wins.

use vstd::prelude::*;

use crate::audio::{AudioCommand, AudioPlayer};
use crate::game::entities::{explosion_cells, Bomb, Enemy, Explosion, Player};
use crate::game::entities;
use crate::game::geometry::{lists, manhattan, step};
use crate::game::geometry;
use crate::game::map::{GameMap, MapView};
use crate::game::rules::GameView;
use crate::game::rules::{
    BASE_MOVE_INTERVAL, ENEMY_MOVE_INTERVAL, INVINCIBLE_DURATION, MAP_HEIGHT, MAP_WIDTH, MIN_SPEED,
    SCORE_PER_ENEMY, SCORE_PER_ITEM, SPEED_INCREMENT,
};
use crate::game::rules;
use crate::game::spawn::{
    player_spawn_positions, spawn_enemies, MAX_PLAYERS, MIN_MULTIPLAYER_PLAYERS, PLAYER_START,
};
use crate::game::spawn;
use crate::types::{elapse, Action, Bgm, Coord, Direction, ItemKind, Nanos, Screen, SoundEffect, Tile};

verus! {

/// The state of a game.
#[derive(Debug, Clone)]
pub struct GameState {
    pub screen: Screen,
    pub map: GameMap,
    /// The players on the board. A player's index is also the `owner` of the
    /// player's bombs and the place of the player's action in a tick.
    pub players: Vec<Player>,
    pub enemies: Vec<Enemy>,
    pub bombs: Vec<Bomb>,
    pub explosions: Vec<Explosion>,
    /// Where each player starts and comes back to life.
    pub spawn_points: Vec<Coord>,
    /// Time left until the enemies move; they move once it is not positive.
    pub enemy_move_cooldown: Nanos,
}

impl View for GameState {
    type V = GameView;

    open spec fn view(&self) -> GameView {
        GameView {
            screen: self.screen,
            map: self.map@,
            players: self.players@,
            enemies: self.enemies@,
            bombs: self.bombs@,
            explosions: self.explosions@.map_values(|explosion: Explosion| explosion@),
            spawn_points: self.spawn_points@,
            enemy_move_cooldown: self.enemy_move_cooldown,
        }
    }
}

/// Whether there is a bomb at `pos`.
fn any_bomb_at(bombs: &[Bomb], pos: Coord) -> (found: bool)
    ensures
        found == rules::bomb_on(bombs@, pos),
{
    for i in 0..bombs.len()
        invariant
            forall|j: int| 0 <= j < i ==> (#[trigger] bombs@[j]).pos != pos,
    {
        if bombs[i].pos.0 == pos.0 && bombs[i].pos.1 == pos.1 {
            assert(bombs@[i as int].pos == pos);
            return true;
        }
    }
    false
}

/// The number of bombs that player `idx` has on the board.
fn bombs_of(bombs: &[Bomb], idx: usize) -> (number: usize)
    ensures
        number == rules::count(bombs@, rules::owned_by(idx as int)),
{
    let mut number: usize = 0;
    for i in 0..bombs.len()
        invariant
            number <= i,
            number == rules::count(bombs@.take(i as int), rules::owned_by(idx as int)),
    {
        assert(bombs@.take(i + 1).drop_last() =~= bombs@.take(i as int));
        if bombs[i].owner == idx {
            number = number + 1;
        }
    }
    assert(bombs@.take(bombs@.len() as int) =~= bombs@);
    number
}

/// The time that one move takes at a speed given in thousandths.
fn interval_at(speed: u32) -> (interval: Nanos)
    ensures
        interval == rules::move_interval(speed),
        0 <= interval <= BASE_MOVE_INTERVAL * 10,
{
    let speed = if speed < MIN_SPEED {
        MIN_SPEED as i64
    } else {
        speed as i64
    };
    assert(0 <= 120_000_000_000int / speed as int <= 1_200_000_000) by (nonlinear_arith)
        requires
            100 <= speed,
    ;
    120_000_000_000 / speed
}

/// Lets `dt` pass on the invincibility of every player.
fn wear_shields(players: &mut Vec<Player>, dt: Nanos)
    ensures
        final(players)@ == old(players)@.map_values(
            |player: Player| rules::less_shielded(player, dt),
        ),
{
    let ghost before = players@;
    let n = players.len();
    for i in 0..n
        invariant
            n == before.len(),
            players@.len() == n,
            forall|j: int| 0 <= j < i ==> #[trigger] players@[j] == rules::less_shielded(before[j], dt),
            forall|j: int| i <= j < n ==> #[trigger] players@[j] == before[j],
    {
        let mut player = players[i];
        if player.invincible_remaining > 0 {
            let left = elapse(player.invincible_remaining, dt);
            player.invincible_remaining = if left > 0 {
                left
            } else {
                0
            };
        }
        players.set(i, player);
    }
    assert(players@ =~= before.map_values(|player: Player| rules::less_shielded(player, dt)));
}

/// Lets `dt` pass on the fuse of every bomb.
fn burn_fuses(bombs: &mut Vec<Bomb>, dt: Nanos)
    ensures
        final(bombs)@ == old(bombs)@.map_values(|bomb: Bomb| rules::burnt(bomb, dt)),
{
    let ghost before = bombs@;
    let n = bombs.len();
    for i in 0..n
        invariant
            n == before.len(),
            bombs@.len() == n,
            forall|j: int| 0 <= j < i ==> #[trigger] bombs@[j] == rules::burnt(before[j], dt),
            forall|j: int| i <= j < n ==> #[trigger] bombs@[j] == before[j],
    {
        let mut bomb = bombs[i];
        bomb.timer = elapse(bomb.timer, dt);
        bombs.set(i, bomb);
    }
    assert(bombs@ =~= before.map_values(|bomb: Bomb| rules::burnt(bomb, dt)));
}

/// The blasts as values.
spec fn viewed(explosions: Seq<Explosion>) -> Seq<entities::ExplosionView> {
    explosions.map_values(|explosion: Explosion| explosion@)
}

/// Lets `dt` pass on the blasts, and gives those that are left.
fn fade_explosions(explosions: Vec<Explosion>, dt: Nanos) -> (left: Vec<Explosion>)
    ensures
        viewed(left@) == rules::faded(viewed(explosions@), dt),
{
    let ghost cooled = viewed(explosions@).map_values(
        |explosion: entities::ExplosionView| rules::cooler(explosion, dt),
    );
    let ghost lasting = |explosion: entities::ExplosionView| explosion.remaining > 0;
    let mut left: Vec<Explosion> = Vec::new();
    assert(cooled.take(0).filter(lasting) =~= viewed(left@)) by {
        reveal(Seq::filter);
    }
    for explosion in waiting: explosions
        invariant
            waiting.seq() == explosions@,
            cooled == viewed(explosions@).map_values(
                |explosion: entities::ExplosionView| rules::cooler(explosion, dt),
            ),
            lasting == (|explosion: entities::ExplosionView| explosion.remaining > 0),
            viewed(left@) == cooled.take(waiting.index() as int).filter(lasting),
    {
        let ghost i = waiting.index() as int;
        let ghost before = left@;
        proof {
            reveal(Seq::filter);
            assert(cooled.take(i + 1).drop_last() =~= cooled.take(i));
            assert(cooled.take(i + 1).last() == rules::cooler(explosions@[i]@, dt));
        }
        let remaining = elapse(explosion.remaining, dt);
        if remaining > 0 {
            let lasted = Explosion { cells: explosion.cells, remaining };
            left.push(lasted);
            assert(viewed(left@) =~= viewed(before).push(lasted@));
        }
    }
    assert(cooled.take(cooled.len() as int) =~= cooled);
    left
}

/// Sets off the bombs in the blast.
fn chain_bombs(bombs: &mut Vec<Bomb>, cells: &[Coord])
    ensures
        final(bombs)@ == rules::chained(old(bombs)@, cells@),
{
    let ghost before = bombs@;
    let n = bombs.len();
    for i in 0..n
        invariant
            n == before.len(),
            bombs@.len() == n,
            forall|j: int|
                0 <= j < i ==> #[trigger] bombs@[j] == rules::chained(before, cells@)[j],
            forall|j: int| i <= j < n ==> #[trigger] bombs@[j] == before[j],
    {
        let mut bomb = bombs[i];
        if lists(cells, bomb.pos) {
            bomb.timer = 0;
        }
        bombs.set(i, bomb);
    }
    assert(bombs@ =~= rules::chained(before, cells@));
}

/// Destroys the blocks in the blast. The ghost result says what they left behind.
fn clear_blocks(map: &mut GameMap, cells: &[Coord]) -> (drops: Ghost<
    spec_fn(Coord) -> Option<ItemKind>,
>)
    requires
        spawn::measurable(old(map)@),
    ensures
        final(map)@ == rules::cleared(old(map)@, cells@, drops@),
{
    let ghost before = map@;
    let ghost mut drops: spec_fn(Coord) -> Option<ItemKind> = |pos: Coord| None;
    assert(map@ =~~= rules::cleared(before, cells@.take(0), drops));
    for i in 0..cells.len()
        invariant
            spawn::measurable(before),
            map@ == rules::cleared(before, cells@.take(i as int), drops),
            map.wf(),
    {
        let cell = cells[i];
        let ghost done = cells@.take(i as int);
        assert(cells@.take(i + 1) =~= done.push(cell));
        if matches!(map.tile_at(cell), Tile::Block) {
            let left = map.destroy_block(cell);
            proof {
                let now: spec_fn(Coord) -> Option<ItemKind> = |pos: Coord|
                    if pos == cell {
                        left
                    } else {
                        drops(pos)
                    };
                lemma_clear_one(before, done, drops, cell, left);
                drops = now;
            }
        } else {
            proof {
                lemma_clear_none(before, done, drops, cell);
            }
        }
    }
    assert(cells@.take(cells@.len() as int) =~= cells@);
    Ghost(drops)
}

/// Kills player `idx`, if alive.
fn hurt_player<A: AudioPlayer + ?Sized>(players: &mut Vec<Player>, idx: usize, audio: &mut A)
    requires
        idx < old(players)@.len(),
    ensures
        old(players)@[idx as int].alive ==> {
            &&& final(players)@ == old(players)@.update(
                idx as int,
                rules::killed(old(players)@[idx as int]),
            )
            &&& final(audio).heard() == old(audio).heard().push(
                AudioCommand::PlaySe(SoundEffect::Death),
            )
        },
        !old(players)@[idx as int].alive ==> final(players)@ == old(players)@
            && final(audio).heard() == old(audio).heard(),
{
    let mut player = players[idx];
    if !player.alive {
        return ;
    }
    player.alive = false;
    player.lives = player.lives.saturating_sub(1);
    players.set(idx, player);
    audio.play_se(SoundEffect::Death);
}

/// Kills the players in the blast.
fn scorch_players<A: AudioPlayer + ?Sized>(
    players: &mut Vec<Player>,
    cells: &[Coord],
    audio: &mut A,
)
    ensures
        final(players)@ == rules::scorched(old(players)@, cells@),
        final(audio).heard() == old(audio).heard() + rules::repeated(
            SoundEffect::Death,
            rules::count(old(players)@, rules::caught_in(cells@)),
        ),
{
    let ghost before = players@;
    let ghost caught = rules::caught_in(cells@);
    let n = players.len();
    assert(audio.heard() =~= old(audio).heard() + rules::repeated(SoundEffect::Death, 0));
    for i in 0..n
        invariant
            n == before.len(),
            players@.len() == n,
            caught == rules::caught_in(cells@),
            forall|j: int|
                0 <= j < i ==> #[trigger] players@[j] == rules::scorched(before, cells@)[j],
            forall|j: int| i <= j < n ==> #[trigger] players@[j] == before[j],
            audio.heard() == old(audio).heard() + rules::repeated(
                SoundEffect::Death,
                rules::count(before.take(i as int), caught),
            ),
    {
        let player = players[i];
        let ghost heard = audio.heard();
        let ghost deaths = rules::count(before.take(i as int), caught);
        assert(before.take(i + 1).drop_last() =~= before.take(i as int));
        if player.alive && !player.is_invincible() && lists(cells, player.pos) {
            hurt_player(players, i, audio);
            assert(audio.heard() =~= old(audio).heard() + rules::repeated(
                SoundEffect::Death,
                deaths + 1,
            ));
        }
    }
    assert(before.take(n as int) =~= before);
    assert(players@ =~= rules::scorched(before, cells@));
}

/// Kills the enemies in the blast, and gives their number.
fn strike_enemies(enemies: &mut Vec<Enemy>, cells: &[Coord]) -> (kills: usize)
    ensures
        final(enemies)@ == rules::decimated(old(enemies)@, cells@),
        kills == rules::count(old(enemies)@, rules::struck_in(cells@)),
{
    let ghost before = enemies@;
    let ghost struck = rules::struck_in(cells@);
    let n = enemies.len();
    let mut kills: usize = 0;
    for i in 0..n
        invariant
            n == before.len(),
            enemies@.len() == n,
            struck == rules::struck_in(cells@),
            forall|j: int|
                0 <= j < i ==> #[trigger] enemies@[j] == rules::decimated(before, cells@)[j],
            forall|j: int| i <= j < n ==> #[trigger] enemies@[j] == before[j],
            kills <= i,
            kills == rules::count(before.take(i as int), struck),
    {
        assert(before.take(i + 1).drop_last() =~= before.take(i as int));
        let mut enemy = enemies[i];
        if enemy.alive && lists(cells, enemy.pos) {
            enemy.alive = false;
            enemies.set(i, enemy);
            kills = kills + 1;
        }
    }
    assert(before.take(n as int) =~= before);
    assert(enemies@ =~= rules::decimated(before, cells@));
    kills
}

/// One more cell of the blast, where there is a block.
proof fn lemma_clear_one(
    map: MapView,
    done: Seq<Coord>,
    drops: spec_fn(Coord) -> Option<ItemKind>,
    cell: Coord,
    left: Option<ItemKind>,
)
    requires
        spawn::measurable(map),
        rules::cleared(map, done, drops).tile(cell) is Block,
    ensures
        rules::cleared(map, done, drops).with_tile(cell, crate::game::map::dropped_tile(left))
            == rules::cleared(
            map,
            done.push(cell),
            |pos: Coord|
                if pos == cell {
                    left
                } else {
                    drops(pos)
                },
        ),
{
    let now: spec_fn(Coord) -> Option<ItemKind> = |pos: Coord|
        if pos == cell {
            left
        } else {
            drops(pos)
        };
    let a = rules::cleared(map, done, drops).with_tile(
        cell,
        crate::game::map::dropped_tile(left),
    );
    let b = rules::cleared(map, done.push(cell), now);
    rules::lemma_cleared_tile(map, done, drops, cell);
    assert forall|row: int, col: int|
        0 <= row < map.height && 0 <= col < map.width implies #[trigger] a.tiles[row][col]
        == b.tiles[row][col] by {
        let pos = (row as i32, col as i32);
        assert(map.tiles[row].len() == map.width);
        assert(done.push(cell).contains(pos) <==> done.contains(pos) || pos == cell) by {
            broadcast use vstd::seq_lib::group_seq_properties;
        }
    }
    assert forall|row: int| 0 <= row < map.height implies a.tiles[row] == b.tiles[row] by {
        assert(map.tiles[row].len() == map.width);
        assert(a.tiles[row] =~= b.tiles[row]);
    }
    assert(a.tiles =~= b.tiles);
}

/// One more cell of the blast, where there is no block left.
proof fn lemma_clear_none(
    map: MapView,
    done: Seq<Coord>,
    drops: spec_fn(Coord) -> Option<ItemKind>,
    cell: Coord,
)
    requires
        spawn::measurable(map),
        !(rules::cleared(map, done, drops).tile(cell) is Block),
    ensures
        rules::cleared(map, done, drops) == rules::cleared(map, done.push(cell), drops),
{
    let a = rules::cleared(map, done, drops);
    let b = rules::cleared(map, done.push(cell), drops);
    rules::lemma_cleared_tile(map, done, drops, cell);
    assert forall|row: int| 0 <= row < map.height implies a.tiles[row] == b.tiles[row] by {
        assert(map.tiles[row].len() == map.width);
        assert forall|col: int| 0 <= col < map.width implies #[trigger] a.tiles[row][col]
            == b.tiles[row][col] by {
            let pos = (row as i32, col as i32);
            assert(done.push(cell).contains(pos) <==> done.contains(pos) || pos == cell) by {
                broadcast use vstd::seq_lib::group_seq_properties;
            }
        }
        assert(a.tiles[row] =~= b.tiles[row]);
    }
    assert(a.tiles =~= b.tiles);
}

impl GameState {
    /// Player `idx` takes the item lying underfoot, if there is one.
    pub fn try_pickup_item<A: AudioPlayer + ?Sized>(&mut self, idx: usize, audio: &mut A)
        requires
            old(self).map.wf(),
            idx < old(self).players@.len(),
            rules::player_has_headroom(old(self).players@[idx as int], 0),
        ensures
            rules::scene(final(self)@, final(audio).heard()) == rules::picked_up(
                rules::scene(old(self)@, old(audio).heard()),
                idx as int,
            ),
    {
        let pos = self.players[idx].pos;
        match self.map.take_item(pos) {
            Some(kind) => {
                let mut player = self.players[idx];
                match kind {
                    ItemKind::Power => {
                        player.power = player.power + 1;
                    },
                    ItemKind::BombUp => {
                        player.bomb_capacity = player.bomb_capacity + 1;
                    },
                    ItemKind::SpeedUp => {
                        player.speed = player.speed + SPEED_INCREMENT;
                    },
                    ItemKind::Invincible => {
                        player.invincible_remaining = INVINCIBLE_DURATION;
                    },
                }
                player.score = player.score + SCORE_PER_ITEM;
                self.players.set(idx, player);
                audio.play_se(SoundEffect::ItemGet);
            },
            None => {},
        }
    }

    /// Player `idx` places a bomb, unless all the player's bombs are on the
    /// board or there is a bomb in that place already.
    fn try_place_bomb<A: AudioPlayer + ?Sized>(&mut self, idx: usize, audio: &mut A)
        requires
            idx < old(self).players@.len(),
        ensures
            rules::scene(final(self)@, final(audio).heard()) == rules::bomb_placed(
                rules::scene(old(self)@, old(audio).heard()),
                idx as int,
            ),
            final(self).map == old(self).map,
    {
        let player = self.players[idx];
        if bombs_of(&self.bombs, idx) as u32 >= player.bomb_capacity {
            return ;
        }
        if any_bomb_at(&self.bombs, player.pos) {
            return ;
        }
        self.bombs.push(Bomb::new(player.pos, player.power, idx));
        audio.play_se(SoundEffect::PlaceBomb);
    }

    /// What the input of player `idx` does.
    fn handle_player_input<A: AudioPlayer + ?Sized>(
        &mut self,
        idx: usize,
        dt: Nanos,
        action: Action,
        audio: &mut A,
    )
        requires
            old(self)@.wf(),
            idx < old(self).players@.len(),
            rules::player_has_headroom(old(self).players@[idx as int], 0),
        ensures
            rules::scene(final(self)@, final(audio).heard()) == rules::acted(
                rules::scene(old(self)@, old(audio).heard()),
                idx as int,
                dt,
                action,
            ),
            final(self)@.wf(),
    {
        proof {
            rules::lemma_acted(rules::scene(self@, audio.heard()), idx as int, dt, action);
        }
        let ghost before = rules::scene(self@, audio.heard());
        let mut player = self.players[idx];
        if player.move_cooldown > 0 {
            player.move_cooldown = elapse(player.move_cooldown, dt);
        }
        if matches!(action, Action::ToggleGodMode) {
            player.god_mode = !player.god_mode;
            self.players.set(idx, player);
            return ;
        }
        self.players.set(idx, player);
        assert(self@ =~= before.with_player(idx as int, player).game);
        if !player.alive {
            return ;
        }
        match action {
            Action::Move(dir) => {
                if player.move_cooldown <= 0 {
                    let target = step(player.pos, dir);
                    if self.map.is_walkable(target) && !any_bomb_at(&self.bombs, target) {
                        player.pos = target;
                        player.move_cooldown = interval_at(player.speed);
                        self.players.set(idx, player);
                        self.try_pickup_item(idx, audio);
                    }
                }
            },
            Action::PlaceBomb => {
                self.try_place_bomb(idx, audio);
            },
            _ => {},
        }
    }

    /// Bomb `i` goes off. The ghost result says what the blocks left behind.
    fn blow_up<A: AudioPlayer + ?Sized>(&mut self, i: usize, audio: &mut A) -> (drops: Ghost<
        spec_fn(Coord) -> Option<ItemKind>,
    >)
        requires
            old(self)@.wf(),
            rules::solvent(old(self)@),
            i < old(self).bombs@.len(),
        ensures
            rules::scene(final(self)@, final(audio).heard()) == rules::blown_up(
                rules::scene(old(self)@, old(audio).heard()),
                i as int,
                drops@,
            ),
    {
        let ghost before = rules::scene(self@, audio.heard());
        let bomb = self.bombs.remove(i);
        assert(geometry::in_range(before.game.bombs[i as int].pos));
        let cells = explosion_cells(bomb.pos, bomb.power, &self.map);
        chain_bombs(&mut self.bombs, &cells);
        let drops = clear_blocks(&mut self.map, &cells);
        scorch_players(&mut self.players, &cells, audio);
        let ghost hurt = self.players@;
        let kills = strike_enemies(&mut self.enemies, &cells);
        proof {
            rules::lemma_decimated(before.game.enemies, cells@);
        }
        if kills > 0 && bomb.owner < self.players.len() {
            let mut owner = self.players[bomb.owner];
            proof {
                let payee = before.game.players[bomb.owner as int];
                assert(payee.score + rules::count(before.game.enemies, rules::living())
                    * SCORE_PER_ENEMY <= u32::MAX);
                assert(owner.score == payee.score);
            }
            owner.score = owner.score + kills as u32 * SCORE_PER_ENEMY;
            self.players.set(bomb.owner, owner);
        }
        proof {
            if kills == 0 && bomb.owner < hurt.len() {
                assert(rules::credited(hurt, bomb.owner as int, 0) =~= hurt);
            }
            assert(self.players@ =~= rules::credited(hurt, bomb.owner as int, kills as nat));
        }
        audio.play_se(SoundEffect::Explosion);
        let ghost blasts = self.explosions@;
        let explosion = Explosion::new(cells);
        let ghost blast = explosion@;
        self.explosions.push(explosion);
        assert(viewed(self.explosions@) =~= viewed(blasts).push(blast));
        drops
    }

    /// Bombs that are due go off, one after the other, until none is due any
    /// more. The ghost result says what the blocks left behind.
    fn detonate_ready_bombs<A: AudioPlayer + ?Sized>(&mut self, audio: &mut A) -> (drops: Ghost<
        spec_fn(Coord) -> Option<ItemKind>,
    >)
        requires
            old(self)@.wf(),
            rules::solvent(old(self)@),
        ensures
            rules::scene(final(self)@, final(audio).heard()) == rules::detonated(
                rules::scene(old(self)@, old(audio).heard()),
                drops@,
            ),
            final(self)@.wf(),
            rules::solvent(final(self)@),
            rules::same_cast(old(self)@, final(self)@),
            final(self)@.screen == old(self)@.screen,
    {
        let ghost start = rules::scene(self@, audio.heard());
        let ghost mut drops: spec_fn(Coord) -> Option<ItemKind> = |pos: Coord| None;
        loop
            invariant
                self@.wf(),
                rules::solvent(self@),
                rules::same_cast(start.game, self@),
                self@.screen == start.game.screen,
                forall|pos: Coord| #[trigger]
                    self@.map.tile(pos) is Block ==> start.game.map.tile(pos) is Block,
                forall|other: spec_fn(Coord) -> Option<ItemKind>|
                    agree_on_cleared(start.game.map, self@.map, drops, other)
                        ==> #[trigger] rules::detonated(start, other) == rules::detonated(
                        rules::scene(self@, audio.heard()),
                        other,
                    ),
            ensures
                rules::scene(self@, audio.heard()) == rules::detonated(start, drops),
                self@.wf(),
                rules::solvent(self@),
                rules::same_cast(start.game, self@),
                self@.screen == start.game.screen,
            decreases self.bombs@.len(),
        {
            match first_ready(&self.bombs) {
                None => {
                    assert(agree_on_cleared(start.game.map, self@.map, drops, drops));
                    assert(rules::detonated(start, drops) == rules::detonated(
                        rules::scene(self@, audio.heard()),
                        drops,
                    ));
                    break ;
                },
                Some(i) => {
                    let ghost here = rules::scene(self@, audio.heard());
                    let Ghost(fresh) = self.blow_up(i, audio);
                    proof {
                        let now: spec_fn(Coord) -> Option<ItemKind> = |pos: Coord|
                            if start.game.map.tile(pos) is Block && !(here.game.map.tile(
                                pos,
                            ) is Block) {
                                drops(pos)
                            } else {
                                fresh(pos)
                            };
                        rules::lemma_blown_up(here, i as int, fresh);
                        let next = rules::blown_up(here, i as int, fresh);
                        let bomb = here.game.bombs[i as int];
                        let cells = entities::blast(bomb.pos, bomb.power as nat, here.game.map);
                        assert forall|pos: Coord| #[trigger]
                            next.game.map.tile(pos) is Block implies here.game.map.tile(
                            pos,
                        ) is Block by {
                            rules::lemma_cleared_tile(here.game.map, cells, fresh, pos);
                        }
                        assert forall|other: spec_fn(Coord) -> Option<ItemKind>|
                            agree_on_cleared(
                                start.game.map,
                                next.game.map,
                                now,
                                other,
                            ) implies #[trigger] rules::detonated(start, other)
                            == rules::detonated(next, other) by {
                            assert(agree_on_cleared(start.game.map, here.game.map, drops, other)) by {
                                assert forall|pos: Coord| #[trigger]
                                    start.game.map.tile(pos) is Block && !(here.game.map.tile(
                                        pos,
                                    ) is Block) implies drops(pos) == other(pos) by {
                                    assert(!(next.game.map.tile(pos) is Block));
                                    assert(now(pos) == other(pos));
                                }
                            }
                            assert forall|pos: Coord| #[trigger]
                                here.game.map.tile(pos) is Block && !(next.game.map.tile(
                                    pos,
                                ) is Block) implies fresh(pos) == other(pos) by {
                                assert(start.game.map.tile(pos) is Block);
                                assert(now(pos) == other(pos));
                            }
                            rules::lemma_blown_up_agree(here, i as int, fresh, other);
                            rules::lemma_detonated_step(here, i as int, other);
                        }
                        drops = now;
                    }
                },
            }
        }
        Ghost(drops)
    }

    /// The direction that each enemy chooses.
    fn choose_turns(&self) -> (turns: Vec<Direction>)
        requires
            self@.wf(),
        ensures
            turns@.len() == self.enemies@.len(),
            forall|i: int|
                0 <= i < self.enemies@.len() ==> rules::fair_turn(
                    self@,
                    self.enemies@[i],
                    #[trigger] turns@[i],
                ),
    {
        let mut turns: Vec<Direction> = Vec::with_capacity(self.enemies.len());
        for i in 0..self.enemies.len()
            invariant
                self@.wf(),
                turns@.len() == i,
                forall|j: int|
                    0 <= j < i ==> rules::fair_turn(
                        self@,
                        self.enemies@[j],
                        #[trigger] turns@[j],
                    ),
        {
            let enemy = self.enemies[i];
            assert(geometry::in_range(self@.enemies[i as int].pos));
            let mut dir = Direction::Up;
            if enemy.alive {
                assert(forall|k: int|
                    0 <= k < self@.players.len() ==> geometry::in_range(
                        (#[trigger] self@.players[k]).pos,
                    ));
                if let Some(player_pos) = nearest_player_pos(&self.players, enemy.pos) {
                    dir = enemy.decide_move(&self.map, player_pos);
                }
            }
            turns.push(dir);
        }
        turns
    }

    /// Every live enemy moves in the direction that `turns` has for it, unless
    /// the cell is not walkable or holds a bomb.
    pub fn move_enemies(&mut self, turns: &[Direction])
        requires
            old(self).map.wf(),
            forall|i: int|
                0 <= i < old(self).enemies@.len() && (#[trigger] old(self).enemies@[i]).alive
                    ==> geometry::has_neighbours(old(self).enemies@[i].pos),
            turns@.len() == old(self).enemies@.len(),
        ensures
            final(self)@ == (GameView {
                enemies: Seq::new(
                    old(self).enemies@.len(),
                    |i: int| rules::turned(old(self)@, old(self).enemies@[i], turns@[i]),
                ),
                ..old(self)@
            }),
    {
        let ghost game = self@;
        let n = self.enemies.len();
        let someone = self.players.len() > 0;
        for i in 0..n
            invariant
                game.map.rectangular(),
                forall|j: int|
                    0 <= j < n && (#[trigger] game.enemies[j]).alive ==> geometry::has_neighbours(
                        game.enemies[j].pos,
                    ),
                n == game.enemies.len(),
                n == turns@.len(),
                someone == (game.players.len() > 0),
                self.enemies@.len() == n,
                self@ == (GameView { enemies: self.enemies@, ..game }),
                forall|j: int|
                    0 <= j < i ==> #[trigger] self.enemies@[j] == rules::turned(
                        game,
                        game.enemies[j],
                        turns@[j],
                    ),
                forall|j: int| i <= j < n ==> #[trigger] self.enemies@[j] == game.enemies[j],
        {
            let mut enemy = self.enemies[i];
            assert(enemy == game.enemies[i as int]);
            if enemy.alive && someone {
                let target = step(enemy.pos, turns[i]);
                if self.map.is_walkable(target) && !any_bomb_at(&self.bombs, target) {
                    enemy.pos = target;
                    self.enemies.set(i, enemy);
                }
            }
        }
        assert(self.enemies@ =~= Seq::new(
            game.enemies.len(),
            |i: int| rules::turned(game, game.enemies[i], turns@[i]),
        ));
    }

    /// The enemies move when their wait is over; else the wait gets shorter. The
    /// ghost result says which way they turned.
    fn update_enemies(&mut self, dt: Nanos) -> (turns: Ghost<Seq<Direction>>)
        requires
            old(self)@.wf(),
        ensures
            final(self)@ == rules::enemies_passed(old(self)@, dt, turns@),
            rules::fair_turns(old(self)@, turns@),
    {
        if self.enemy_move_cooldown > 0 {
            self.enemy_move_cooldown = elapse(self.enemy_move_cooldown, dt);
            return Ghost(Seq::empty());
        }
        let turns = self.choose_turns();
        self.move_enemies(&turns);
        self.enemy_move_cooldown = ENEMY_MOVE_INTERVAL;
        Ghost(turns@)
    }

    /// Player `idx` meets the enemies in the same cell.
    fn meet_enemies<A: AudioPlayer + ?Sized>(&mut self, idx: usize, audio: &mut A)
        requires
            rules::solvent(old(self)@),
            idx < old(self).players@.len(),
        ensures
            rules::scene(final(self)@, final(audio).heard()) == rules::met(
                rules::scene(old(self)@, old(audio).heard()),
                idx as int,
            ),
    {
        let mut player = self.players[idx];
        if !player.alive {
            return ;
        }
        let here = [player.pos];
        assert(here@ =~= seq![player.pos]);
        if player.is_invincible() {
            let ghost before = self@;
            let kills = strike_enemies(&mut self.enemies, &here);
            proof {
                rules::lemma_decimated(before.enemies, here@);
                assert(before.players[idx as int].score + rules::count(
                    before.enemies,
                    rules::living(),
                ) * SCORE_PER_ENEMY <= u32::MAX);
            }
            player.score = player.score + kills as u32 * SCORE_PER_ENEMY;
            self.players.set(idx, player);
        } else if enemies_at(&self.enemies, &here) > 0 {
            hurt_player(&mut self.players, idx, audio);
        }
    }

    /// The players meet the enemies, one after the other.
    fn check_enemy_contact<A: AudioPlayer + ?Sized>(&mut self, audio: &mut A)
        requires
            old(self)@.wf(),
            rules::solvent(old(self)@),
        ensures
            rules::scene(final(self)@, final(audio).heard()) == rules::all_met(
                rules::scene(old(self)@, old(audio).heard()),
                old(self).players@.len(),
            ),
            final(self)@.wf(),
            rules::same_cast(old(self)@, final(self)@),
            final(self)@.screen == old(self)@.screen,
    {
        let ghost start = rules::scene(self@, audio.heard());
        let n = self.players.len();
        for idx in 0..n
            invariant
                n == start.game.players.len(),
                self@.wf(),
                rules::solvent(self@),
                rules::same_cast(start.game, self@),
                self@.screen == start.game.screen,
                rules::scene(self@, audio.heard()) == rules::all_met(start, idx as nat),
        {
            proof {
                rules::lemma_met(rules::scene(self@, audio.heard()), idx as int);
            }
            self.meet_enemies(idx, audio);
        }
    }

    /// Whether players play against each other.
    pub fn is_versus_match(&self) -> (versus: bool)
        ensures
            versus == rules::versus(self@),
    {
        self.players.len() > 1 && self.enemies.len() == 0
    }

    /// Where player `idx` starts and comes back to life.
    pub fn spawn_point(&self, idx: usize) -> (pos: Coord)
        ensures
            pos == rules::spawn_of(self@, idx as int),
    {
        if idx < self.spawn_points.len() {
            self.spawn_points[idx]
        } else {
            PLAYER_START
        }
    }

    /// The end of a round against enemies.
    fn resolve_solo_end<A: AudioPlayer + ?Sized>(&mut self, audio: &mut A)
        ensures
            rules::scene(final(self)@, final(audio).heard()) == rules::solo_resolved(
                rules::scene(old(self)@, old(audio).heard()),
            ),
    {
        let ghost game = self@;
        let ghost after = rules::solo_revived(game);
        let mut had_dead_player = false;
        let mut out_of_lives = false;
        let n = self.players.len();
        for idx in 0..n
            invariant
                n == game.players.len(),
                self.players@.len() == n,
                after == rules::solo_revived(game),
                self@ == (GameView { players: self.players@, ..game }),
                forall|j: int| 0 <= j < idx ==> #[trigger] self.players@[j] == after[j],
                forall|j: int| idx <= j < n ==> #[trigger] self.players@[j] == game.players[j],
                had_dead_player == rules::someone_dead(game.players.take(idx as int)),
                out_of_lives == rules::someone_out(game.players.take(idx as int)),
        {
            let mut player = self.players[idx];
            let ghost done = game.players.take(idx as int);
            let ghost next = game.players.take(idx + 1);
            proof {
                assert(next[idx as int] == player);
                assert(forall|j: int| 0 <= j < idx ==> #[trigger] next[j] == done[j]);
                assert(forall|j: int| 0 <= j < idx ==> #[trigger] done[j] == next[j]);
            }
            if !player.alive {
                had_dead_player = true;
                if player.lives == 0 {
                    out_of_lives = true;
                } else {
                    player.pos = self.spawn_point(idx);
                    player.alive = true;
                    player.move_cooldown = 0;
                    self.players.set(idx, player);
                }
            }
        }
        assert(game.players.take(n as int) =~= game.players);
        assert(self.players@ =~= after);

        if out_of_lives {
            self.screen = Screen::GameOver;
            audio.stop_bgm();
            audio.play_bgm(Bgm::GameOver);
            return ;
        }
        if had_dead_player {
            return ;
        }
        if all_enemies_dead(&self.enemies) {
            self.screen = Screen::Cleared;
            audio.stop_bgm();
            audio.play_se(SoundEffect::StageClear);
            audio.play_bgm(Bgm::Clear);
        }
    }

    /// The end of a match between players.
    fn resolve_versus_end<A: AudioPlayer + ?Sized>(&mut self, audio: &mut A)
        ensures
            rules::scene(final(self)@, final(audio).heard()) == rules::versus_resolved(
                rules::scene(old(self)@, old(audio).heard()),
            ),
    {
        let ghost players = self.players@;
        match survivors(&self.players) {
            Survivors::One(winner) => {
                proof {
                    let chosen = choose|i: int| rules::sole_survivor(players, i);
                    assert(rules::sole_survivor(players, winner as int));
                    assert(rules::sole_survivor(players, chosen));
                    assert(chosen == winner);
                }
                self.screen = Screen::MatchResult(Some(winner));
                audio.stop_bgm();
                audio.play_se(SoundEffect::StageClear);
                audio.play_bgm(Bgm::Clear);
            },
            Survivors::Nobody => {
                self.screen = Screen::MatchResult(None);
                audio.stop_bgm();
                audio.play_bgm(Bgm::GameOver);
            },
            Survivors::Several => {},
        }
    }

    /// The end of a round, if it is over.
    fn resolve_round_end<A: AudioPlayer + ?Sized>(&mut self, audio: &mut A)
        ensures
            rules::scene(final(self)@, final(audio).heard()) == rules::resolved(
                rules::scene(old(self)@, old(audio).heard()),
            ),
    {
        if self.is_versus_match() {
            self.resolve_versus_end(audio);
        } else {
            self.resolve_solo_end(audio);
        }
    }

    /// A tick of play. The ghost result says how chance came out.
    fn tick_playing<A: AudioPlayer + ?Sized>(
        &mut self,
        dt: Nanos,
        actions: &[Action],
        audio: &mut A,
    ) -> (luck: Ghost<rules::Luck>)
        requires
            old(self)@.wf(),
            old(self)@.has_headroom(),
        ensures
            rules::fair(
                rules::scene(old(self)@, old(audio).heard()),
                dt,
                actions@,
                luck@,
            ),
            rules::scene(final(self)@, final(audio).heard()) == rules::played(
                rules::scene(old(self)@, old(audio).heard()),
                dt,
                actions@,
                luck@,
            ),
            final(self)@.wf(),
    {
        let ghost start = rules::scene(self@, audio.heard());
        wear_shields(&mut self.players, dt);
        let ghost worn = rules::scene(self@, audio.heard());
        proof {
            rules::lemma_shields_passed(start, dt);
            assert(worn == rules::shields_passed(start, dt));
        }

        let n = self.players.len();
        for idx in 0..n
            invariant
                n == worn.game.players.len(),
                worn.game.wf(),
                worn.game.has_headroom(),
                self@.wf(),
                rules::scene(self@, audio.heard()) == rules::all_acted(
                    worn,
                    dt,
                    actions@,
                    idx as nat,
                ),
        {
            proof {
                rules::lemma_all_acted(worn, dt, actions@, idx as nat);
                assert(self.players@[idx as int] == worn.game.players[idx as int]);
            }
            let action = if idx < actions.len() {
                actions[idx]
            } else {
                Action::Idle
            };
            self.handle_player_input(idx, dt, action, audio);
        }
        let ghost moved = rules::scene(self@, audio.heard());
        proof {
            rules::lemma_all_acted(worn, dt, actions@, n as nat);
            rules::lemma_all_acted_score(worn, dt, actions@, n as nat);
        }

        // Blasts of this tick start out fresh, so older ones fade before.
        let mut explosions: Vec<Explosion> = Vec::new();
        std::mem::swap(&mut explosions, &mut self.explosions);
        self.explosions = fade_explosions(explosions, dt);
        burn_fuses(&mut self.bombs, dt);
        let ghost burnt = rules::scene(self@, audio.heard());
        proof {
            assert(burnt == rules::fuses_passed(moved, dt));
            rules::lemma_fuses_passed(moved, dt);
            assert forall|i: int| 0 <= i < burnt.game.players.len() implies (
            #[trigger] burnt.game.players[i]).score + rules::count(
                burnt.game.enemies,
                rules::living(),
            ) * SCORE_PER_ENEMY <= u32::MAX by {
                assert(moved.game.players[i].score <= worn.game.players[i].score
                    + SCORE_PER_ITEM);
                assert(rules::player_has_headroom(
                    worn.game.players[i],
                    rules::count(worn.game.enemies, rules::living()),
                ));
            }
        }
        let Ghost(drops) = self.detonate_ready_bombs(audio);
        let ghost blown = rules::scene(self@, audio.heard());

        let Ghost(turns) = self.update_enemies(dt);
        proof {
            rules::lemma_enemies_passed(blown.game, dt, turns);
        }
        self.check_enemy_contact(audio);
        let ghost met = rules::scene(self@, audio.heard());
        proof {
            rules::lemma_resolved(met);
        }
        self.resolve_round_end(audio);
        Ghost(rules::Luck { drops, turns })
    }

    /// A new solo game on the given board, on the title screen.
    pub fn new_on(map: GameMap) -> (state: GameState)
        requires
            spawn::measurable(map@),
        ensures
            state@ == rules::solo_game(map@),
            state@.wf(),
    {
        proof {
            rules::lemma_solo_game(map@);
        }
        let enemies = spawn_enemies(&map);
        let state = GameState {
            screen: Screen::Title,
            map,
            players: vec![Player::new(PLAYER_START)],
            enemies,
            bombs: Vec::new(),
            explosions: Vec::new(),
            spawn_points: vec![PLAYER_START],
            enemy_move_cooldown: ENEMY_MOVE_INTERVAL,
        };
        assert(state@ =~= rules::solo_game(map@));
        state
    }

    /// A new match between `num_players` players on the given board, on the title
    /// screen.
    pub fn new_multiplayer_on(map: GameMap, num_players: usize) -> (state: GameState)
        requires
            spawn::measurable(map@),
        ensures
            state@ == rules::versus_game(map@, num_players as nat),
            state@.wf(),
    {
        proof {
            rules::lemma_versus_game(map@, num_players as nat);
        }
        let spawn_points = player_spawn_positions(&map, num_players);
        let players = players_at(&spawn_points);
        let state = GameState {
            screen: Screen::Title,
            map,
            players,
            enemies: Vec::new(),
            bombs: Vec::new(),
            explosions: Vec::new(),
            spawn_points,
            enemy_move_cooldown: ENEMY_MOVE_INTERVAL,
        };
        assert(state@ =~= rules::versus_game(map@, num_players as nat));
        state
    }

    /// A new solo game against three enemies, on the title screen.
    pub fn new() -> (state: GameState)
        ensures
            state@.wf(),
            crate::game::map::freshly_laid(state@.map, MAP_WIDTH as int, MAP_HEIGHT as int),
            state@ == rules::solo_game(state@.map),
    {
        GameState::new_on(GameMap::generate(MAP_WIDTH, MAP_HEIGHT))
    }

    /// A new match between two to four players, without enemies, on the title
    /// screen. Other numbers count as the nearest of these.
    pub fn new_multiplayer(num_players: usize) -> (state: GameState)
        ensures
            state@.wf(),
            crate::game::map::freshly_laid(state@.map, MAP_WIDTH as int, MAP_HEIGHT as int),
            state@ == rules::versus_game(state@.map, rules::match_size(num_players as nat)),
    {
        let num_players: usize = if num_players < MIN_MULTIPLAYER_PLAYERS {
            MIN_MULTIPLAYER_PLAYERS
        } else if num_players > MAX_PLAYERS {
            MAX_PLAYERS
        } else {
            num_players
        };
        GameState::new_multiplayer_on(GameMap::generate(MAP_WIDTH, MAP_HEIGHT), num_players)
    }

    /// The score of the first player.
    pub fn score(&self) -> (score: u32)
        ensures
            score == (if self.players@.len() > 0 {
                self.players@[0].score
            } else {
                0
            }),
    {
        if self.players.len() > 0 {
            self.players[0].score
        } else {
            0
        }
    }

    /// The lives of the first player.
    pub fn lives(&self) -> (lives: u32)
        ensures
            lives == (if self.players@.len() > 0 {
                self.players@[0].lives
            } else {
                0
            }),
    {
        if self.players.len() > 0 {
            self.players[0].lives
        } else {
            0
        }
    }

    /// Takes player `idx` out of the game, alive or not. Does nothing if there is
    /// no such player.
    pub fn retire_player(&mut self, idx: usize)
        ensures
            final(self)@ == rules::retired(old(self)@, idx as int),
            old(self)@.wf() ==> final(self)@.wf(),
    {
        if idx < self.players.len() {
            let ghost before = self@;
            let mut player = self.players[idx];
            player.alive = false;
            self.players.set(idx, player);
            assert(self@ =~= rules::retired(before, idx as int));
        }
    }

    /// Whether no counter can run over in the coming tick.
    pub fn has_headroom(&self) -> (fits: bool)
        ensures
            fits == self@.has_headroom(),
    {
        let mut alive: u64 = 0;
        for i in 0..self.enemies.len()
            invariant
                alive <= i,
                alive == rules::count(self.enemies@.take(i as int), rules::living()),
        {
            assert(self.enemies@.take(i + 1).drop_last() =~= self.enemies@.take(i as int));
            if self.enemies[i].alive {
                alive = alive + 1;
            }
        }
        assert(self.enemies@.take(self.enemies@.len() as int) =~= self.enemies@);
        for i in 0..self.players.len()
            invariant
                alive == rules::count(self.enemies@, rules::living()),
                forall|j: int|
                    0 <= j < i ==> rules::player_has_headroom(
                        #[trigger] self.players@[j],
                        alive as nat,
                    ),
        {
            let player = self.players[i];
            let room: u64 = (u32::MAX - player.score) as u64;
            let fits = player.power < u32::MAX && player.bomb_capacity < u32::MAX && player.speed
                <= u32::MAX - SPEED_INCREMENT && room >= SCORE_PER_ITEM as u64 && alive <= (room
                - SCORE_PER_ITEM as u64) / SCORE_PER_ENEMY as u64;
            if !fits {
                assert(!rules::player_has_headroom(self@.players[i as int], alive as nat));
                return false;
            }
        }
        true
    }

    /// A tick with one action, which is that of the first player.
    pub fn tick<A: AudioPlayer + ?Sized>(&mut self, dt: Nanos, action: Action, audio: &mut A)
        requires
            old(self)@.wf(),
            old(self)@.screen is Playing ==> old(self)@.has_headroom(),
        ensures
            rules::ticked(
                rules::scene(old(self)@, old(audio).heard()),
                dt,
                seq![action],
                rules::scene(final(self)@, final(audio).heard()),
            ),
            final(self)@.wf(),
    {
        let actions = [action];
        assert(actions@ =~= seq![action]);
        self.tick_multi(dt, &actions, audio);
    }

    /// A tick. On every screen, players for whom there is no action do nothing, and
    /// actions for which there is no player are ignored.
    pub fn tick_multi<A: AudioPlayer + ?Sized>(
        &mut self,
        dt: Nanos,
        actions: &[Action],
        audio: &mut A,
    )
        requires
            old(self)@.wf(),
            old(self)@.screen is Playing ==> old(self)@.has_headroom(),
        ensures
            rules::ticked(
                rules::scene(old(self)@, old(audio).heard()),
                dt,
                actions@,
                rules::scene(final(self)@, final(audio).heard()),
            ),
            final(self)@.wf(),
    {
        match self.screen {
            Screen::Title => {
                self.tick_title(actions, audio);
            },
            Screen::Playing => {
                let ghost before = rules::scene(self@, audio.heard());
                let Ghost(luck) = self.tick_playing(dt, actions, audio);
                assert(rules::fair(before, dt, actions@, luck));
            },
            Screen::Cleared | Screen::GameOver | Screen::MatchResult(_) => {
                self.tick_result(actions, audio);
            },
        }
    }

    /// The title screen: anything but `Quit`, from any player, starts the game.
    fn tick_title<A: AudioPlayer + ?Sized>(&mut self, actions: &[Action], audio: &mut A)
        requires
            old(self)@.wf(),
        ensures
            final(self)@.wf(),
            rules::starts(actions@, old(self).players@.len()) ==> exists|map: MapView| #[trigger]
                crate::game::map::freshly_laid(map, MAP_WIDTH as int, MAP_HEIGHT as int)
                    && rules::scene(final(self)@, final(audio).heard()) == rules::started(
                    rules::scene(old(self)@, old(audio).heard()),
                    map,
                ),
            !rules::starts(actions@, old(self).players@.len()) ==> *final(self) == *old(self)
                && final(audio).heard() == old(audio).heard(),
    {
        let num_players = self.players.len();
        for i in 0..num_players
            invariant
                old(self)@.wf(),
                *self == *old(self),
                num_players == old(self).players@.len(),
                audio.heard() == old(audio).heard(),
                forall|j: int|
                    0 <= j < i ==> (#[trigger] rules::action_of(actions@, j)) is Idle
                        || rules::action_of(actions@, j) is Quit,
        {
            if i < actions.len() && !matches!(actions[i], Action::Idle | Action::Quit) {
                assert(rules::action_of(actions@, i as int) == actions@[i as int]);
                self.start_new_game(audio);
                return ;
            }
        }
    }

    /// A result screen: the bomb key of any player leads back to the title.
    fn tick_result<A: AudioPlayer + ?Sized>(&mut self, actions: &[Action], audio: &mut A)
        requires
            old(self)@.wf(),
        ensures
            final(self)@.wf(),
            rules::scene(final(self)@, final(audio).heard()) == if rules::leaves(
                actions@,
                old(self).players@.len(),
            ) {
                rules::left(rules::scene(old(self)@, old(audio).heard()))
            } else {
                rules::scene(old(self)@, old(audio).heard())
            },
    {
        let num_players = self.players.len();
        for i in 0..num_players
            invariant
                old(self)@.wf(),
                *self == *old(self),
                num_players == old(self).players@.len(),
                audio.heard() == old(audio).heard(),
                forall|j: int|
                    0 <= j < i ==> !((#[trigger] rules::action_of(actions@, j)) is PlaceBomb),
        {
            if i < actions.len() && matches!(actions[i], Action::PlaceBomb) {
                assert(rules::action_of(actions@, i as int) == actions@[i as int]);
                self.screen = Screen::Title;
                audio.stop_bgm();
                audio.play_bgm(Bgm::Title);
                return ;
            }
        }
    }

    /// Begins a game on a new board, with as many players as there are now.
    fn start_new_game<A: AudioPlayer + ?Sized>(&mut self, audio: &mut A)
        ensures
            final(self)@.wf(),
            exists|map: MapView| #[trigger]
                crate::game::map::freshly_laid(map, MAP_WIDTH as int, MAP_HEIGHT as int)
                    && rules::scene(final(self)@, final(audio).heard()) == rules::started(
                    rules::scene(old(self)@, old(audio).heard()),
                    map,
                ),
    {
        let map = GameMap::generate(MAP_WIDTH, MAP_HEIGHT);
        self.start_on(map, audio);
    }

    /// Begins a game on the given board, with as many players as there are now:
    /// one against enemies, or several against each other.
    pub fn start_on<A: AudioPlayer + ?Sized>(&mut self, map: GameMap, audio: &mut A)
        requires
            spawn::measurable(map@),
        ensures
            rules::scene(final(self)@, final(audio).heard()) == rules::started(
                rules::scene(old(self)@, old(audio).heard()),
                map@,
            ),
            final(self)@.wf(),
    {
        let num_players = self.players.len();
        let mut fresh = if num_players <= 1 {
            GameState::new_on(map)
        } else {
            GameState::new_multiplayer_on(map, num_players)
        };
        fresh.screen = Screen::Playing;
        *self = fresh;
        audio.stop_bgm();
        audio.play_bgm(Bgm::Stage);
    }
}

impl Default for GameState {
    /// A new solo game.
    fn default() -> (state: GameState)
        ensures
            state@.wf(),
            crate::game::map::freshly_laid(state@.map, MAP_WIDTH as int, MAP_HEIGHT as int),
            state@ == rules::solo_game(state@.map),
    {
        GameState::new()
    }
}

/// New players, one on each of the given cells.
fn players_at(cells: &[Coord]) -> (players: Vec<Player>)
    ensures
        players@ == rules::fresh_players(cells@),
{
    let mut players: Vec<Player> = Vec::with_capacity(cells.len());
    for i in 0..cells.len()
        invariant
            players@.len() == i,
            forall|j: int| 0 <= j < i ==> #[trigger] players@[j] == Player::fresh(cells@[j]),
    {
        players.push(Player::new(cells[i]));
    }
    assert(players@ =~= rules::fresh_players(cells@));
    players
}

/// Who is left of the players of a match.
enum Survivors {
    Nobody,
    One(usize),
    Several,
}

/// Who is left of the players of a match.
fn survivors(players: &[Player]) -> (left: Survivors)
    ensures
        match left {
            Survivors::Nobody => rules::wiped_out(players@),
            Survivors::One(i) => rules::sole_survivor(players@, i as int),
            Survivors::Several => !rules::wiped_out(players@) && forall|i: int|
                !rules::sole_survivor(players@, i),
        },
{
    let mut left = Survivors::Nobody;
    for i in 0..players.len()
        invariant
            match left {
                Survivors::Nobody => forall|j: int|
                    0 <= j < i ==> !(#[trigger] players@[j]).alive,
                Survivors::One(k) => {
                    &&& k < i
                    &&& players@[k as int].alive
                    &&& forall|j: int| 0 <= j < i && j != k ==> !(#[trigger] players@[j]).alive
                },
                Survivors::Several => exists|j: int, k: int|
                    0 <= j < k < i && (#[trigger] players@[j]).alive && (
                    #[trigger] players@[k]).alive,
            },
    {
        if players[i].alive {
            left = match left {
                Survivors::Nobody => Survivors::One(i),
                Survivors::One(_) => Survivors::Several,
                Survivors::Several => Survivors::Several,
            };
        }
    }
    left
}

/// Whether there were enemies and all are dead.
fn all_enemies_dead(enemies: &[Enemy]) -> (gone: bool)
    ensures
        gone == rules::enemies_gone(enemies@),
{
    for i in 0..enemies.len()
        invariant
            forall|j: int| 0 <= j < i ==> !(#[trigger] enemies@[j]).alive,
    {
        if enemies[i].alive {
            return false;
        }
    }
    enemies.len() > 0
}

/// The number of live enemies in the given cells.
fn enemies_at(enemies: &[Enemy], cells: &[Coord]) -> (number: usize)
    ensures
        number == rules::count(enemies@, rules::struck_in(cells@)),
{
    let mut number: usize = 0;
    for i in 0..enemies.len()
        invariant
            number <= i,
            number == rules::count(enemies@.take(i as int), rules::struck_in(cells@)),
    {
        assert(enemies@.take(i + 1).drop_last() =~= enemies@.take(i as int));
        if enemies[i].alive && lists(cells, enemies[i].pos) {
            number = number + 1;
        }
    }
    assert(enemies@.take(enemies@.len() as int) =~= enemies@);
    number
}

/// Where the first of those players is who are closest to a cell.
fn nearest_of(players: &[Player], from: Coord) -> (found: Option<Coord>)
    requires
        geometry::in_range(from),
        forall|i: int| 0 <= i < players@.len() ==> geometry::in_range((#[trigger] players@[i]).pos),
    ensures
        match found {
            Some(pos) => exists|i: int| #[trigger]
                geometry::first_least(rules::player_distances(players@, from), i) && pos
                    == players@[i].pos,
            None => players@.len() == 0,
        },
{
    let ghost keys = rules::player_distances(players@, from);
    if players.len() == 0 {
        return None;
    }
    let mut best: usize = 0;
    assert(geometry::in_range(players@[0].pos));
    let mut best_distance: i32 = manhattan(players[0].pos, from);
    for i in 1..players.len()
        invariant
            geometry::in_range(from),
            forall|i: int|
                0 <= i < players@.len() ==> geometry::in_range((#[trigger] players@[i]).pos),
            keys == rules::player_distances(players@, from),
            keys.len() == players@.len(),
            best < i <= players@.len(),
            best_distance == keys[best as int],
            forall|j: int| 0 <= j < i ==> keys[best as int] <= #[trigger] keys[j],
            forall|j: int| 0 <= j < best ==> keys[best as int] < #[trigger] keys[j],
    {
        assert(geometry::in_range(players@[i as int].pos));
        let candidate_distance = manhattan(players[i].pos, from);
        assert(candidate_distance == keys[i as int]);
        if candidate_distance < best_distance {
            best = i;
            best_distance = candidate_distance;
        }
    }
    assert(geometry::first_least(keys, best as int));
    Some(players[best].pos)
}

/// Where the closest player is: of those alive, or of all if none is.
pub fn nearest_player_pos(players: &[Player], from: Coord) -> (found: Option<Coord>)
    requires
        geometry::in_range(from),
        forall|i: int| 0 <= i < players@.len() ==> geometry::in_range((#[trigger] players@[i]).pos),
    ensures
        found == rules::nearest_target(players@, from),
        found matches Some(pos) ==> geometry::in_range(pos),
{
    let ghost is_alive = |player: Player| player.alive;
    let mut alive: Vec<Player> = Vec::new();
    assert(players@.take(0).filter(is_alive) =~= alive@) by {
        reveal(Seq::filter);
    }
    for i in 0..players.len()
        invariant
            is_alive == (|player: Player| player.alive),
            alive@ == players@.take(i as int).filter(is_alive),
            forall|i: int|
                0 <= i < players@.len() ==> geometry::in_range((#[trigger] players@[i]).pos),
            forall|i: int|
                0 <= i < alive@.len() ==> geometry::in_range((#[trigger] alive@[i]).pos),
    {
        proof {
            reveal(Seq::filter);
            assert(players@.take(i + 1).drop_last() =~= players@.take(i as int));
            assert(players@.take(i + 1).last() == players@[i as int]);
        }
        if players[i].alive {
            alive.push(players[i]);
        }
    }
    assert(players@.take(players@.len() as int) =~= players@);
    let ghost pool = rules::targets(players@);
    let ghost keys = rules::player_distances(pool, from);
    let found = if alive.len() > 0 {
        nearest_of(&alive, from)
    } else {
        nearest_of(players, from)
    };
    proof {
        if let Some(pos) = found {
            let i = choose|i: int| #[trigger] geometry::first_least(keys, i) && pos == pool[i].pos;
            let chosen = choose|i: int| geometry::first_least(keys, i);
            geometry::lemma_first_least_unique(keys, i, chosen);
            assert(geometry::in_range(pool[i].pos));
        }
    }
    found
}

/// Whether two outcomes agree on the blocks that are gone.
spec fn agree_on_cleared(
    before: MapView,
    after: MapView,
    one: spec_fn(Coord) -> Option<ItemKind>,
    other: spec_fn(Coord) -> Option<ItemKind>,
) -> bool {
    forall|pos: Coord| #[trigger]
        before.tile(pos) is Block && !(after.tile(pos) is Block) ==> one(pos) == other(pos)
}

/// The first bomb that is due.
fn first_ready(bombs: &[Bomb]) -> (ready: Option<usize>)
    ensures
        match ready {
            Some(i) => rules::first_due(bombs@, i as int),
            None => forall|i: int| 0 <= i < bombs@.len() ==> !rules::due(#[trigger] bombs@[i]),
        },
{
    for i in 0..bombs.len()
        invariant
            forall|j: int| 0 <= j < i ==> !rules::due(#[trigger] bombs@[j]),
    {
        if bombs[i].timer <= 0 {
            return Some(i);
        }
    }
    None
}

} // verus!
