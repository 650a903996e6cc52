//! What is earned, lost and heard in a tick of play.

use vstd::prelude::*;

use crate::audio::AudioCommand;
use crate::game::entities;
use crate::game::entities::{Enemy, Player};
use crate::game::rules;
use crate::game::rules::{GameView, Scene};
use crate::game::ticks;
use crate::types::{Action, Coord, ItemKind, Nanos, SoundEffect};

verus! {

/// How often a sound has been asked for.
pub open spec fn plays(heard: Seq<AudioCommand>, se: SoundEffect) -> int
    decreases heard.len(),
{
    if heard.len() == 0 {
        0
    } else {
        plays(heard.drop_last(), se) + if heard.last() == AudioCommand::PlaySe(se) {
            1int
        } else {
            0int
        }
    }
}

/// The points of all players together.
pub open spec fn points(players: Seq<Player>) -> int
    decreases players.len(),
{
    if players.len() == 0 {
        0
    } else {
        points(players.drop_last()) + players.last().score
    }
}

/// The lives of all players together.
pub open spec fn lives(players: Seq<Player>) -> int
    decreases players.len(),
{
    if players.len() == 0 {
        0
    } else {
        lives(players.drop_last()) + players.last().lives
    }
}

/// The number of enemies that are alive.
pub open spec fn enemies_alive(enemies: Seq<Enemy>) -> int
    decreases enemies.len(),
{
    if enemies.len() == 0 {
        0
    } else {
        enemies_alive(enemies.drop_last()) + if enemies.last().alive {
            1int
        } else {
            0int
        }
    }
}

/// Whether every bomb belongs to a player of the game, and everybody who is alive
/// has a life to lose.
pub open spec fn in_order(game: GameView) -> bool {
    &&& forall|j: int|
        0 <= j < game.bombs.len() ==> (#[trigger] game.bombs[j]).owner < game.players.len()
    &&& forall|i: int|
        0 <= i < game.players.len() && (#[trigger] game.players[i]).alive ==> game.players[i].lives
            > 0
}

/// Whether the books balance between two scenes: fifty points for every item heard
/// to be taken and two hundred for every enemy killed, a life for every death
/// heard, and as many bombs more as were heard to be placed, less those heard to go
/// off.
pub open spec fn balanced(before: Scene, after: Scene) -> bool {
    &&& points(after.game.players) - points(before.game.players) == 50 * (plays(
        after.heard,
        SoundEffect::ItemGet,
    ) - plays(before.heard, SoundEffect::ItemGet)) + 200 * (enemies_alive(before.game.enemies)
        - enemies_alive(after.game.enemies))
    &&& lives(before.game.players) - lives(after.game.players) == plays(
        after.heard,
        SoundEffect::Death,
    ) - plays(before.heard, SoundEffect::Death)
    &&& after.game.bombs.len() - before.game.bombs.len() == plays(
        after.heard,
        SoundEffect::PlaceBomb,
    ) - plays(before.heard, SoundEffect::PlaceBomb) - (plays(after.heard, SoundEffect::Explosion)
        - plays(before.heard, SoundEffect::Explosion))
    &&& after.game.players.len() == before.game.players.len()
    &&& in_order(after.game)
}

/// One more request.
proof fn lemma_plays_push(heard: Seq<AudioCommand>, command: AudioCommand, se: SoundEffect)
    ensures
        plays(heard.push(command), se) == plays(heard, se) + if command == AudioCommand::PlaySe(se) {
            1int
        } else {
            0int
        },
{
    assert(heard.push(command).drop_last() =~= heard);
}

/// The same request several times.
proof fn lemma_plays_repeated(heard: Seq<AudioCommand>, se: SoundEffect, n: nat, other: SoundEffect)
    ensures
        plays(heard + rules::repeated(se, n), other) == plays(heard, other) + if se == other {
            n as int
        } else {
            0int
        },
    decreases n,
{
    if n == 0 {
        assert(heard + rules::repeated(se, n) =~= heard);
    } else {
        let m = (n - 1) as nat;
        lemma_plays_repeated(heard, se, m, other);
        assert((heard + rules::repeated(se, n)).drop_last() =~= heard + rules::repeated(se, m));
    }
}

/// One player in the place of another.
proof fn lemma_replaced(players: Seq<Player>, i: int, player: Player)
    requires
        0 <= i < players.len(),
    ensures
        points(players.update(i, player)) == points(players) - players[i].score + player.score,
        lives(players.update(i, player)) == lives(players) - players[i].lives + player.lives,
    decreases players.len(),
{
    let shorter = players.drop_last();
    if i == players.len() - 1 {
        assert(players.update(i, player).drop_last() =~= shorter);
    } else {
        lemma_replaced(shorter, i, player);
        assert(players.update(i, player).drop_last() =~= shorter.update(i, player));
    }
}

/// Players who have not changed in points and lives.
proof fn lemma_same_players(before: Seq<Player>, after: Seq<Player>)
    requires
        before.len() == after.len(),
        forall|i: int|
            0 <= i < before.len() ==> (#[trigger] after[i]).score == before[i].score
                && after[i].lives == before[i].lives,
    ensures
        points(after) == points(before),
        lives(after) == lives(before),
    decreases before.len(),
{
    if before.len() > 0 {
        assert(after[after.len() - 1].score == before[before.len() - 1].score);
        assert forall|i: int| 0 <= i < before.drop_last().len() implies (
        #[trigger] after.drop_last()[i]).score == before.drop_last()[i].score
            && after.drop_last()[i].lives == before.drop_last()[i].lives by {
            assert(after[i].score == before[i].score);
        }
        lemma_same_players(before.drop_last(), after.drop_last());
    }
}

/// Enemies as many of which are alive.
proof fn lemma_same_enemies(before: Seq<Enemy>, after: Seq<Enemy>)
    requires
        before.len() == after.len(),
        forall|i: int| 0 <= i < before.len() ==> (#[trigger] after[i]).alive == before[i].alive,
    ensures
        enemies_alive(after) == enemies_alive(before),
    decreases before.len(),
{
    if before.len() > 0 {
        assert(after[after.len() - 1].alive == before[before.len() - 1].alive);
        assert forall|i: int| 0 <= i < before.drop_last().len() implies (
        #[trigger] after.drop_last()[i]).alive == before.drop_last()[i].alive by {
            assert(after[i].alive == before[i].alive);
        }
        lemma_same_enemies(before.drop_last(), after.drop_last());
    }
}

/// The enemies killed in some cells.
proof fn lemma_killed(enemies: Seq<Enemy>, cells: Seq<Coord>)
    ensures
        enemies_alive(enemies) - enemies_alive(rules::decimated(enemies, cells)) == rules::count(
            enemies,
            rules::struck_in(cells),
        ),
        0 <= enemies_alive(rules::decimated(enemies, cells)),
        enemies_alive(enemies) == rules::count(enemies, rules::living()),
    decreases enemies.len(),
{
    if enemies.len() > 0 {
        lemma_killed(enemies.drop_last(), cells);
        assert(rules::decimated(enemies, cells).drop_last() =~= rules::decimated(
            enemies.drop_last(),
            cells,
        ));
    }
}

/// The players killed in some cells.
proof fn lemma_fallen(players: Seq<Player>, cells: Seq<Coord>)
    requires
        forall|i: int|
            0 <= i < players.len() && (#[trigger] players[i]).alive ==> players[i].lives > 0,
    ensures
        points(rules::scorched(players, cells)) == points(players),
        lives(players) - lives(rules::scorched(players, cells)) == rules::count(
            players,
            rules::caught_in(cells),
        ),
    decreases players.len(),
{
    if players.len() > 0 {
        let shorter = players.drop_last();
        assert forall|i: int| 0 <= i < shorter.len() && (#[trigger] shorter[i]).alive implies shorter[i].lives
            > 0 by {
            assert(players[i].alive);
        }
        assert(players[players.len() - 1] == players.last());
        lemma_fallen(shorter, cells);
        assert(rules::scorched(players, cells).drop_last() =~= rules::scorched(shorter, cells));
    }
}

/// The books balance over two stages if they do over each.
proof fn lemma_balanced_on(first: Scene, second: Scene, third: Scene)
    requires
        balanced(first, second),
        balanced(second, third),
    ensures
        balanced(first, third),
{
}

/// The books balance over the input of one player.
proof fn lemma_acted_balanced(scene: Scene, idx: int, dt: Nanos, action: Action)
    requires
        in_order(scene.game),
        scene.game.players.len() <= usize::MAX,
        0 <= idx < scene.game.players.len(),
        scene.game.players[idx].score + 50 <= u32::MAX,
    ensures
        balanced(scene, rules::acted(scene, idx, dt, action)),
{
    let after = rules::acted(scene, idx, dt, action);
    let before = scene.game.players;
    lemma_replaced(before, idx, after.game.players[idx]);
    let item = AudioCommand::PlaySe(SoundEffect::ItemGet);
    let place = AudioCommand::PlaySe(SoundEffect::PlaceBomb);
    lemma_plays_push(scene.heard, item, SoundEffect::ItemGet);
    lemma_plays_push(scene.heard, item, SoundEffect::PlaceBomb);
    lemma_plays_push(scene.heard, item, SoundEffect::Explosion);
    lemma_plays_push(scene.heard, item, SoundEffect::Death);
    lemma_plays_push(scene.heard, place, SoundEffect::ItemGet);
    lemma_plays_push(scene.heard, place, SoundEffect::PlaceBomb);
    lemma_plays_push(scene.heard, place, SoundEffect::Explosion);
    lemma_plays_push(scene.heard, place, SoundEffect::Death);
    assert(after.game.players =~= before.update(idx, after.game.players[idx]));
    let player = before[idx];
    assert(player.alive ==> player.lives > 0);
    assert(after.game.players[idx].alive == player.alive && after.game.players[idx].lives
        == player.lives);
    assert(after.heard == scene.heard || after.heard == scene.heard.push(item) || after.heard
        == scene.heard.push(place));
    assert(after.game.enemies == scene.game.enemies);
    assert(in_order(after.game)) by {
        assert forall|i: int| 0 <= i < after.game.players.len() && (
        #[trigger] after.game.players[i]).alive implies after.game.players[i].lives > 0 by {
            assert(before[i].alive ==> before[i].lives > 0);
        }
        assert forall|j: int| 0 <= j < after.game.bombs.len() implies (
        #[trigger] after.game.bombs[j]).owner < after.game.players.len() by {
            if j < scene.game.bombs.len() {
                assert(after.game.bombs[j] == scene.game.bombs[j]);
            }
        }
    }
}

/// The books balance over the input of the first players.
proof fn lemma_input_balanced(scene: Scene, dt: Nanos, actions: Seq<Action>, upto: nat)
    requires
        scene.game.wf(),
        scene.game.has_headroom(),
        in_order(scene.game),
        scene.game.players.len() <= usize::MAX,
        upto <= scene.game.players.len(),
    ensures
        balanced(scene, rules::all_acted(scene, dt, actions, upto)),
    decreases upto,
{
    if upto > 0 {
        let before = rules::all_acted(scene, dt, actions, (upto - 1) as nat);
        lemma_input_balanced(scene, dt, actions, (upto - 1) as nat);
        rules::lemma_all_acted(scene, dt, actions, (upto - 1) as nat);
        assert(before.game.players[upto - 1] == scene.game.players[upto - 1]);
        assert(rules::player_has_headroom(
            scene.game.players[upto - 1],
            rules::count(scene.game.enemies, rules::living()),
        ));
        lemma_acted_balanced(before, upto - 1, dt, rules::action_of(actions, upto - 1));
        lemma_balanced_on(scene, before, rules::all_acted(scene, dt, actions, upto));
    }
}

/// The books balance over a blast.
proof fn lemma_blast_balanced(scene: Scene, i: int, drops: spec_fn(Coord) -> Option<ItemKind>)
    requires
        in_order(scene.game),
        rules::solvent(scene.game),
        0 <= i < scene.game.bombs.len(),
    ensures
        balanced(scene, rules::blown_up(scene, i, drops)),
{
    let game = scene.game;
    let after = rules::blown_up(scene, i, drops);
    let bomb = game.bombs[i];
    let cells = entities::blast(bomb.pos, bomb.power as nat, game.map);
    let deaths = rules::count(game.players, rules::caught_in(cells));
    let kills = rules::count(game.enemies, rules::struck_in(cells));
    let hurt = rules::scorched(game.players, cells);
    lemma_fallen(game.players, cells);
    lemma_killed(game.enemies, cells);
    let owner = bomb.owner as int;
    assert(game.bombs[i].owner < game.players.len());
    assert(hurt[owner].score == game.players[owner].score);
    assert(game.players[owner].score + rules::count(game.enemies, rules::living())
        * rules::SCORE_PER_ENEMY <= u32::MAX);
    let paid = after.game.players[owner];
    assert(paid.score == hurt[owner].score + 200 * kills);
    lemma_replaced(hurt, owner, paid);
    assert(after.game.players =~= hurt.update(owner, paid));
    let mourned = scene.heard + rules::repeated(SoundEffect::Death, deaths);
    let bang = AudioCommand::PlaySe(SoundEffect::Explosion);
    assert(after.heard == mourned.push(bang));
    lemma_plays_repeated(scene.heard, SoundEffect::Death, deaths, SoundEffect::Death);
    lemma_plays_repeated(scene.heard, SoundEffect::Death, deaths, SoundEffect::Explosion);
    lemma_plays_repeated(scene.heard, SoundEffect::Death, deaths, SoundEffect::ItemGet);
    lemma_plays_repeated(scene.heard, SoundEffect::Death, deaths, SoundEffect::PlaceBomb);
    lemma_plays_push(mourned, bang, SoundEffect::Death);
    lemma_plays_push(mourned, bang, SoundEffect::Explosion);
    lemma_plays_push(mourned, bang, SoundEffect::ItemGet);
    lemma_plays_push(mourned, bang, SoundEffect::PlaceBomb);
    assert(in_order(after.game)) by {
        assert forall|k: int| 0 <= k < after.game.players.len() && (
        #[trigger] after.game.players[k]).alive implies after.game.players[k].lives > 0 by {
            assert(game.players[k].alive ==> game.players[k].lives > 0);
        }
        assert forall|j: int| 0 <= j < after.game.bombs.len() implies (
        #[trigger] after.game.bombs[j]).owner < after.game.players.len() by {
            let k = if j < i {
                j
            } else {
                j + 1
            };
            assert(after.game.bombs[j].owner == game.bombs[k].owner);
        }
    }
}

/// The books balance over all the blasts of a tick.
proof fn lemma_blasts_balanced(scene: Scene, drops: spec_fn(Coord) -> Option<ItemKind>)
    requires
        scene.game.wf(),
        in_order(scene.game),
        rules::solvent(scene.game),
    ensures
        balanced(scene, rules::detonated(scene, drops)),
        rules::detonated(scene, drops).game.wf(),
        rules::solvent(rules::detonated(scene, drops).game),
    decreases scene.game.bombs.len(),
{
    if exists|i: int| rules::first_due(scene.game.bombs, i) {
        let i = choose|i: int| rules::first_due(scene.game.bombs, i);
        let next = rules::blown_up(scene, i, drops);
        lemma_blast_balanced(scene, i, drops);
        rules::lemma_blown_up(scene, i, drops);
        lemma_blasts_balanced(next, drops);
        lemma_balanced_on(scene, next, rules::detonated(scene, drops));
    }
}

/// The books balance over the meetings of one player with enemies.
proof fn lemma_meeting_balanced(scene: Scene, idx: int)
    requires
        in_order(scene.game),
        rules::solvent(scene.game),
        0 <= idx < scene.game.players.len(),
    ensures
        balanced(scene, rules::met(scene, idx)),
{
    let game = scene.game;
    let after = rules::met(scene, idx);
    let here = seq![game.players[idx].pos];
    lemma_killed(game.enemies, here);
    lemma_replaced(game.players, idx, after.game.players[idx]);
    assert(game.players[idx].score + rules::count(game.enemies, rules::living())
        * rules::SCORE_PER_ENEMY <= u32::MAX);
    assert(game.players[idx].alive ==> game.players[idx].lives > 0);
    assert(after.game.players =~= game.players.update(idx, after.game.players[idx]));
    let death = AudioCommand::PlaySe(SoundEffect::Death);
    lemma_plays_push(scene.heard, death, SoundEffect::Death);
    lemma_plays_push(scene.heard, death, SoundEffect::Explosion);
    lemma_plays_push(scene.heard, death, SoundEffect::ItemGet);
    lemma_plays_push(scene.heard, death, SoundEffect::PlaceBomb);
    assert(in_order(after.game)) by {
        assert forall|k: int| 0 <= k < after.game.players.len() && (
        #[trigger] after.game.players[k]).alive implies after.game.players[k].lives > 0 by {
            assert(game.players[k].alive ==> game.players[k].lives > 0);
        }
        assert forall|j: int| 0 <= j < after.game.bombs.len() implies (
        #[trigger] after.game.bombs[j]).owner < after.game.players.len() by {
            assert(after.game.bombs[j] == game.bombs[j]);
        }
    }
}

/// The books balance over the meetings of the first players with enemies.
proof fn lemma_meetings_balanced(scene: Scene, upto: nat)
    requires
        scene.game.wf(),
        in_order(scene.game),
        rules::solvent(scene.game),
        upto <= scene.game.players.len(),
    ensures
        balanced(scene, rules::all_met(scene, upto)),
        rules::all_met(scene, upto).game.wf(),
        rules::solvent(rules::all_met(scene, upto).game),
    decreases upto,
{
    if upto > 0 {
        let before = rules::all_met(scene, (upto - 1) as nat);
        lemma_meetings_balanced(scene, (upto - 1) as nat);
        lemma_meeting_balanced(before, upto - 1);
        rules::lemma_met(before, upto - 1);
        lemma_balanced_on(scene, before, rules::all_met(scene, upto));
    }
}

/// The books balance over the end of a round: coming back to life costs nothing
/// more, and the music is no matter.
proof fn lemma_end_balanced(scene: Scene)
    requires
        in_order(scene.game),
    ensures
        balanced(scene, rules::resolved(scene)),
{
    let after = rules::resolved(scene);
    lemma_same_players(scene.game.players, after.game.players);
    let stop = AudioCommand::StopBgm;
    let clear = AudioCommand::PlaySe(SoundEffect::StageClear);
    let stopped = scene.heard.push(stop);
    let cleared = stopped.push(clear);
    let merry = AudioCommand::PlayBgm(crate::types::Bgm::Clear);
    let sad = AudioCommand::PlayBgm(crate::types::Bgm::GameOver);
    assert(after.heard == scene.heard || after.heard == cleared.push(merry) || after.heard
        == stopped.push(sad));
    assert forall|se: SoundEffect| !(se is StageClear) implies #[trigger] plays(after.heard, se)
        == plays(scene.heard, se) by {
        lemma_plays_push(scene.heard, stop, se);
        lemma_plays_push(stopped, clear, se);
        lemma_plays_push(stopped, sad, se);
        lemma_plays_push(cleared, merry, se);
    }
    assert(in_order(after.game)) by {
        assert forall|k: int| 0 <= k < after.game.players.len() && (
        #[trigger] after.game.players[k]).alive implies after.game.players[k].lives > 0 by {
            assert(scene.game.players[k].alive ==> scene.game.players[k].lives > 0);
        }
    }
}

/// The books balance over every tick of play. The players together earn fifty
/// points for each item that is heard to be taken and two hundred for each enemy
/// that dies; each death that is heard costs one life; there are as many bombs more
/// as are heard to be placed, less those heard to go off.
pub proof fn lemma_books_balance(before: Scene, dt: Nanos, actions: Seq<Action>, after: Scene)
    requires
        ticks::in_play(before, dt, actions, after),
        in_order(before.game),
    ensures
        balanced(before, after),
{
    let luck = ticks::lemma_drawn(before, dt, actions, after);
    let n = before.game.players.len();
    let worn = rules::shields_passed(before, dt);
    rules::lemma_shields_passed(before, dt);
    lemma_same_players(before.game.players, worn.game.players);
    assert(balanced(before, worn)) by {
        assert forall|k: int| 0 <= k < n && (#[trigger] worn.game.players[k]).alive implies worn.game.players[k].lives
            > 0 by {
            assert(before.game.players[k].alive ==> before.game.players[k].lives > 0);
        }
    }
    let moved = rules::all_acted(worn, dt, actions, n);
    lemma_input_balanced(worn, dt, actions, n);
    lemma_balanced_on(before, worn, moved);
    rules::lemma_all_acted(worn, dt, actions, n);
    rules::lemma_all_acted_score(worn, dt, actions, n);
    let burnt = rules::fuses_passed(moved, dt);
    rules::lemma_fuses_passed(moved, dt);
    assert(balanced(moved, burnt)) by {
        assert forall|j: int| 0 <= j < burnt.game.bombs.len() implies (
        #[trigger] burnt.game.bombs[j]).owner < burnt.game.players.len() by {
            assert(burnt.game.bombs[j].owner == moved.game.bombs[j].owner);
        }
    }
    lemma_balanced_on(before, moved, burnt);
    assert(rules::solvent(burnt.game)) by {
        assert forall|i: int| 0 <= i < burnt.game.players.len() implies (
        #[trigger] burnt.game.players[i]).score + rules::count(burnt.game.enemies, rules::living())
            * rules::SCORE_PER_ENEMY <= u32::MAX by {
            assert(moved.game.players[i].score <= worn.game.players[i].score
                + rules::SCORE_PER_ITEM);
            assert(rules::player_has_headroom(
                worn.game.players[i],
                rules::count(worn.game.enemies, rules::living()),
            ));
        }
    }
    let blown = rules::detonated(burnt, luck.drops);
    lemma_blasts_balanced(burnt, luck.drops);
    lemma_balanced_on(before, burnt, blown);
    let turned = Scene { game: rules::enemies_passed(blown.game, dt, luck.turns), ..blown };
    rules::lemma_enemies_passed(blown.game, dt, luck.turns);
    lemma_same_enemies(blown.game.enemies, turned.game.enemies);
    assert(balanced(blown, turned));
    lemma_balanced_on(before, blown, turned);
    let met = rules::all_met(turned, n);
    lemma_meetings_balanced(turned, n);
    lemma_balanced_on(before, turned, met);
    lemma_end_balanced(met);
    lemma_balanced_on(before, met, after);
}

/// A lone player's score tells the items and enemies: it grows by fifty for each
/// item taken and by two hundred for each enemy killed, and by nothing else.
pub proof fn lemma_the_score_of_one(before: Scene, dt: Nanos, actions: Seq<Action>, after: Scene)
    requires
        ticks::in_play(before, dt, actions, after),
        in_order(before.game),
        before.game.players.len() == 1,
    ensures
        after.game.players.len() == 1,
        after.game.players[0].score - before.game.players[0].score == 50 * (plays(
            after.heard,
            SoundEffect::ItemGet,
        ) - plays(before.heard, SoundEffect::ItemGet)) + 200 * (enemies_alive(before.game.enemies)
            - enemies_alive(after.game.enemies)),
        before.game.players[0].lives - after.game.players[0].lives == plays(
            after.heard,
            SoundEffect::Death,
        ) - plays(before.heard, SoundEffect::Death),
{
    lemma_books_balance(before, dt, actions, after);
    reveal_with_fuel(points, 2);
    reveal_with_fuel(lives, 2);
    assert(before.game.players.drop_last().len() == 0);
    assert(after.game.players.drop_last().len() == 0);
}

/// A game has room for one more tick exactly when no counter can run over in it:
/// every player can still take an item of any kind and kill every enemy there is.
pub proof fn lemma_headroom(game: GameView)
    ensures
        game.has_headroom() <==> forall|i: int|
            0 <= i < game.players.len() ==> roomy(
                #[trigger] game.players[i],
                enemies_alive(game.enemies),
            ),
{
    lemma_killed(game.enemies, seq![]);
    let alive = rules::count(game.enemies, rules::living());
    assert forall|player: Player| #[trigger] roomy(player, enemies_alive(game.enemies))
        == rules::player_has_headroom(player, alive) by {}
    if game.has_headroom() {
        assert forall|i: int| 0 <= i < game.players.len() implies roomy(
            #[trigger] game.players[i],
            enemies_alive(game.enemies),
        ) by {
            assert(rules::player_has_headroom(game.players[i], alive));
        }
    }
    if forall|i: int|
        0 <= i < game.players.len() ==> roomy(
            #[trigger] game.players[i],
            enemies_alive(game.enemies),
        ) {
        assert forall|i: int| 0 <= i < game.players.len() implies rules::player_has_headroom(
            #[trigger] game.players[i],
            alive,
        ) by {
            assert(roomy(game.players[i], enemies_alive(game.enemies)));
        }
    }
}

/// Whether a player can take one more item and kill that many enemies.
pub open spec fn roomy(player: Player, enemies: int) -> bool {
    &&& player.power + 1 <= u32::MAX
    &&& player.bomb_capacity + 1 <= u32::MAX
    &&& player.speed + 400 <= u32::MAX
    &&& player.score + 50 + 200 * enemies <= u32::MAX
}

// ---------------------------------------------------------------------------
// Who earns what

/// Whether none of the bombs is that player's.
pub open spec fn without_bombs(game: GameView, i: int) -> bool {
    forall|j: int| 0 <= j < game.bombs.len() ==> (#[trigger] game.bombs[j]).owner != i
}

/// Blasts of other players' bombs earn nothing.
proof fn lemma_others_blasts(scene: Scene, drops: spec_fn(Coord) -> Option<ItemKind>, i: int)
    requires
        without_bombs(scene.game, i),
        0 <= i < scene.game.players.len(),
    ensures
        rules::detonated(scene, drops).game.players.len() == scene.game.players.len(),
        rules::detonated(scene, drops).game.players[i].score == scene.game.players[i].score,
        rules::detonated(scene, drops).game.players[i].god_mode == scene.game.players[i].god_mode,
        rules::detonated(scene, drops).game.players[i].invincible_remaining
            == scene.game.players[i].invincible_remaining,
    decreases scene.game.bombs.len(),
{
    if exists|k: int| rules::first_due(scene.game.bombs, k) {
        let k = choose|k: int| rules::first_due(scene.game.bombs, k);
        let next = rules::blown_up(scene, k, drops);
        assert(scene.game.bombs[k].owner != i);
        assert forall|j: int| 0 <= j < next.game.bombs.len() implies (
        #[trigger] next.game.bombs[j]).owner != i by {
            let from = if j < k {
                j
            } else {
                j + 1
            };
            assert(next.game.bombs[j].owner == scene.game.bombs[from].owner);
        }
        lemma_others_blasts(next, drops, i);
    }
}

/// Without protection, meeting enemies earns nothing.
proof fn lemma_unarmed_meetings(scene: Scene, upto: nat, i: int)
    requires
        upto <= scene.game.players.len(),
        0 <= i < scene.game.players.len(),
        !scene.game.players[i].god_mode,
        scene.game.players[i].invincible_remaining <= 0,
    ensures
        rules::all_met(scene, upto).game.players.len() == scene.game.players.len(),
        rules::all_met(scene, upto).game.players[i].score == scene.game.players[i].score,
        !rules::all_met(scene, upto).game.players[i].god_mode,
        rules::all_met(scene, upto).game.players[i].invincible_remaining <= 0,
    decreases upto,
{
    if upto > 0 {
        lemma_unarmed_meetings(scene, (upto - 1) as nat, i);
    }
}

/// The end of a round earns nothing.
proof fn lemma_ends_earn_nothing(scene: Scene, i: int)
    requires
        0 <= i < scene.game.players.len(),
    ensures
        rules::resolved(scene).game.players.len() == scene.game.players.len(),
        rules::resolved(scene).game.players[i].score == scene.game.players[i].score,
{
}

/// Input earns at most one item, and who places no bomb has none more.
proof fn lemma_idle_hands(scene: Scene, dt: Nanos, actions: Seq<Action>, upto: nat, i: int)
    requires
        scene.game.wf(),
        scene.game.has_headroom(),
        scene.game.players.len() <= usize::MAX,
        upto <= scene.game.players.len(),
        0 <= i < scene.game.players.len(),
        without_bombs(scene.game, i),
        !(rules::action_of(actions, i) is PlaceBomb),
    ensures
        without_bombs(rules::all_acted(scene, dt, actions, upto).game, i),
        ({
            let after = rules::all_acted(scene, dt, actions, upto).game.players[i];
            let before = scene.game.players[i];
            &&& !(rules::action_of(actions, i) is Move) ==> after.score == before.score
                && after.invincible_remaining == before.invincible_remaining
            &&& after.score == before.score || after.score == before.score + 50
            &&& !(rules::action_of(actions, i) is ToggleGodMode) ==> after.god_mode
                == before.god_mode
        }),
    decreases upto,
{
    if upto > 0 {
        let before = rules::all_acted(scene, dt, actions, (upto - 1) as nat);
        let after = rules::all_acted(scene, dt, actions, upto);
        lemma_idle_hands(scene, dt, actions, (upto - 1) as nat, i);
        rules::lemma_all_acted(scene, dt, actions, (upto - 1) as nat);
        rules::lemma_acted(before, upto - 1, dt, rules::action_of(actions, upto - 1));
        assert(before.game.players[upto - 1] == scene.game.players[upto - 1]);
        assert(rules::player_has_headroom(
            scene.game.players[upto - 1],
            rules::count(scene.game.enemies, rules::living()),
        ));
        assert forall|j: int| 0 <= j < after.game.bombs.len() implies (
        #[trigger] after.game.bombs[j]).owner != i by {
            if j < before.game.bombs.len() {
                assert(after.game.bombs[j] == before.game.bombs[j]);
            }
        }
    }
}

/// Points come from one's own bombs, from items, and from enemies met under
/// protection: a player who has no bomb on the board, does nothing and is not
/// protected earns nothing, whatever others do.
pub proof fn lemma_nothing_for_nothing(
    before: Scene,
    dt: Nanos,
    actions: Seq<Action>,
    after: Scene,
    i: int,
)
    requires
        ticks::in_play(before, dt, actions, after),
        0 <= i < before.game.players.len(),
        without_bombs(before.game, i),
        i >= actions.len() || actions[i] == Action::Idle,
        !before.game.players[i].god_mode,
        before.game.players[i].invincible_remaining <= 0,
    ensures
        after.game.players[i].score == before.game.players[i].score,
{
    let luck = ticks::lemma_drawn(before, dt, actions, after);
    let n = before.game.players.len();
    let worn = rules::shields_passed(before, dt);
    rules::lemma_shields_passed(before, dt);
    lemma_idle_hands(worn, dt, actions, n, i);
    let moved = rules::all_acted(worn, dt, actions, n);
    rules::lemma_all_acted(worn, dt, actions, n);
    let burnt = rules::fuses_passed(moved, dt);
    assert forall|j: int| 0 <= j < burnt.game.bombs.len() implies (
    #[trigger] burnt.game.bombs[j]).owner != i by {
        assert(burnt.game.bombs[j].owner == moved.game.bombs[j].owner);
    }
    lemma_others_blasts(burnt, luck.drops, i);
    let blown = rules::detonated(burnt, luck.drops);
    let turned = Scene { game: rules::enemies_passed(blown.game, dt, luck.turns), ..blown };
    lemma_unarmed_meetings(turned, n, i);
    lemma_ends_earn_nothing(rules::all_met(turned, n), i);
}

// ---------------------------------------------------------------------------
// What goes off first

/// Of the bombs that are due the first in the list goes off first: its blast comes
/// first, starts in its cell and lasts half a second.
pub proof fn lemma_the_first_goes_first(
    scene: Scene,
    drops: spec_fn(Coord) -> Option<ItemKind>,
    i: int,
)
    requires
        0 <= i < scene.game.bombs.len(),
        scene.game.bombs[i].timer <= 0,
        forall|j: int| 0 <= j < i ==> (#[trigger] scene.game.bombs[j]).timer > 0,
    ensures
        ({
            let after = rules::detonated(scene, drops).game.explosions;
            let n = scene.game.explosions.len() as int;
            &&& after.len() > n
            &&& after[n].cells.len() > 0
            &&& after[n].cells[0] == scene.game.bombs[i].pos
            &&& after[n].remaining == 500_000_000
        }),
{
    assert(rules::first_due(scene.game.bombs, i));
    rules::lemma_detonated_step(scene, i, drops);
    let next = rules::blown_up(scene, i, drops);
    let bomb = scene.game.bombs[i];
    let cells = entities::blast(bomb.pos, bomb.power as nat, scene.game.map);
    assert(cells[0] == bomb.pos);
    lemma_blasts_stay(next, drops);
}

/// Blasts that have begun stay where they are while more bombs go off.
proof fn lemma_blasts_stay(scene: Scene, drops: spec_fn(Coord) -> Option<ItemKind>)
    ensures
        rules::detonated(scene, drops).game.explosions.len() >= scene.game.explosions.len(),
        forall|k: int|
            0 <= k < scene.game.explosions.len() ==> #[trigger] rules::detonated(
                scene,
                drops,
            ).game.explosions[k] == scene.game.explosions[k],
    decreases scene.game.bombs.len(),
{
    if exists|k: int| rules::first_due(scene.game.bombs, k) {
        let k = choose|k: int| rules::first_due(scene.game.bombs, k);
        let next = rules::blown_up(scene, k, drops);
        lemma_blasts_stay(next, drops);
        assert forall|j: int| 0 <= j < scene.game.explosions.len() implies #[trigger] rules::detonated(
            scene,
            drops,
        ).game.explosions[j] == scene.game.explosions[j] by {
            assert(next.game.explosions[j] == scene.game.explosions[j]);
            assert(rules::detonated(next, drops).game.explosions[j] == next.game.explosions[j]);
        }
    }
}

/// A blast is heard after the deaths that it causes, and nothing else is heard of
/// it.
pub proof fn lemma_what_a_blast_sounds_like(
    scene: Scene,
    i: int,
    drops: spec_fn(Coord) -> Option<ItemKind>,
    k: int,
)
    requires
        0 <= i < scene.game.bombs.len(),
    ensures
        ({
            let heard = rules::blown_up(scene, i, drops).heard;
            let n = scene.heard.len() as int;
            &&& heard.len() > n
            &&& heard.last() == AudioCommand::PlaySe(SoundEffect::Explosion)
            &&& heard.take(n) == scene.heard
            &&& n <= k < heard.len() - 1 ==> heard[k] == AudioCommand::PlaySe(SoundEffect::Death)
        }),
{
    let heard = rules::blown_up(scene, i, drops).heard;
    assert(heard.take(scene.heard.len() as int) =~= scene.heard);
}

} // verus!
