//! What one tick of play does to each part of a game.
//!
//! The laws here compare the state before a tick with the state after it, field
//! by field, whatever the players do and however chance comes out.

use vstd::prelude::*;

use crate::audio::AudioCommand;
use crate::game::entities;
use crate::game::entities::{Bomb, Enemy, ExplosionView, Player};
use crate::game::geometry;
use crate::game::laws;
use crate::game::map::MapView;
use crate::game::rules;
use crate::game::rules::{GameView, Luck, Scene};
use crate::types::{Action, Bgm, Coord, Direction, ItemKind, Nanos, Screen, SoundEffect, Tile};

verus! {

/// Whether a tick of play, in which no counter runs over, leads from one scene to
/// the other.
pub open spec fn in_play(before: Scene, dt: Nanos, actions: Seq<Action>, after: Scene) -> bool {
    &&& before.game.wf()
    &&& before.game.has_headroom()
    &&& before.game.players.len() <= usize::MAX
    &&& before.game.screen is Playing
    &&& dt >= 0
    &&& rules::ticked(before, dt, actions, after)
}

/// An outcome of chance that led from one scene to the other.
pub proof fn lemma_drawn(before: Scene, dt: Nanos, actions: Seq<Action>, after: Scene) -> (luck: Luck)
    requires
        in_play(before, dt, actions, after),
    ensures
        rules::fair(before, dt, actions, luck),
        after == rules::played(before, dt, actions, luck),
{
    choose|luck: Luck| #[trigger]
        rules::fair(before, dt, actions, luck) && after == rules::played(
            before,
            dt,
            actions,
            luck,
        )
}

/// What a player asks for; nothing, where there is no action for the player.
pub open spec fn asked(actions: Seq<Action>, i: int) -> Action {
    if 0 <= i < actions.len() {
        actions[i]
    } else {
        Action::Idle
    }
}

/// Whether `to` is the next cell from `from` in that direction.
pub open spec fn next_cell(from: Coord, dir: Direction, to: Coord) -> bool {
    match dir {
        Direction::Up => to.0 == from.0 - 1 && to.1 == from.1,
        Direction::Down => to.0 == from.0 + 1 && to.1 == from.1,
        Direction::Left => to.0 == from.0 && to.1 == from.1 - 1,
        Direction::Right => to.0 == from.0 && to.1 == from.1 + 1,
    }
}

/// Whether a cell is on the board and holds neither wall nor block.
pub open spec fn on_foot(map: MapView, pos: Coord) -> bool {
    &&& 0 <= pos.0 < map.height
    &&& 0 <= pos.1 < map.width
    &&& !(map.tiles[pos.0 as int][pos.1 as int] is Wall)
    &&& !(map.tiles[pos.0 as int][pos.1 as int] is Block)
}

/// Whether an item of that kind lies in a cell of the board.
pub open spec fn item_at(map: MapView, pos: Coord, kind: ItemKind) -> bool {
    &&& 0 <= pos.0 < map.height
    &&& 0 <= pos.1 < map.width
    &&& map.tiles[pos.0 as int][pos.1 as int] == Tile::ItemTile(kind)
}

/// Whether there is a bomb in a cell.
pub open spec fn bombed(bombs: Seq<Bomb>, pos: Coord) -> bool {
    exists|j: int| 0 <= j < bombs.len() && (#[trigger] bombs[j]).pos == pos
}

/// What is left of a time of invincibility after `dt`.
pub open spec fn shield_left(remaining: Nanos, dt: Nanos) -> int {
    if remaining > dt {
        remaining - dt
    } else if remaining > 0 {
        0
    } else {
        remaining as int
    }
}

/// What is left of a wait after `dt`, once it has been positive.
pub open spec fn wait_left(wait: Nanos, dt: Nanos) -> int {
    if wait > 0 {
        wait - dt
    } else {
        wait as int
    }
}

/// The time between two moves at that speed: 0.12 seconds at normal speed, half of
/// that at twice the speed, and 1.2 seconds at most.
pub open spec fn pace(speed: u32) -> int {
    if speed < 100 {
        1_200_000_000
    } else {
        120_000_000_000int / (speed as int)
    }
}

/// What taking an item of that kind makes of a player, points aside: one cell
/// more reach, one bomb more, four tenths more speed, or five seconds of
/// invincibility.
pub open spec fn improved(before: Player, after: Player, dt: Nanos, kind: ItemKind) -> bool {
    &&& after.power == before.power + (if kind is Power {
        1int
    } else {
        0
    })
    &&& after.bomb_capacity == before.bomb_capacity + (if kind is BombUp {
        1int
    } else {
        0
    })
    &&& after.speed == before.speed + (if kind is SpeedUp {
        400int
    } else {
        0
    })
    &&& after.invincible_remaining == (if kind is Invincible {
        5_000_000_000
    } else {
        shield_left(before.invincible_remaining, dt)
    })
}

/// Whether a player's equipment is what it was, but for the shield, which wears
/// off.
pub open spec fn as_equipped(before: Player, after: Player, dt: Nanos) -> bool {
    &&& after.power == before.power
    &&& after.bomb_capacity == before.bomb_capacity
    &&& after.speed == before.speed
    &&& after.invincible_remaining == shield_left(before.invincible_remaining, dt)
}

/// Whether the player stayed in place: nothing but time has passed.
pub open spec fn stayed(before: Player, after: Player, dt: Nanos) -> bool {
    &&& after.pos == before.pos
    &&& after.move_cooldown == wait_left(before.move_cooldown, dt)
    &&& as_equipped(before, after, dt)
    &&& after.score == before.score
}

/// Whether the player walked in that direction: to the next cell, which was free,
/// at the player's own pace, taking an item for fifty points if one was left there.
pub open spec fn strode(
    before: Player,
    after: Player,
    dt: Nanos,
    dir: Direction,
    map: MapView,
    bombs: Seq<Bomb>,
) -> bool {
    &&& before.alive
    &&& wait_left(before.move_cooldown, dt) <= 0
    &&& next_cell(before.pos, dir, after.pos)
    &&& on_foot(map, after.pos)
    &&& !bombed(bombs, after.pos)
    &&& after.move_cooldown == pace(before.speed)
    &&& {
        ||| as_equipped(before, after, dt) && after.score == before.score
        ||| exists|kind: ItemKind| #[trigger]
            item_at(map, after.pos, kind) && improved(before, after, dt, kind) && after.score
                == before.score + 50
    }
}

/// What a player's own input can make of the player.
pub open spec fn steered(
    before: Player,
    after: Player,
    dt: Nanos,
    action: Action,
    map: MapView,
    bombs: Seq<Bomb>,
) -> bool {
    &&& after.alive == before.alive
    &&& after.lives == before.lives
    &&& after.god_mode == (before.god_mode != (action is ToggleGodMode))
    &&& {
        ||| stayed(before, after, dt)
        ||| action matches Action::Move(dir) && strode(before, after, dt, dir, map, bombs)
    }
}

/// The number of bombs that belong to a player.
pub open spec fn own_bombs(bombs: Seq<Bomb>, owner: int) -> nat
    decreases bombs.len(),
{
    if bombs.len() == 0 {
        0
    } else {
        own_bombs(bombs.drop_last(), owner) + if bombs.last().owner == owner {
            1nat
        } else {
            0nat
        }
    }
}

/// Whether a bomb is one that the player has just placed: where the player stands
/// and there was none, with the player's own reach, with a fuse of three seconds,
/// and no more of them than the player may have out.
pub open spec fn just_placed(
    bomb: Bomb,
    player: Player,
    owner: int,
    action: Action,
    bombs: Seq<Bomb>,
) -> bool {
    &&& action is PlaceBomb
    &&& player.alive
    &&& !bombed(bombs, player.pos)
    &&& own_bombs(bombs, owner) <= u32::MAX ==> own_bombs(bombs, owner) < player.bomb_capacity
    &&& bomb.pos == player.pos
    &&& bomb.owner == owner
    &&& bomb.power == player.power
    &&& bomb.timer == 3_000_000_000
}

/// Whether the board is the same but for items that have been taken.
pub open spec fn picked_over(before: MapView, after: MapView) -> bool {
    &&& after.width == before.width
    &&& after.height == before.height
    &&& forall|pos: Coord|
        #![trigger after.tile(pos)]
        after.tile(pos) == before.tile(pos) || (before.tile(pos) is ItemTile && after.tile(
            pos,
        ) is Empty)
}

/// What the input of the first players has made of a game.
pub open spec fn directed(before: GameView, after: GameView, dt: Nanos, actions: Seq<Action>, upto: nat) -> bool {
    &&& after.players.len() == before.players.len()
    &&& after.enemies == before.enemies
    &&& after.explosions == before.explosions
    &&& after.spawn_points == before.spawn_points
    &&& after.enemy_move_cooldown == before.enemy_move_cooldown
    &&& after.screen == before.screen
    &&& picked_over(before.map, after.map)
    &&& after.bombs.len() >= before.bombs.len()
    &&& forall|j: int| 0 <= j < before.bombs.len() ==> #[trigger] after.bombs[j] == before.bombs[j]
    &&& forall|j: int|
        before.bombs.len() <= j < after.bombs.len() ==> placed_by_one(
            before.players,
            actions,
            upto,
            before.bombs,
            #[trigger] after.bombs[j],
        )
    &&& forall|pos: Coord|
        #![trigger after.map.tile(pos)]
        after.map.tile(pos) != before.map.tile(pos) ==> entered_by_one(
            before.players,
            actions,
            upto,
            pos,
        )
}

/// Whether one of the first players asks to walk into a cell.
pub open spec fn entered_by_one(
    players: Seq<Player>,
    actions: Seq<Action>,
    upto: nat,
    pos: Coord,
) -> bool {
    exists|i: int|
        0 <= i < upto && 0 <= i < players.len() && #[trigger] heads_for(
            players[i],
            asked(actions, i),
            pos,
        )
}

/// Whether a player asks to walk into a cell.
pub open spec fn heads_for(player: Player, action: Action, pos: Coord) -> bool {
    action matches Action::Move(dir) && next_cell(player.pos, dir, pos)
}

/// Whether one of the first players has just placed the bomb.
pub open spec fn placed_by_one(
    players: Seq<Player>,
    actions: Seq<Action>,
    upto: nat,
    bombs: Seq<Bomb>,
    bomb: Bomb,
) -> bool {
    exists|i: int|
        0 <= i < upto && 0 <= i < players.len() && #[trigger] just_placed(
            bomb,
            players[i],
            i,
            asked(actions, i),
            bombs,
        )
}

/// Bombs of others do not count as a player's own.
proof fn lemma_own_bombs(before: Seq<Bomb>, now: Seq<Bomb>, owner: int)
    requires
        before.len() <= now.len(),
        forall|j: int| 0 <= j < before.len() ==> #[trigger] now[j] == before[j],
        forall|j: int| before.len() <= j < now.len() ==> (#[trigger] now[j]).owner != owner,
    ensures
        rules::count(now, rules::owned_by(owner)) == own_bombs(before, owner),
    decreases now.len(),
{
    if now.len() > before.len() {
        assert forall|j: int| 0 <= j < before.len() implies #[trigger] now.drop_last()[j]
            == before[j] by {
            assert(now[j] == before[j]);
        }
        assert forall|j: int| before.len() <= j < now.len() - 1 implies (
        #[trigger] now.drop_last()[j]).owner != owner by {
            assert(now[j].owner != owner);
        }
        lemma_own_bombs(before, now.drop_last(), owner);
        assert(now[now.len() - 1].owner != owner);
    } else if now.len() > 0 {
        assert forall|j: int| 0 <= j < before.len() - 1 implies #[trigger] now.drop_last()[j]
            == before.drop_last()[j] by {
            assert(now[j] == before[j]);
        }
        lemma_own_bombs(before.drop_last(), now.drop_last(), owner);
        assert(now[now.len() - 1] == before[now.len() - 1]);
    }
}

/// What the wearing off of shields makes of a player.
proof fn lemma_shield(player: Player, dt: Nanos)
    requires
        dt >= 0,
    ensures
        ({
            let worn = rules::less_shielded(player, dt);
            &&& worn == (Player { invincible_remaining: worn.invincible_remaining, ..player })
            &&& worn.invincible_remaining == shield_left(player.invincible_remaining, dt)
        }),
{
}

/// A player's own bombs when the player's turn comes are those that were there
/// before the tick.
proof fn lemma_own_bombs_so_far(
    start: Scene,
    scene: Scene,
    idx: int,
    dt: Nanos,
    actions: Seq<Action>,
)
    requires
        directed(start.game, scene.game, dt, actions, idx as nat),
        idx >= 0,
    ensures
        rules::count(scene.game.bombs, rules::owned_by(idx)) == own_bombs(start.game.bombs, idx),
{
    assert forall|j: int| start.game.bombs.len() <= j < scene.game.bombs.len() implies (
    #[trigger] scene.game.bombs[j]).owner != idx by {
        assert(placed_by_one(
            start.game.players,
            actions,
            idx as nat,
            start.game.bombs,
            scene.game.bombs[j],
        ));
    }
    lemma_own_bombs(start.game.bombs, scene.game.bombs, idx);
}

/// What the input of one player does, on a board that others may have picked
/// over, among bombs to which others may have added.
proof fn lemma_one_directed(
    start: Scene,
    scene: Scene,
    idx: int,
    dt: Nanos,
    actions: Seq<Action>,
)
    requires
        start.game.wf(),
        scene.game.wf(),
        dt >= 0,
        0 <= idx < scene.game.players.len() <= usize::MAX,
        scene.game.players[idx] == rules::less_shielded(start.game.players[idx], dt),
        rules::player_has_headroom(start.game.players[idx], 0),
        directed(start.game, scene.game, dt, actions, idx as nat),
    ensures
        ({
            let after = rules::acted(scene, idx, dt, rules::action_of(actions, idx)).game;
            &&& directed(start.game, after, dt, actions, (idx + 1) as nat)
            &&& steered(
                start.game.players[idx],
                after.players[idx],
                dt,
                asked(actions, idx),
                start.game.map,
                start.game.bombs,
            )
        }),
{
    let action = rules::action_of(actions, idx);
    let first = start.game.players[idx];
    let worn = scene.game.players[idx];
    let after = rules::acted(scene, idx, dt, action).game;
    lemma_shield(first, dt);
    rules::lemma_acted(scene, idx, dt, action);
    assert(geometry::in_range(worn.pos));
    assert(action == asked(actions, idx));
    let rest = rules::rested(worn, dt);
    assert(rest.move_cooldown == wait_left(first.move_cooldown, dt));
    assert(picked_over(start.game.map, after.map)) by {
        assert forall|pos: Coord|
            #![trigger after.map.tile(pos)]
            after.map.tile(pos) == start.game.map.tile(pos) || (start.game.map.tile(
                pos,
            ) is ItemTile && after.map.tile(pos) is Empty) by {
            let was = scene.game.map.tile(pos);
            assert(was == start.game.map.tile(pos) || (start.game.map.tile(pos) is ItemTile
                && was is Empty));
            if after.map != scene.game.map {
                let here = after.players[idx].pos;
                if pos != here {
                    laws::lemma_with_tile_elsewhere(scene.game.map, here, Tile::Empty, pos);
                } else {
                    laws::lemma_item_taken_once(scene.game.map, here);
                }
            }
        }
    }
    assert forall|j: int| start.game.bombs.len() <= j < after.bombs.len() implies placed_by_one(
        start.game.players,
        actions,
        (idx + 1) as nat,
        start.game.bombs,
        #[trigger] after.bombs[j],
    ) by {
        if j < scene.game.bombs.len() {
            assert(after.bombs[j] == scene.game.bombs[j]);
            assert(placed_by_one(
                start.game.players,
                actions,
                idx as nat,
                start.game.bombs,
                scene.game.bombs[j],
            ));
            let i = choose|i: int|
                0 <= i < idx && 0 <= i < start.game.players.len() && #[trigger] just_placed(
                    scene.game.bombs[j],
                    start.game.players[i],
                    i,
                    asked(actions, i),
                    start.game.bombs,
                );
            assert(just_placed(
                after.bombs[j],
                start.game.players[i],
                i,
                asked(actions, i),
                start.game.bombs,
            ));
        } else {
            lemma_own_bombs_so_far(start, scene, idx, dt, actions);
            if bombed(start.game.bombs, first.pos) {
                let k = choose|k: int|
                    0 <= k < start.game.bombs.len() && (#[trigger] start.game.bombs[k]).pos
                        == first.pos;
                assert(scene.game.bombs[k].pos == first.pos);
            }
            assert(just_placed(
                after.bombs[j],
                first,
                idx,
                asked(actions, idx),
                start.game.bombs,
            ));
        }
    }
    assert forall|pos: Coord|
        #![trigger after.map.tile(pos)]
        after.map.tile(pos) != start.game.map.tile(pos) implies entered_by_one(
        start.game.players,
        actions,
        (idx + 1) as nat,
        pos,
    ) by {
        if scene.game.map.tile(pos) != start.game.map.tile(pos) {
            let i = choose|i: int|
                0 <= i < idx && 0 <= i < start.game.players.len() && #[trigger] heads_for(
                    start.game.players[i],
                    asked(actions, i),
                    pos,
                );
            assert(heads_for(start.game.players[i], asked(actions, i), pos));
        } else {
            let here = after.players[idx].pos;
            if pos != here {
                laws::lemma_with_tile_elsewhere(scene.game.map, here, Tile::Empty, pos);
            }
            assert(heads_for(first, asked(actions, idx), pos));
        }
    }
    if let Action::Move(dir) = action {
        let target = geometry::stepped(worn.pos, dir);
        if rest.alive && rest.move_cooldown <= 0 && scene.game.map.walkable(target)
            && !rules::bomb_on(scene.game.bombs, target) {
            lemma_pace(first.speed);
            assert(start.game.map.tile(target) is Empty || start.game.map.tile(target) is ItemTile);
            if bombed(start.game.bombs, target) {
                let j = choose|j: int|
                    0 <= j < start.game.bombs.len() && (#[trigger] start.game.bombs[j]).pos
                        == target;
                assert(scene.game.bombs[j].pos == target);
            }
            if let Tile::ItemTile(kind) = scene.game.map.tile(target) {
                assert(item_at(start.game.map, target, kind));
            }
            assert(strode(
                first,
                after.players[idx],
                dt,
                dir,
                start.game.map,
                start.game.bombs,
            ));
        } else {
            assert(stayed(first, after.players[idx], dt));
        }
    } else {
        assert(stayed(first, after.players[idx], dt));
    }
}

/// The time between two moves.
proof fn lemma_pace(speed: u32)
    ensures
        rules::move_interval(speed) == pace(speed),
        0 <= pace(speed) <= 1_200_000_000,
{
    let thousandths: int = if speed < 100 {
        100
    } else {
        speed as int
    };
    assert(rules::move_interval(speed) == (120_000_000_000int / thousandths) as i64);
    if speed >= 100 {
        assert(0 <= 120_000_000_000int / (speed as int) <= 1_200_000_000) by (nonlinear_arith)
            requires
                speed >= 100,
        ;
    }
}

/// What the input of the first players does.
proof fn lemma_directed(start: Scene, dt: Nanos, actions: Seq<Action>, upto: nat)
    requires
        start.game.wf(),
        start.game.has_headroom(),
        dt >= 0,
        upto <= start.game.players.len() <= usize::MAX,
    ensures
        ({
            let worn = rules::shields_passed(start, dt);
            let after = rules::all_acted(worn, dt, actions, upto).game;
            &&& after.wf()
            &&& directed(start.game, after, dt, actions, upto)
            &&& forall|i: int|
                0 <= i < upto ==> steered(
                    start.game.players[i],
                    #[trigger] after.players[i],
                    dt,
                    asked(actions, i),
                    start.game.map,
                    start.game.bombs,
                )
            &&& forall|i: int|
                upto <= i < after.players.len() ==> #[trigger] after.players[i]
                    == rules::less_shielded(start.game.players[i], dt)
        }),
    decreases upto,
{
    let worn = rules::shields_passed(start, dt);
    rules::lemma_shields_passed(start, dt);
    rules::lemma_all_acted(worn, dt, actions, upto);
    if upto > 0 {
        let idx = upto - 1;
        let scene = rules::all_acted(worn, dt, actions, idx as nat);
        lemma_directed(start, dt, actions, idx as nat);
        assert(scene.game.players[idx] == rules::less_shielded(start.game.players[idx], dt));
        assert(rules::player_has_headroom(
            start.game.players[idx],
            rules::count(start.game.enemies, rules::living()),
        ));
        lemma_one_directed(start, scene, idx, dt, actions);
        rules::lemma_acted(scene, idx, dt, rules::action_of(actions, idx));
        let after = rules::acted(scene, idx, dt, rules::action_of(actions, idx)).game;
        assert forall|i: int| 0 <= i < upto implies steered(
            start.game.players[i],
            #[trigger] after.players[i],
            dt,
            asked(actions, i),
            start.game.map,
            start.game.bombs,
        ) by {
            if i < idx {
                assert(after.players[i] == scene.game.players[i]);
            }
        }
    }
}

/// What later players do leaves earlier ones alone, adds bombs and takes items, and
/// nothing else.
proof fn lemma_later_input(worn: Scene, dt: Nanos, actions: Seq<Action>, early: nat, upto: nat)
    requires
        worn.game.wf(),
        early <= upto <= worn.game.players.len(),
    ensures
        ({
            let one = rules::all_acted(worn, dt, actions, early).game;
            let other = rules::all_acted(worn, dt, actions, upto).game;
            &&& forall|i: int| 0 <= i < early ==> #[trigger] other.players[i] == one.players[i]
            &&& other.bombs.len() >= one.bombs.len()
            &&& forall|j: int| 0 <= j < one.bombs.len() ==> #[trigger] other.bombs[j] == one.bombs[j]
            &&& forall|pos: Coord|
                #![trigger other.map.tile(pos)]
                one.map.tile(pos) is Empty ==> other.map.tile(pos) is Empty
        }),
    decreases upto - early,
{
    if upto > early {
        let idx = upto - 1;
        lemma_later_input(worn, dt, actions, early, idx as nat);
        rules::lemma_all_acted(worn, dt, actions, idx as nat);
        let scene = rules::all_acted(worn, dt, actions, idx as nat);
        let action = rules::action_of(actions, idx);
        rules::lemma_acted(scene, idx, dt, action);
        let one = rules::all_acted(worn, dt, actions, early).game;
        let other = rules::acted(scene, idx, dt, action).game;
        rules::lemma_all_acted(worn, dt, actions, early);
        assert forall|i: int| 0 <= i < early implies #[trigger] other.players[i] == one.players[i] by {
            assert(other.players[i] == scene.game.players[i]);
        }
        assert forall|j: int| 0 <= j < one.bombs.len() implies #[trigger] other.bombs[j]
            == one.bombs[j] by {
            assert(scene.game.bombs[j] == one.bombs[j]);
        }
        assert forall|pos: Coord|
            #![trigger other.map.tile(pos)]
            one.map.tile(pos) is Empty implies other.map.tile(pos) is Empty by {
            assert(scene.game.map.tile(pos) is Empty);
            if other.map != scene.game.map {
                let here = other.players[idx].pos;
                if pos != here {
                    laws::lemma_with_tile_elsewhere(scene.game.map, here, Tile::Empty, pos);
                }
            }
        }
    }
}

/// Whether nobody before player `i` is in a cell or asks to walk into it.
pub open spec fn clear_for(
    players: Seq<Player>,
    actions: Seq<Action>,
    i: int,
    pos: Coord,
) -> bool {
    forall|k: int|
        0 <= k < i ==> (#[trigger] players[k]).pos != pos && !heads_for(
            players[k],
            asked(actions, k),
            pos,
        )
}

/// Whether a player can walk into a cell now: alive, rested, next to it, and
/// nothing in the way.
pub open spec fn can_enter(
    game: GameView,
    i: int,
    dt: Nanos,
    actions: Seq<Action>,
    pos: Coord,
) -> bool {
    let player = game.players[i];
    &&& player.alive
    &&& wait_left(player.move_cooldown, dt) <= 0
    &&& heads_for(player, asked(actions, i), pos)
    &&& on_foot(game.map, pos)
    &&& !bombed(game.bombs, pos)
    &&& clear_for(game.players, actions, i, pos)
}

/// Who can walk into a cell and asks to does so, and takes the item that lies there.
pub proof fn lemma_walks_in(start: Scene, dt: Nanos, actions: Seq<Action>, i: int, pos: Coord)
    requires
        start.game.wf(),
        start.game.has_headroom(),
        dt >= 0,
        0 <= i < start.game.players.len() <= usize::MAX,
        can_enter(start.game, i, dt, actions, pos),
    ensures
        ({
            let player = start.game.players[i];
            let moved = laws::after_input(start, dt, actions).game;
            &&& moved.players[i].pos == pos
            &&& moved.players[i].move_cooldown == pace(player.speed)
            &&& moved.map.tile(pos) is Empty
            &&& forall|kind: ItemKind| #[trigger]
                item_at(start.game.map, pos, kind) ==> improved(
                    player,
                    moved.players[i],
                    dt,
                    kind,
                ) && moved.players[i].score == player.score + 50
            &&& start.game.map.tile(pos) is Empty ==> as_equipped(player, moved.players[i], dt)
                && moved.players[i].score == player.score
        }),
{
    let worn = rules::shields_passed(start, dt);
    let n = start.game.players.len();
    rules::lemma_shields_passed(start, dt);
    lemma_directed(start, dt, actions, i as nat);
    lemma_later_input(worn, dt, actions, (i + 1) as nat, n);
    let scene = rules::all_acted(worn, dt, actions, i as nat);
    let player = start.game.players[i];
    lemma_shield(player, dt);
    assert(scene.game.players[i] == rules::less_shielded(player, dt));
    assert(geometry::in_range(player.pos));
    let action = asked(actions, i);
    assert(rules::action_of(actions, i) == action);
    let dir = action->Move_0;
    assert(geometry::stepped(player.pos, dir) == pos);
    assert(scene.game.map.tile(pos) == start.game.map.tile(pos)) by {
        if scene.game.map.tile(pos) != start.game.map.tile(pos) {
            let k = choose|k: int|
                0 <= k < i && 0 <= k < start.game.players.len() && #[trigger] heads_for(
                    start.game.players[k],
                    asked(actions, k),
                    pos,
                );
            assert(start.game.players[k].pos != pos);
        }
    }
    assert(!rules::bomb_on(scene.game.bombs, pos)) by {
        if rules::bomb_on(scene.game.bombs, pos) {
            let j = choose|j: int|
                0 <= j < scene.game.bombs.len() && (#[trigger] scene.game.bombs[j]).pos == pos;
            if j < start.game.bombs.len() {
                assert(start.game.bombs[j].pos == pos);
            } else {
                assert(placed_by_one(
                    start.game.players,
                    actions,
                    i as nat,
                    start.game.bombs,
                    scene.game.bombs[j],
                ));
            }
        }
    }
    assert(scene.game.map.walkable(pos));
    lemma_pace(player.speed);
    assert(rules::player_has_headroom(
        player,
        rules::count(start.game.enemies, rules::living()),
    ));
    let acted = rules::acted(scene, i, dt, action);
    assert(acted == rules::all_acted(worn, dt, actions, (i + 1) as nat));
    assert(acted.game.players[i].pos == pos);
    assert(acted.game.map.tile(pos) is Empty) by {
        if scene.game.map.tile(pos) is ItemTile {
            laws::lemma_item_taken_once(scene.game.map, pos);
        }
    }
    let moved = laws::after_input(start, dt, actions).game;
    assert(moved.players[i] == acted.game.players[i]);
}

/// Whether a player can place a bomb now: alive, with one to spare, and no bomb
/// there yet.
pub open spec fn can_place(game: GameView, i: int, actions: Seq<Action>) -> bool {
    let player = game.players[i];
    &&& player.alive
    &&& asked(actions, i) is PlaceBomb
    &&& own_bombs(game.bombs, i) < player.bomb_capacity
    &&& !bombed(game.bombs, player.pos)
    &&& forall|k: int| 0 <= k < i ==> (#[trigger] game.players[k]).pos != player.pos
}

/// Who can place a bomb and asks to does so.
pub proof fn lemma_places(start: Scene, dt: Nanos, actions: Seq<Action>, i: int)
    requires
        start.game.wf(),
        start.game.has_headroom(),
        dt >= 0,
        0 <= i < start.game.players.len() <= usize::MAX,
        can_place(start.game, i, actions),
    ensures
        ({
            let player = start.game.players[i];
            let moved = laws::after_input(start, dt, actions).game;
            moved.bombs.contains(
                Bomb {
                    pos: player.pos,
                    owner: i as usize,
                    timer: 3_000_000_000,
                    power: player.power,
                },
            )
        }),
{
    let worn = rules::shields_passed(start, dt);
    let n = start.game.players.len();
    rules::lemma_shields_passed(start, dt);
    lemma_directed(start, dt, actions, i as nat);
    lemma_later_input(worn, dt, actions, (i + 1) as nat, n);
    let scene = rules::all_acted(worn, dt, actions, i as nat);
    let player = start.game.players[i];
    lemma_shield(player, dt);
    assert(scene.game.players[i] == rules::less_shielded(player, dt));
    lemma_own_bombs_so_far(start, scene, i, dt, actions);
    assert(rules::action_of(actions, i) == asked(actions, i));
    assert(!rules::bomb_on(scene.game.bombs, player.pos)) by {
        if rules::bomb_on(scene.game.bombs, player.pos) {
            let j = choose|j: int|
                0 <= j < scene.game.bombs.len() && (#[trigger] scene.game.bombs[j]).pos
                    == player.pos;
            if j < start.game.bombs.len() {
                assert(start.game.bombs[j].pos == player.pos);
            } else {
                assert(placed_by_one(
                    start.game.players,
                    actions,
                    i as nat,
                    start.game.bombs,
                    scene.game.bombs[j],
                ));
            }
        }
    }
    let acted = rules::acted(scene, i, dt, asked(actions, i));
    assert(acted == rules::all_acted(worn, dt, actions, (i + 1) as nat));
    let last = acted.game.bombs.len() - 1;
    assert(acted.game.bombs[last] == Bomb {
        pos: player.pos,
        owner: i as usize,
        timer: 3_000_000_000,
        power: player.power,
    });
    let moved = laws::after_input(start, dt, actions).game;
    assert(moved.bombs[last] == acted.game.bombs[last]);
}

// ---------------------------------------------------------------------------
// Blasts

/// Whether one of the blasts covers a cell.
pub open spec fn swept(blasts: Seq<ExplosionView>, pos: Coord) -> bool {
    exists|k: int| 0 <= k < blasts.len() && (#[trigger] blasts[k]).cells.contains(pos)
}

/// Whether a blast is that of the bomb, set off while the board wore down from
/// `first` to `last`: it covers the cell of the bomb and all that the bomb reached
/// at first, and nothing that it would not reach at last.
#[verifier::opaque]
pub open spec fn blast_of(
    bomb: Bomb,
    blast: ExplosionView,
    first: MapView,
    last: MapView,
) -> bool {
    &&& blast.cells.contains(bomb.pos)
    &&& forall|dir: Direction, pos: Coord| #[trigger]
        laws::reached(first, bomb.pos, bomb.power as nat, dir, pos) ==> blast.cells.contains(pos)
    &&& forall|pos: Coord| #[trigger]
        blast.cells.contains(pos) && pos != bomb.pos ==> exists|dir: Direction|
            laws::reached(last, bomb.pos, bomb.power as nat, dir, pos)
}

/// What a blast can make of a player: it kills who is alive, stands in it and is
/// not invincible, at the cost of one life.
pub open spec fn blasted(before: Player, after: Player, blasts: Seq<ExplosionView>) -> bool {
    let hit = before.alive && !before.god_mode && before.invincible_remaining <= 0 && swept(
        blasts,
        before.pos,
    );
    &&& after == (Player {
        alive: after.alive,
        lives: after.lives,
        score: after.score,
        ..before
    })
    &&& after.alive == (before.alive && !hit)
    &&& after.lives == (if hit && before.lives > 0 {
        before.lives - 1
    } else {
        before.lives as int
    })
    &&& after.score >= before.score
}

/// What the blasts of a tick make of a game.
pub open spec fn aftermath(
    before: GameView,
    after: GameView,
    fresh: Seq<ExplosionView>,
    drops: spec_fn(Coord) -> Option<ItemKind>,
) -> bool {
    &&& after.explosions == before.explosions + fresh
    &&& after.bombs.len() + fresh.len() == before.bombs.len()
    &&& forall|k: int| 0 <= k < fresh.len() ==> (#[trigger] fresh[k]).remaining == 500_000_000
    &&& after.screen == before.screen
    &&& after.spawn_points == before.spawn_points
    &&& after.enemy_move_cooldown == before.enemy_move_cooldown
    &&& board_swept(before.map, after.map, fresh, drops)
    &&& enemies_swept(before.enemies, after.enemies, fresh)
    &&& players_swept(before.players, after.players, fresh)
    &&& bombs_swept(before.bombs, after.bombs, fresh)
    &&& blasts_have_bombs(before, after, fresh)
    &&& bombs_have_blasts(before, after, fresh)
}

/// Blocks in a blast turn into what they leave behind; nothing else changes on the
/// board.
pub open spec fn board_swept(
    before: MapView,
    after: MapView,
    fresh: Seq<ExplosionView>,
    drops: spec_fn(Coord) -> Option<ItemKind>,
) -> bool {
    &&& after.width == before.width
    &&& after.height == before.height
    &&& forall|pos: Coord|
        #![trigger after.tile(pos)]
        after.tile(pos) == if before.tile(pos) is Block && swept(fresh, pos) {
            match drops(pos) {
                Some(kind) => Tile::ItemTile(kind),
                None => Tile::Empty,
            }
        } else {
            before.tile(pos)
        }
}

/// Enemies in a blast die; nothing else happens to them.
pub open spec fn enemies_swept(
    before: Seq<Enemy>,
    after: Seq<Enemy>,
    fresh: Seq<ExplosionView>,
) -> bool {
    &&& after.len() == before.len()
    &&& forall|i: int|
        0 <= i < before.len() ==> #[trigger] after[i] == (Enemy {
            alive: before[i].alive && !swept(fresh, before[i].pos),
            ..before[i]
        })
}

/// What blasts make of the players.
pub open spec fn players_swept(
    before: Seq<Player>,
    after: Seq<Player>,
    fresh: Seq<ExplosionView>,
) -> bool {
    &&& after.len() == before.len()
    &&& forall|i: int| 0 <= i < before.len() ==> blasted(before[i], #[trigger] after[i], fresh)
}

/// The bombs that are left are those that were neither due nor in a blast.
pub open spec fn bombs_swept(
    before: Seq<Bomb>,
    after: Seq<Bomb>,
    fresh: Seq<ExplosionView>,
) -> bool {
    forall|bomb: Bomb| #[trigger]
        after.contains(bomb) <==> before.contains(bomb) && bomb.timer > 0 && !swept(
            fresh,
            bomb.pos,
        )
}

/// Whether a blast is that of one of the bombs.
pub open spec fn has_bomb(before: GameView, after: GameView, blast: ExplosionView) -> bool {
    exists|j: int|
        0 <= j < before.bombs.len() && #[trigger] blast_of(
            before.bombs[j],
            blast,
            before.map,
            after.map,
        )
}

/// Every blast is that of a bomb.
pub open spec fn blasts_have_bombs(
    before: GameView,
    after: GameView,
    fresh: Seq<ExplosionView>,
) -> bool {
    forall|k: int| 0 <= k < fresh.len() ==> has_bomb(before, after, #[trigger] fresh[k])
}

/// Every bomb that is gone had its blast.
pub open spec fn bombs_have_blasts(
    before: GameView,
    after: GameView,
    fresh: Seq<ExplosionView>,
) -> bool {
    forall|j: int|
        0 <= j < before.bombs.len() && !after.bombs.contains(#[trigger] before.bombs[j])
            ==> exists|k: int|
            0 <= k < fresh.len() && #[trigger] blast_of(
                before.bombs[j],
                fresh[k],
                before.map,
                after.map,
            )
}

/// What a blast reaches it still reaches when the board has worn down.
pub proof fn lemma_reach_grows(
    first: MapView,
    last: MapView,
    origin: Coord,
    power: nat,
    dir: Direction,
    pos: Coord,
)
    requires
        first.width <= i32::MAX,
        first.height <= i32::MAX,
        laws::eroded(first, last),
        laws::reached(first, origin, power, dir, pos),
    ensures
        laws::reached(last, origin, power, dir, pos),
{
    let k = choose|k: int|
        #![trigger laws::along(origin, dir, k)]
        1 <= k <= power && laws::along(origin, dir, k) == (pos.0 as int, pos.1 as int) && !(
        first.tile(pos) is Wall) && forall|j: int|
            1 <= j < k ==> #[trigger] laws::lets_through(first, origin, dir, j);
    assert(laws::along(origin, dir, k) == (pos.0 as int, pos.1 as int));
    assert(last.tile(pos) is Wall <==> first.tile(pos) is Wall);
    assert forall|j: int| 1 <= j < k implies #[trigger] laws::lets_through(last, origin, dir, j) by {
        assert(laws::lets_through(first, origin, dir, j));
        let (row, col) = laws::along(origin, dir, j);
        let cell = (row as i32, col as i32);
        assert(last.tile(cell) is Wall <==> first.tile(cell) is Wall);
        assert(last.tile(cell) is Block ==> first.tile(cell) is Block);
    }
}

/// A cell that the first blast or one of the others covers.
proof fn lemma_swept_by_first(first: ExplosionView, others: Seq<ExplosionView>, pos: Coord)
    ensures
        swept(seq![first] + others, pos) <==> first.cells.contains(pos) || swept(others, pos),
{
    let all = seq![first] + others;
    if first.cells.contains(pos) {
        assert(all[0].cells.contains(pos));
    }
    if swept(others, pos) {
        let k = choose|k: int| 0 <= k < others.len() && (#[trigger] others[k]).cells.contains(pos);
        assert(all[k + 1].cells.contains(pos));
    }
    if swept(all, pos) {
        let k = choose|k: int| 0 <= k < all.len() && (#[trigger] all[k]).cells.contains(pos);
        if k > 0 {
            assert(others[k - 1].cells.contains(pos));
        }
    }
}

/// Whether bomb `i` is the first to go off, and `others` are the blasts that follow
/// its own, the first of `fresh`.
spec fn set_off(
    scene: Scene,
    i: int,
    drops: spec_fn(Coord) -> Option<ItemKind>,
    after: GameView,
    others: Seq<ExplosionView>,
    fresh: Seq<ExplosionView>,
) -> bool {
    let bomb = scene.game.bombs[i];
    &&& scene.game.wf()
    &&& rules::solvent(scene.game)
    &&& 0 <= i < scene.game.bombs.len()
    &&& rules::due(bomb)
    &&& aftermath(rules::blown_up(scene, i, drops).game, after, others, drops)
    &&& fresh == seq![
        ExplosionView {
            cells: entities::blast(bomb.pos, bomb.power as nat, scene.game.map),
            remaining: 500_000_000,
        },
    ] + others
}

/// The first blast and then the others: the board, the enemies and the players.
proof fn lemma_set_off_victims(
    scene: Scene,
    i: int,
    drops: spec_fn(Coord) -> Option<ItemKind>,
    after: GameView,
    others: Seq<ExplosionView>,
    fresh: Seq<ExplosionView>,
)
    requires
        set_off(scene, i, drops, after, others, fresh),
    ensures
        board_swept(scene.game.map, after.map, fresh, drops),
        enemies_swept(scene.game.enemies, after.enemies, fresh),
        players_swept(scene.game.players, after.players, fresh),
        laws::eroded(scene.game.map, rules::blown_up(scene, i, drops).game.map),
{
    let game = scene.game;
    let mid = rules::blown_up(scene, i, drops).game;
    let bomb = game.bombs[i];
    let cells = entities::blast(bomb.pos, bomb.power as nat, game.map);
    let first = ExplosionView { cells, remaining: 500_000_000 };
    rules::lemma_blown_up(scene, i, drops);
    assert forall|pos: Coord|
        #![trigger after.map.tile(pos)]
        after.map.tile(pos) == if game.map.tile(pos) is Block && swept(fresh, pos) {
            match drops(pos) {
                Some(kind) => Tile::ItemTile(kind),
                None => Tile::Empty,
            }
        } else {
            game.map.tile(pos)
        } by {
        rules::lemma_cleared_tile(game.map, cells, drops, pos);
        lemma_swept_by_first(first, others, pos);
    }
    assert forall|pos: Coord|
        #![trigger mid.map.tile(pos)]
        {
            &&& mid.map.tile(pos) is Wall <==> game.map.tile(pos) is Wall
            &&& mid.map.tile(pos) is Block ==> game.map.tile(pos) is Block
        } by {
        rules::lemma_cleared_tile(game.map, cells, drops, pos);
    }
    assert forall|e: int| 0 <= e < game.enemies.len() implies #[trigger] after.enemies[e] == (
    Enemy {
        alive: game.enemies[e].alive && !swept(fresh, game.enemies[e].pos),
        ..game.enemies[e]
    }) by {
        lemma_swept_by_first(first, others, game.enemies[e].pos);
        assert(after.enemies[e].alive == (mid.enemies[e].alive && !swept(
            others,
            mid.enemies[e].pos,
        )));
    }
    rules::lemma_decimated(game.enemies, cells);
    assert forall|p: int| 0 <= p < game.players.len() implies blasted(
        game.players[p],
        #[trigger] after.players[p],
        fresh,
    ) by {
        lemma_swept_by_first(first, others, game.players[p].pos);
        assert(blasted(mid.players[p], after.players[p], others));
        assert(game.players[p].score + rules::count(game.enemies, rules::living())
            * rules::SCORE_PER_ENEMY <= u32::MAX);
    }
}

/// The first blast and then the others: the bombs.
proof fn lemma_set_off_bombs(
    scene: Scene,
    i: int,
    drops: spec_fn(Coord) -> Option<ItemKind>,
    after: GameView,
    others: Seq<ExplosionView>,
    fresh: Seq<ExplosionView>,
)
    requires
        set_off(scene, i, drops, after, others, fresh),
    ensures
        bombs_swept(scene.game.bombs, after.bombs, fresh),
{
    let game = scene.game;
    let mid = rules::blown_up(scene, i, drops).game;
    let cells = entities::blast(game.bombs[i].pos, game.bombs[i].power as nat, game.map);
    let first = ExplosionView { cells, remaining: 500_000_000 };
    assert forall|b: Bomb| #[trigger] after.bombs.contains(b) <==> game.bombs.contains(b)
        && b.timer > 0 && !swept(fresh, b.pos) by {
        lemma_swept_by_first(first, others, b.pos);
        if after.bombs.contains(b) {
            assert(mid.bombs.contains(b));
            let j = choose|j: int| 0 <= j < mid.bombs.len() && mid.bombs[j] == b;
            let x = game.bombs.remove(i)[j];
            assert(mid.bombs[j] == if cells.contains(x.pos) {
                Bomb { timer: 0, ..x }
            } else {
                x
            });
            assert(game.bombs[if j < i {
                j
            } else {
                j + 1
            }] == x);
        }
        if game.bombs.contains(b) && b.timer > 0 && !swept(fresh, b.pos) {
            let j = choose|j: int| 0 <= j < game.bombs.len() && game.bombs[j] == b;
            let k = if j < i {
                j
            } else {
                j - 1
            };
            assert(game.bombs.remove(i)[k] == b);
            assert(mid.bombs[k] == b);
            assert(mid.bombs.contains(b));
        }
    }
}

/// The first blast and then the others: which blast is whose.
proof fn lemma_set_off_sources(
    scene: Scene,
    i: int,
    drops: spec_fn(Coord) -> Option<ItemKind>,
    after: GameView,
    others: Seq<ExplosionView>,
    fresh: Seq<ExplosionView>,
)
    requires
        set_off(scene, i, drops, after, others, fresh),
        laws::eroded(scene.game.map, rules::blown_up(scene, i, drops).game.map),
        laws::eroded(scene.game.map, after.map),
    ensures
        blasts_have_bombs(scene.game, after, fresh),
        bombs_have_blasts(scene.game, after, fresh),
{
    let game = scene.game;
    let mid = rules::blown_up(scene, i, drops).game;
    let bomb = game.bombs[i];
    let cells = entities::blast(bomb.pos, bomb.power as nat, game.map);
    let first = ExplosionView { cells, remaining: 500_000_000 };
    assert(geometry::in_range(bomb.pos));
    assert(fresh[0] == first);
    lemma_first_blast(bomb, first, game.map, after.map);
    assert forall|k: int| 0 <= k < fresh.len() implies has_bomb(
        game,
        after,
        #[trigger] fresh[k],
    ) by {
        if k == 0 {
            assert(blast_of(game.bombs[i], fresh[0], game.map, after.map));
        } else {
            assert(fresh[k] == others[k - 1]);
            assert(has_bomb(mid, after, others[k - 1]));
            let j = choose|j: int|
                0 <= j < mid.bombs.len() && #[trigger] blast_of(
                    mid.bombs[j],
                    others[k - 1],
                    mid.map,
                    after.map,
                );
            let x = if j < i {
                j
            } else {
                j + 1
            };
            assert(game.bombs.remove(i)[j] == game.bombs[x]);
            lemma_later_blast(game.bombs[x], mid.bombs[j], fresh[k], game.map, mid.map, after.map);
            assert(blast_of(game.bombs[x], fresh[k], game.map, after.map));
        }
    }
    assert forall|j: int| 0 <= j < game.bombs.len() && !after.bombs.contains(
        #[trigger] game.bombs[j],
    ) implies exists|k: int|
        0 <= k < fresh.len() && #[trigger] blast_of(
                game.bombs[j],
                fresh[k], game.map, after.map) by {
        if j == i {
            assert(blast_of(game.bombs[j], fresh[0], game.map, after.map));
        } else {
            let x = if j < i {
                j
            } else {
                j - 1
            };
            assert(game.bombs.remove(i)[x] == game.bombs[j]);
            if after.bombs.contains(mid.bombs[x]) {
                assert(mid.bombs[x].timer > 0);
                assert(mid.bombs[x] == game.bombs[j]);
            }
            let k = choose|k: int|
                0 <= k < others.len() && #[trigger] blast_of(
                mid.bombs[x],
                others[k],
                    mid.map,
                    after.map,
                );
            assert(fresh[k + 1] == others[k]);
            lemma_later_blast(
                game.bombs[j],
                mid.bombs[x],
                fresh[k + 1],
                game.map,
                mid.map,
                after.map,
            );
        }
    }
}

/// What the blasts of a tick make of a game.
proof fn lemma_aftermath(scene: Scene, drops: spec_fn(Coord) -> Option<ItemKind>) -> (fresh: Seq<
    ExplosionView,
>)
    requires
        scene.game.wf(),
        rules::solvent(scene.game),
    ensures
        aftermath(scene.game, rules::detonated(scene, drops).game, fresh, drops),
    decreases scene.game.bombs.len(),
{
    let game = scene.game;
    let after = rules::detonated(scene, drops).game;
    if exists|i: int| rules::first_due(game.bombs, i) {
        let i = choose|i: int| rules::first_due(game.bombs, i);
        let next = rules::blown_up(scene, i, drops);
        rules::lemma_blown_up(scene, i, drops);
        rules::lemma_detonated_step(scene, i, drops);
        laws::lemma_detonated_endured(scene, drops);
        let others = lemma_aftermath(next, drops);
        let bomb = game.bombs[i];
        let cells = entities::blast(bomb.pos, bomb.power as nat, game.map);
        let first = ExplosionView { cells, remaining: 500_000_000 };
        let fresh = seq![first] + others;
        assert(set_off(scene, i, drops, after, others, fresh));
        lemma_set_off_victims(scene, i, drops, after, others, fresh);
        lemma_set_off_bombs(scene, i, drops, after, others, fresh);
        lemma_set_off_sources(scene, i, drops, after, others, fresh);
        assert(next.game.explosions =~= game.explosions.push(first));
        assert(after.explosions =~= game.explosions + fresh);
        assert forall|k: int| 0 <= k < fresh.len() implies (#[trigger] fresh[k]).remaining
            == 500_000_000 by {
            if k > 0 {
                assert(fresh[k] == others[k - 1]);
            }
        }
        fresh
    } else {
        let fresh = Seq::<ExplosionView>::empty();
        assert(game.explosions + fresh =~= game.explosions);
        assert forall|b: Bomb| #[trigger] game.bombs.contains(b) implies b.timer > 0 by {
            let j = choose|j: int| 0 <= j < game.bombs.len() && game.bombs[j] == b;
            if rules::due(game.bombs[j]) {
                laws::lemma_some_first_due(game.bombs, j);
            }
        }
        fresh
    }
}

/// The blast of the bomb that goes off first.
proof fn lemma_first_blast(bomb: Bomb, blast: ExplosionView, first: MapView, last: MapView)
    requires
        first.width <= i32::MAX,
        first.height <= i32::MAX,
        geometry::has_neighbours(bomb.pos),
        laws::eroded(first, last),
        blast.cells == entities::blast(bomb.pos, bomb.power as nat, first),
    ensures
        blast_of(bomb, blast, first, last),
{
    reveal(blast_of);
    laws::lemma_blast_reaches(first, bomb.pos, bomb.power as nat, bomb.pos);
    assert forall|dir: Direction, pos: Coord| #[trigger]
        laws::reached(first, bomb.pos, bomb.power as nat, dir, pos) implies blast.cells.contains(
        pos,
    ) by {
        laws::lemma_blast_reaches(first, bomb.pos, bomb.power as nat, pos);
    }
    assert forall|pos: Coord| #[trigger] blast.cells.contains(pos) && pos != bomb.pos implies exists|
        dir: Direction,
    |
        laws::reached(last, bomb.pos, bomb.power as nat, dir, pos) by {
        laws::lemma_blast_reaches(first, bomb.pos, bomb.power as nat, pos);
        let dir = choose|dir: Direction|
            laws::reached(first, bomb.pos, bomb.power as nat, dir, pos);
        lemma_reach_grows(first, last, bomb.pos, bomb.power as nat, dir, pos);
    }
}

/// The blast of a bomb that goes off later.
proof fn lemma_later_blast(
    bomb: Bomb,
    chained: Bomb,
    blast: ExplosionView,
    first: MapView,
    mid: MapView,
    last: MapView,
)
    requires
        first.width <= i32::MAX,
        first.height <= i32::MAX,
        laws::eroded(first, mid),
        chained.pos == bomb.pos,
        chained.power == bomb.power,
        blast_of(chained, blast, mid, last),
    ensures
        blast_of(bomb, blast, first, last),
{
    reveal(blast_of);
    assert forall|dir: Direction, pos: Coord| #[trigger]
        laws::reached(first, bomb.pos, bomb.power as nat, dir, pos) implies blast.cells.contains(
        pos,
    ) by {
        lemma_reach_grows(first, mid, bomb.pos, bomb.power as nat, dir, pos);
        assert(laws::reached(mid, chained.pos, chained.power as nat, dir, pos));
    }
}

// ---------------------------------------------------------------------------
// Time, enemies and meetings

/// Whether the blasts are those that had more than `dt` to go, with so much less.
pub open spec fn burnt_down(
    before: Seq<ExplosionView>,
    after: Seq<ExplosionView>,
    dt: Nanos,
) -> bool {
    &&& after.len() <= before.len()
    &&& forall|blast: ExplosionView| #[trigger]
        after.contains(blast) <==> blast.remaining > 0 && lasting(before, blast, dt)
}

/// Whether the blast is one of these with `dt` less to go.
pub open spec fn lasting(before: Seq<ExplosionView>, blast: ExplosionView, dt: Nanos) -> bool {
    exists|i: int|
        0 <= i < before.len() && (#[trigger] before[i]).cells == blast.cells && blast.remaining
            == before[i].remaining - dt
}

/// The fading of blasts.
proof fn lemma_burnt_down(before: Seq<ExplosionView>, dt: Nanos)
    requires
        dt >= 0,
    ensures
        burnt_down(before, rules::faded(before, dt), dt),
{
    let cool = |explosion: ExplosionView| rules::cooler(explosion, dt);
    let lit = |explosion: ExplosionView| explosion.remaining > 0;
    let cooled = before.map_values(cool);
    let after = rules::faded(before, dt);
    assert(after == cooled.filter(lit));
    cooled.lemma_filter_len_push(lit, ExplosionView { cells: seq![], remaining: 0 });
    lemma_filter_len(cooled, lit);
    assert forall|blast: ExplosionView| #[trigger]
        after.contains(blast) <==> blast.remaining > 0 && lasting(before, blast, dt) by {
        if after.contains(blast) {
            cooled.lemma_filter_contains_rev(lit, blast);
            let i = choose|i: int| 0 <= i < cooled.len() && cooled[i] == blast;
            assert(lit(blast)) by {
                let k = choose|k: int| 0 <= k < after.len() && after[k] == blast;
                cooled.lemma_filter_pred(lit, k);
            }
            assert(before[i].cells == blast.cells);
        }
        if blast.remaining > 0 && lasting(before, blast, dt) {
            let i = choose|i: int|
                0 <= i < before.len() && (#[trigger] before[i]).cells == blast.cells
                    && blast.remaining == before[i].remaining - dt;
            assert(cooled[i] == blast);
            cooled.lemma_filter_contains(lit, i);
        }
    }
}

/// Leaving elements out makes nothing longer.
proof fn lemma_filter_len<T>(s: Seq<T>, p: spec_fn(T) -> bool)
    ensures
        s.filter(p).len() <= s.len(),
    decreases s.len(),
{
    reveal(Seq::filter);
    if s.len() > 0 {
        lemma_filter_len(s.drop_last(), p);
    }
}

/// The number of live enemies in a cell.
pub open spec fn alive_at(enemies: Seq<Enemy>, pos: Coord) -> nat
    decreases enemies.len(),
{
    if enemies.len() == 0 {
        0
    } else {
        alive_at(enemies.drop_last(), pos) + if enemies.last().alive && enemies.last().pos == pos {
            1nat
        } else {
            0nat
        }
    }
}

/// Whether one of the first players is in that cell, alive and invincible.
pub open spec fn guarded(players: Seq<Player>, upto: int, pos: Coord) -> bool {
    exists|i: int|
        0 <= i < upto && i < players.len() && (#[trigger] players[i]).alive && (players[i].god_mode
            || players[i].invincible_remaining > 0) && players[i].pos == pos
}

/// What meeting the enemies makes of a player. Who is invincible kills those in the
/// same cell, for two hundred points each, unless another has done so before; who
/// is not is killed by them.
pub open spec fn encountered(
    before: Player,
    after: Player,
    i: int,
    players: Seq<Player>,
    enemies: Seq<Enemy>,
) -> bool {
    let safe = before.god_mode || before.invincible_remaining > 0;
    let met = before.alive && !guarded(players, i, before.pos) && alive_at(enemies, before.pos) > 0;
    &&& after == (Player {
        alive: after.alive,
        lives: after.lives,
        score: after.score,
        ..before
    })
    &&& after.alive == (before.alive && (safe || !met))
    &&& after.lives == (if met && !safe && before.lives > 0 {
        before.lives - 1
    } else {
        before.lives as int
    })
    &&& after.score == before.score + (if met && safe {
        200 * alive_at(enemies, before.pos)
    } else {
        0
    })
}

/// What the first players' meetings with the enemies make of a game.
pub open spec fn meetings(before: GameView, after: GameView, upto: int) -> bool {
    &&& after == (GameView { players: after.players, enemies: after.enemies, ..before })
    &&& after.enemies.len() == before.enemies.len()
    &&& forall|k: int|
        0 <= k < before.enemies.len() ==> #[trigger] after.enemies[k] == (Enemy {
            alive: before.enemies[k].alive && !guarded(
                before.players,
                upto,
                before.enemies[k].pos,
            ),
            ..before.enemies[k]
        })
    &&& after.players.len() == before.players.len()
    &&& forall|i: int|
        0 <= i < upto ==> encountered(
            before.players[i],
            #[trigger] after.players[i],
            i,
            before.players,
            before.enemies,
        )
    &&& forall|i: int|
        upto <= i < before.players.len() ==> #[trigger] after.players[i] == before.players[i]
}

/// The enemies struck in a cell, once those there have been killed or not.
proof fn lemma_struck_in_cell(before: Seq<Enemy>, now: Seq<Enemy>, pos: Coord, gone: bool)
    requires
        now.len() == before.len(),
        forall|k: int|
            0 <= k < before.len() ==> (#[trigger] now[k]).pos == before[k].pos && (before[k].pos
                == pos ==> now[k].alive == (before[k].alive && !gone)),
    ensures
        rules::count(now, rules::struck_in(seq![pos])) == if gone {
            0
        } else {
            alive_at(before, pos)
        },
    decreases before.len(),
{
    if before.len() > 0 {
        let n = before.len() - 1;
        assert forall|k: int| 0 <= k < n implies (#[trigger] now.drop_last()[k]).pos
            == before.drop_last()[k].pos && (before.drop_last()[k].pos == pos
            ==> now.drop_last()[k].alive == (before.drop_last()[k].alive && !gone)) by {
            assert(now[k] == now.drop_last()[k]);
        }
        lemma_struck_in_cell(before.drop_last(), now.drop_last(), pos, gone);
        assert(now[n].pos == before[n].pos);
        assert(seq![pos].contains(now[n].pos) <==> now[n].pos == pos) by {
            assert(seq![pos][0] == pos);
        }
    }
}

/// What the first players' meetings with the enemies do.
proof fn lemma_meetings(scene: Scene, upto: nat)
    requires
        scene.game.wf(),
        rules::solvent(scene.game),
        upto <= scene.game.players.len(),
    ensures
        meetings(scene.game, rules::all_met(scene, upto).game, upto as int),
    decreases upto,
{
    let game = scene.game;
    if upto > 0 {
        let idx = upto - 1;
        let now = rules::all_met(scene, idx as nat);
        lemma_meetings(scene, idx as nat);
        laws::lemma_all_met_endured(scene, idx as nat);
        let player = game.players[idx];
        let after = rules::met(now, idx).game;
        assert(now.game.players[idx] == player);
        lemma_struck_in_cell(
            game.enemies,
            now.game.enemies,
            player.pos,
            guarded(game.players, idx, player.pos),
        );
        rules::lemma_decimated(now.game.enemies, seq![player.pos]);
        assert(now.game.players[idx].score + rules::count(now.game.enemies, rules::living())
            * rules::SCORE_PER_ENEMY <= u32::MAX);
        let safe = player.alive && (player.god_mode || player.invincible_remaining > 0);
        assert forall|pos: Coord| #[trigger]
            guarded(game.players, upto as int, pos) <==> guarded(game.players, idx, pos) || (safe
                && player.pos == pos) by {
            if guarded(game.players, idx, pos) {
                let i = choose|i: int|
                    0 <= i < idx && i < game.players.len() && (#[trigger] game.players[i]).alive && (
                    game.players[i].god_mode || game.players[i].invincible_remaining > 0)
                        && game.players[i].pos == pos;
                assert(0 <= i < upto && game.players[i].alive);
            }
            if safe && player.pos == pos {
                assert(0 <= idx < upto && game.players[idx].alive);
            }
        }
        assert forall|k: int| 0 <= k < game.enemies.len() implies #[trigger] after.enemies[k] == (
        Enemy {
            alive: game.enemies[k].alive && !guarded(
                game.players,
                upto as int,
                game.enemies[k].pos,
            ),
            ..game.enemies[k]
        }) by {
            assert(now.game.enemies[k].pos == game.enemies[k].pos);
            assert(seq![player.pos].contains(game.enemies[k].pos) <==> game.enemies[k].pos
                == player.pos) by {
                assert(seq![player.pos][0] == player.pos);
            }
        }
        assert forall|i: int| 0 <= i < upto implies encountered(
            game.players[i],
            #[trigger] after.players[i],
            i,
            game.players,
            game.enemies,
        ) by {
            if i < idx {
                assert(after.players[i] == now.game.players[i]);
            }
        }
    } else {
        assert forall|pos: Coord| !(#[trigger] guarded(game.players, 0, pos)) by {}
    }
}

/// Where the enemies' turn takes a live enemy: one cell on in the direction that it
/// chose, unless that cell is not to be walked on or holds a bomb.
pub open spec fn prowled(
    before: Enemy,
    after: Enemy,
    dir: Direction,
    map: MapView,
    bombs: Seq<Bomb>,
) -> bool {
    &&& after.alive == before.alive
    &&& after.kind == before.kind
    &&& before.alive ==> {
        ||| next_cell(before.pos, dir, after.pos) && on_foot(map, after.pos) && !bombed(
            bombs,
            after.pos,
        )
        ||| after.pos == before.pos && forall|to: Coord| #[trigger]
            next_cell(before.pos, dir, to) ==> !on_foot(map, to) || bombed(bombs, to)
    }
    &&& !before.alive ==> after.pos == before.pos
}

/// What the enemies' turn makes of a game: they wait, or they all move.
pub open spec fn enemies_turn(
    before: GameView,
    after: GameView,
    dt: Nanos,
    turns: Seq<Direction>,
) -> bool {
    &&& after == (GameView {
        enemies: after.enemies,
        enemy_move_cooldown: after.enemy_move_cooldown,
        ..before
    })
    &&& before.enemy_move_cooldown > 0 ==> after.enemies == before.enemies
        && after.enemy_move_cooldown == before.enemy_move_cooldown - dt
    &&& before.enemy_move_cooldown <= 0 ==> {
        &&& after.enemy_move_cooldown == 450_000_000
        &&& after.enemies.len() == before.enemies.len()
        &&& before.players.len() > 0 ==> forall|i: int|
            0 <= i < before.enemies.len() ==> prowled(
                before.enemies[i],
                #[trigger] after.enemies[i],
                turns[i],
                before.map,
                before.bombs,
            )
        &&& before.players.len() == 0 ==> after.enemies == before.enemies
    }
}

/// What the enemies' turn does.
proof fn lemma_enemies_turn(game: GameView, dt: Nanos, turns: Seq<Direction>)
    requires
        game.wf(),
        dt >= 0,
    ensures
        enemies_turn(game, rules::enemies_passed(game, dt, turns), dt, turns),
{
    let after = rules::enemies_passed(game, dt, turns);
    if game.enemy_move_cooldown <= 0 {
        if game.players.len() == 0 {
            assert(after.enemies =~= game.enemies);
        }
        assert forall|i: int|
            game.players.len() > 0 && 0 <= i < game.enemies.len() implies prowled(
            game.enemies[i],
            #[trigger] after.enemies[i],
            turns[i],
            game.map,
            game.bombs,
        ) by {
            let enemy = game.enemies[i];
            assert(geometry::in_range(enemy.pos));
            let target = geometry::stepped(enemy.pos, turns[i]);
            assert(next_cell(enemy.pos, turns[i], target));
            assert(on_foot(game.map, target) == game.map.walkable(target));
            assert(bombed(game.bombs, target) == rules::bomb_on(game.bombs, target));
            assert forall|to: Coord| #[trigger] next_cell(enemy.pos, turns[i], to) implies to
                == target by {}
        }
    }
}

// ---------------------------------------------------------------------------
// The end of a round

/// Whether several players play against each other, without enemies.
pub open spec fn is_match(game: GameView) -> bool {
    game.players.len() >= 2 && game.enemies.len() == 0
}

/// Whether that player is alive and nobody else is.
pub open spec fn last_alive(players: Seq<Player>, winner: int) -> bool {
    &&& 0 <= winner < players.len()
    &&& forall|i: int| 0 <= i < players.len() ==> ((#[trigger] players[i]).alive <==> i == winner)
}

/// Whether nobody is alive.
pub open spec fn none_alive(players: Seq<Player>) -> bool {
    forall|i: int| 0 <= i < players.len() ==> !(#[trigger] players[i]).alive
}

/// Whether everybody is alive.
pub open spec fn all_alive(players: Seq<Player>) -> bool {
    forall|i: int| 0 <= i < players.len() ==> (#[trigger] players[i]).alive
}

/// Whether somebody is dead and has no life left.
pub open spec fn one_lost(players: Seq<Player>) -> bool {
    exists|i: int| 0 <= i < players.len() && !(#[trigger] players[i]).alive && players[i].lives == 0
}

/// Whether there were enemies and none is alive.
pub open spec fn all_beaten(enemies: Seq<Enemy>) -> bool {
    enemies.len() > 0 && forall|k: int|
        0 <= k < enemies.len() ==> !(#[trigger] enemies[k]).alive
}

/// The requests for the sounds of a round that is won.
pub open spec fn victory_sounds() -> Seq<AudioCommand> {
    seq![
        AudioCommand::StopBgm,
        AudioCommand::PlaySe(SoundEffect::StageClear),
        AudioCommand::PlayBgm(Bgm::Clear),
    ]
}

/// The requests for the sounds of a round that is not won.
pub open spec fn defeat_sounds() -> Seq<AudioCommand> {
    seq![AudioCommand::StopBgm, AudioCommand::PlayBgm(Bgm::GameOver)]
}

/// What becomes of a player at the end of a round against enemies: who is dead and
/// has a life left is back where the player started.
pub open spec fn back_again(before: Player, after: Player, i: int, starts: Seq<Coord>) -> bool {
    if !before.alive && before.lives > 0 {
        after == Player {
            alive: true,
            pos: if 0 <= i < starts.len() {
                starts[i]
            } else {
                (1, 1)
            },
            move_cooldown: 0,
            ..before
        }
    } else {
        after == before
    }
}

/// What the end of a round makes of a game in play.
pub open spec fn decided(before: Scene, after: Scene) -> bool {
    let players = before.game.players;
    &&& after.game == (GameView {
        players: after.game.players,
        screen: after.game.screen,
        ..before.game
    })
    &&& after.game.players.len() == players.len()
    &&& if is_match(before.game) {
        &&& after.game.players == players
        &&& forall|winner: int|
            #![trigger last_alive(players, winner)]
            last_alive(players, winner) ==> after.game.screen == Screen::MatchResult(
                Some(winner as usize),
            ) && after.heard == before.heard + victory_sounds()
        &&& none_alive(players) ==> after.game.screen == Screen::MatchResult(None) && after.heard
            == before.heard + defeat_sounds()
        &&& (forall|winner: int| !#[trigger] last_alive(players, winner)) && !none_alive(players)
            ==> after.game.screen == before.game.screen && after.heard == before.heard
    } else {
        &&& forall|i: int|
            0 <= i < players.len() ==> back_again(
                players[i],
                #[trigger] after.game.players[i],
                i,
                before.game.spawn_points,
            )
        &&& one_lost(players) ==> after.game.screen is GameOver && after.heard == before.heard
            + defeat_sounds()
        &&& !one_lost(players) && all_alive(players) && all_beaten(before.game.enemies)
            ==> after.game.screen is Cleared && after.heard == before.heard + victory_sounds()
        &&& !one_lost(players) && !(all_alive(players) && all_beaten(before.game.enemies))
            ==> after.game.screen == before.game.screen && after.heard == before.heard
    }
}

/// What the end of a round does.
proof fn lemma_decided(scene: Scene)
    ensures
        decided(scene, rules::resolved(scene)),
{
    let players = scene.game.players;
    let after = rules::resolved(scene);
    if is_match(scene.game) {
        assert forall|winner: int| last_alive(players, winner) == #[trigger] rules::sole_survivor(
            players,
            winner,
        ) by {}
        assert(none_alive(players) == rules::wiped_out(players));
        if exists|i: int| rules::sole_survivor(players, i) {
            let w = choose|i: int| rules::sole_survivor(players, i);
            assert(rules::sole_survivor(players, w));
            assert(last_alive(players, w));
            assert(players[w].alive);
            assert(after.heard =~= scene.heard + victory_sounds());
            assert forall|winner: int|
                #![trigger last_alive(players, winner)]
                last_alive(players, winner) implies after.game.screen == Screen::MatchResult(
                Some(winner as usize),
            ) && after.heard == scene.heard + victory_sounds() by {
                assert(winner == w);
            }
        } else {
            assert forall|winner: int|
                #![trigger last_alive(players, winner)]
                last_alive(players, winner) implies false by {
                assert(rules::sole_survivor(players, winner));
            }
            if none_alive(players) {
                assert(after.heard =~= scene.heard + defeat_sounds());
            }
        }
    } else {
        assert(one_lost(players) == rules::someone_out(players));
        assert(all_alive(players) == !rules::someone_dead(players));
        assert(all_beaten(scene.game.enemies) == rules::enemies_gone(scene.game.enemies));
        if one_lost(players) {
            assert(after.heard =~= scene.heard + defeat_sounds());
        } else if all_alive(players) && all_beaten(scene.game.enemies) {
            assert(after.heard =~= scene.heard + victory_sounds());
        }
    }
}

// ---------------------------------------------------------------------------
// A whole tick

/// The scene once fuses have burnt and blasts have faded.
pub open spec fn after_fuses(scene: Scene, dt: Nanos, actions: Seq<Action>) -> Scene {
    rules::fuses_passed(laws::after_input(scene, dt, actions), dt)
}

/// The scene once all bombs that were due have gone off.
pub open spec fn after_blasts(scene: Scene, dt: Nanos, actions: Seq<Action>, luck: Luck) -> Scene {
    rules::detonated(after_fuses(scene, dt, actions), luck.drops)
}

/// The scene once the enemies have had their turn.
pub open spec fn after_turn(scene: Scene, dt: Nanos, actions: Seq<Action>, luck: Luck) -> Scene {
    let blown = after_blasts(scene, dt, actions, luck);
    Scene { game: rules::enemies_passed(blown.game, dt, luck.turns), ..blown }
}

/// Whether the stages of a tick follow from one another as they should.
pub open spec fn storied(
    before: Scene,
    dt: Nanos,
    actions: Seq<Action>,
    luck: Luck,
    fresh: Seq<ExplosionView>,
    after: Scene,
) -> bool {
    let moved = laws::after_input(before, dt, actions).game;
    let burnt = after_fuses(before, dt, actions).game;
    let blown = after_blasts(before, dt, actions, luck).game;
    let turned = after_turn(before, dt, actions, luck).game;
    let met = laws::after_hazards(before, dt, actions, luck);
    let n = before.game.players.len();
    &&& moved.wf()
    &&& blown.wf()
    &&& turned.wf()
    &&& directed(before.game, moved, dt, actions, n)
    &&& forall|i: int|
        0 <= i < n ==> steered(
            before.game.players[i],
            #[trigger] moved.players[i],
            dt,
            asked(actions, i),
            before.game.map,
            before.game.bombs,
        )
    &&& burnt == (GameView { bombs: burnt.bombs, explosions: burnt.explosions, ..moved })
    &&& burnt_down(moved.explosions, burnt.explosions, dt)
    &&& burnt.bombs.len() == moved.bombs.len()
    &&& forall|j: int|
        0 <= j < moved.bombs.len() ==> shorter(moved.bombs[j], #[trigger] burnt.bombs[j], dt)
    &&& aftermath(burnt, blown, fresh, luck.drops)
    &&& enemies_turn(blown, turned, dt, luck.turns)
    &&& meetings(turned, met.game, n as int)
    &&& decided(met, after)
}

/// Whether a bomb is the other with `dt` off its fuse.
pub open spec fn shorter(before: Bomb, after: Bomb, dt: Nanos) -> bool {
    &&& after == (Bomb { timer: after.timer, ..before })
    &&& before.timer - dt >= i64::MIN ==> after.timer == before.timer - dt
    &&& before.timer <= dt ==> after.timer <= 0
}

/// What happens in a tick of play.
pub proof fn lemma_story(before: Scene, dt: Nanos, actions: Seq<Action>, after: Scene) -> (told: (
    Luck,
    Seq<ExplosionView>,
))
    requires
        in_play(before, dt, actions, after),
    ensures
        rules::fair(before, dt, actions, told.0),
        after == rules::played(before, dt, actions, told.0),
        storied(before, dt, actions, told.0, told.1, after),
{
    let luck = lemma_drawn(before, dt, actions, after);
    let n = before.game.players.len();
    let worn = rules::shields_passed(before, dt);
    lemma_directed(before, dt, actions, n);
    rules::lemma_shields_passed(before, dt);
    rules::lemma_all_acted(worn, dt, actions, n);
    rules::lemma_all_acted_score(worn, dt, actions, n);
    let moved = laws::after_input(before, dt, actions);
    let burnt = after_fuses(before, dt, actions);
    rules::lemma_fuses_passed(moved, dt);
    lemma_burnt_down(moved.game.explosions, dt);
    assert(rules::solvent(burnt.game)) by {
        assert forall|i: int| 0 <= i < burnt.game.players.len() implies (
        #[trigger] burnt.game.players[i]).score + rules::count(burnt.game.enemies, rules::living())
            * rules::SCORE_PER_ENEMY <= u32::MAX by {
            assert(moved.game.players[i].score <= worn.game.players[i].score
                + rules::SCORE_PER_ITEM);
            assert(rules::player_has_headroom(
                worn.game.players[i],
                rules::count(worn.game.enemies, rules::living()),
            ));
        }
    }
    let fresh = lemma_aftermath(burnt, luck.drops);
    laws::lemma_detonated_endured(burnt, luck.drops);
    let blown = after_blasts(before, dt, actions, luck);
    lemma_enemies_turn(blown.game, dt, luck.turns);
    rules::lemma_enemies_passed(blown.game, dt, luck.turns);
    let turned = after_turn(before, dt, actions, luck);
    assert(turned.game.players.len() == n);
    lemma_meetings(turned, n);
    let met = laws::after_hazards(before, dt, actions, luck);
    assert(met == rules::all_met(turned, n));
    lemma_decided(met);
    (luck, fresh)
}

} // verus!
