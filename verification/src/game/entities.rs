//! Players, enemies, bombs and blasts.

use vstd::prelude::*;

use crate::chance::random_below;
use crate::game::geometry;
use crate::game::geometry::{closest_direction, farthest_direction, step};
use crate::game::map::{GameMap, MapView};
use crate::types::{Coord, Direction, Nanos, Tile};

verus! {

/// Lives of a player at the start of a game.
pub const STARTING_LIVES: u32 = 3;

/// A speed of one, in the thousandths in which speeds are kept.
pub const NORMAL_SPEED: u32 = 1_000;

/// The fuse of a new bomb: three seconds.
pub const DEFAULT_BOMB_TIMER: Nanos = 3_000_000_000;

/// How long a blast stays on the board: half a second.
pub const DEFAULT_EXPLOSION_DURATION: Nanos = 500_000_000;

/// A player.
#[derive(Debug, Clone, Copy)]
pub struct Player {
    pub pos: Coord,
    /// How many cells the blasts of this player's bombs reach.
    pub power: u32,
    /// How many bombs this player may have on the board at once.
    pub bomb_capacity: u32,
    /// Walking speed in thousandths.
    pub speed: u32,
    pub alive: bool,
    pub lives: u32,
    pub score: u32,
    /// Time left until the next move is allowed; none once it is not positive.
    pub move_cooldown: Nanos,
    /// Time left during which neither blasts nor enemies hurt this player.
    pub invincible_remaining: Nanos,
    /// Forced invincibility, switched by a hidden command.
    pub god_mode: bool,
}

/// How an enemy chooses its way.
#[derive(Debug, Clone, Copy, PartialEq, Eq, Structural)]
pub enum EnemyKind {
    Wander,
    Chaser,
    Avoider,
}

/// A computer-controlled enemy.
#[derive(Debug, Clone, Copy)]
pub struct Enemy {
    pub pos: Coord,
    pub kind: EnemyKind,
    pub alive: bool,
}

/// A bomb on the board.
#[derive(Debug, Clone, Copy)]
pub struct Bomb {
    pub pos: Coord,
    /// The index of the player who placed it.
    pub owner: usize,
    /// Time left until it goes off.
    pub timer: Nanos,
    pub power: u32,
}

/// A blast on the board.
#[derive(Debug, Clone)]
pub struct Explosion {
    pub cells: Vec<Coord>,
    /// Time left until it fades.
    pub remaining: Nanos,
}

/// A blast as a value.
#[verifier::ext_equal]
pub struct ExplosionView {
    pub cells: Seq<Coord>,
    pub remaining: Nanos,
}

impl View for Explosion {
    type V = ExplosionView;

    open spec fn view(&self) -> ExplosionView {
        ExplosionView { cells: self.cells@, remaining: self.remaining }
    }
}

impl Player {
    /// A player at the start of a game.
    pub open spec fn fresh(pos: Coord) -> Player {
        Player {
            pos,
            power: 1,
            bomb_capacity: 1,
            speed: NORMAL_SPEED,
            alive: true,
            lives: STARTING_LIVES,
            score: 0,
            move_cooldown: 0,
            invincible_remaining: 0,
            god_mode: false,
        }
    }

    /// Whether nothing can hurt this player now.
    pub open spec fn invincible(self) -> bool {
        self.god_mode || self.invincible_remaining > 0
    }

    /// A player at the start of a game.
    pub fn new(pos: Coord) -> (player: Player)
        ensures
            player == Player::fresh(pos),
    {
        Player {
            pos,
            power: 1,
            bomb_capacity: 1,
            speed: NORMAL_SPEED,
            alive: true,
            lives: STARTING_LIVES,
            score: 0,
            move_cooldown: 0,
            invincible_remaining: 0,
            god_mode: false,
        }
    }

    /// Whether nothing can hurt this player now.
    pub fn is_invincible(&self) -> (invincible: bool)
        ensures
            invincible == self.invincible(),
    {
        self.god_mode || self.invincible_remaining > 0
    }
}

impl Bomb {
    /// A bomb with a full fuse.
    pub fn new(pos: Coord, power: u32, owner: usize) -> (bomb: Bomb)
        ensures
            bomb == (Bomb { pos, owner, timer: DEFAULT_BOMB_TIMER, power }),
    {
        Bomb { pos, owner, timer: DEFAULT_BOMB_TIMER, power }
    }
}

impl Explosion {
    /// A blast over the given cells that has only just begun.
    pub fn new(cells: Vec<Coord>) -> (explosion: Explosion)
        ensures
            explosion@ == (ExplosionView {
                cells: cells@,
                remaining: DEFAULT_EXPLOSION_DURATION,
            }),
    {
        Explosion { cells, remaining: DEFAULT_EXPLOSION_DURATION }
    }
}

/// The four directions, in the order in which they are tried.
pub open spec fn directions() -> Seq<Direction> {
    seq![Direction::Up, Direction::Down, Direction::Left, Direction::Right]
}

/// The directions in which `pos` has a walkable neighbour, in the order tried.
pub open spec fn open_directions(map: MapView, pos: Coord) -> Seq<Direction> {
    directions().filter(|dir: Direction| map.walkable(geometry::stepped(pos, dir)))
}

/// Whether an enemy that may go in the directions `open` may choose `dir`.
///
/// - A wanderer takes any of them.
/// - A chaser takes the first of those that lead closest to the player.
/// - An avoider takes the last of those that lead farthest from the player.
///
/// An enemy that is shut in may choose any direction at all.
pub open spec fn may_choose(
    kind: EnemyKind,
    open: Seq<Direction>,
    from: Coord,
    player_pos: Coord,
    dir: Direction,
) -> bool {
    open.len() == 0 || match kind {
        EnemyKind::Wander => open.contains(dir),
        EnemyKind::Chaser => exists|i: int|
            geometry::first_least(#[trigger] geometry::distances_after(open, from, player_pos), i) && dir == open[i],
        EnemyKind::Avoider => exists|i: int|
            geometry::last_greatest(#[trigger] geometry::distances_after(open, from, player_pos), i) && dir == open[i],
    }
}

/// The directions in which `pos` has a walkable neighbour.
pub fn walkable_directions(map: &GameMap, pos: Coord) -> (open: Vec<Direction>)
    requires
        map.wf(),
        geometry::has_neighbours(pos),
    ensures
        open@ == open_directions(map@, pos),
        open@.len() <= 4,
{
    let all = [Direction::Up, Direction::Down, Direction::Left, Direction::Right];
    let ghost free = |dir: Direction| map@.walkable(geometry::stepped(pos, dir));
    let mut open: Vec<Direction> = Vec::new();
    assert(directions().take(0).filter(free) =~= Seq::<Direction>::empty()) by {
        reveal(Seq::filter);
    }
    for i in 0..4usize
        invariant
            map.wf(),
            geometry::has_neighbours(pos),
            all@ == directions(),
            free == (|dir: Direction| map@.walkable(geometry::stepped(pos, dir))),
            open@ == directions().take(i as int).filter(free),
            open@.len() <= i,
    {
        proof {
            reveal(Seq::filter);
            assert(directions().take(i + 1).drop_last() =~= directions().take(i as int));
            assert(directions().take(i + 1).last() == all@[i as int]);
        }
        if map.is_walkable(step(pos, all[i])) {
            open.push(all[i]);
        }
    }
    assert(directions().take(4) =~= directions());
    open
}

/// Picks a candidate at random; there is none to pick from an empty list.
pub fn random_direction(candidates: &[Direction]) -> (picked: Option<Direction>)
    ensures
        match picked {
            Some(dir) => candidates@.contains(dir),
            None => candidates@.len() == 0,
        },
{
    if candidates.len() == 0 {
        return None;
    }
    let picked = candidates[random_below(candidates.len())];
    Some(picked)
}

impl Enemy {
    /// A live enemy.
    pub fn new(pos: Coord, kind: EnemyKind) -> (enemy: Enemy)
        ensures
            enemy == (Enemy { pos, kind, alive: true }),
    {
        Enemy { pos, kind, alive: true }
    }

    /// Chooses where to go next, given the directions that are open, the player
    /// to go by, and a candidate picked at random.
    ///
    /// The random pick is what a wanderer does, and what any enemy does that is
    /// shut in.
    pub fn choose_direction(
        &self,
        open: &[Direction],
        player_pos: Coord,
        picked: Direction,
    ) -> (dir: Direction)
        requires
            geometry::has_neighbours(self.pos),
            !(self.kind is Wander) ==> geometry::distance(self.pos, player_pos) < i32::MAX,
            open@.len() > 0 ==> open@.contains(picked),
        ensures
            may_choose(self.kind, open@, self.pos, player_pos, dir),
            open@.len() == 0 || self.kind is Wander ==> dir == picked,
    {
        let chosen = match self.kind {
            EnemyKind::Wander => None,
            EnemyKind::Chaser => closest_direction(open, self.pos, player_pos),
            EnemyKind::Avoider => farthest_direction(open, self.pos, player_pos),
        };
        match chosen {
            Some(dir) => dir,
            None => picked,
        }
    }

    /// Chooses where to go next.
    ///
    /// An enemy that is shut in chooses any direction, so the caller has to see
    /// for itself whether the neighbour is walkable.
    pub fn decide_move(&self, map: &GameMap, player_pos: Coord) -> (dir: Direction)
        requires
            map.wf(),
            geometry::has_neighbours(self.pos),
            !(self.kind is Wander) ==> geometry::distance(self.pos, player_pos) < i32::MAX,
        ensures
            may_choose(self.kind, open_directions(map@, self.pos), self.pos, player_pos, dir),
    {
        let open = walkable_directions(map, self.pos);
        let picked = if open.len() == 0 {
            random_direction(
                &[Direction::Up, Direction::Down, Direction::Left, Direction::Right],
            ).unwrap()
        } else if matches!(self.kind, EnemyKind::Wander) {
            random_direction(&open).unwrap()
        } else {
            open[0]
        };
        self.choose_direction(&open, player_pos, picked)
    }
}

/// The cells that a blast entering from `pos` covers in one direction, at most
/// `reach` of them. A wall stops it short; a block is the last cell it covers.
pub open spec fn arm(map: MapView, pos: Coord, dir: Direction, reach: nat) -> Seq<Coord>
    decreases reach,
{
    if reach == 0 {
        seq![]
    } else {
        let next = geometry::stepped(pos, dir);
        match map.tile(next) {
            Tile::Wall => seq![],
            Tile::Block => seq![next],
            _ => seq![next] + arm(map, next, dir, (reach - 1) as nat),
        }
    }
}

/// The cells that a bomb covers: its own, and the four arms of the blast.
pub open spec fn blast(origin: Coord, power: nat, map: MapView) -> Seq<Coord> {
    seq![origin] + arm(map, origin, Direction::Up, power) + arm(
        map,
        origin,
        Direction::Down,
        power,
    ) + arm(map, origin, Direction::Left, power) + arm(map, origin, Direction::Right, power)
}

/// Adds one arm of a blast to `cells`.
fn extend_arm(cells: &mut Vec<Coord>, origin: Coord, dir: Direction, power: u32, map: &GameMap)
    requires
        map.wf(),
        map.width <= i32::MAX,
        map.height <= i32::MAX,
        geometry::has_neighbours(origin),
    ensures
        final(cells)@ == old(cells)@ + arm(map@, origin, dir, power as nat),
{
    let mut pos = origin;
    let mut left: u32 = power;
    while left > 0
        invariant_except_break
            old(cells)@ + arm(map@, origin, dir, power as nat) == cells@ + arm(
                map@,
                pos,
                dir,
                left as nat,
            ),
            geometry::has_neighbours(pos),
        invariant
            map.wf(),
            map.width <= i32::MAX,
            map.height <= i32::MAX,
        ensures
            cells@ == old(cells)@ + arm(map@, origin, dir, power as nat),
        decreases left,
    {
        let next = step(pos, dir);
        let ghost before = cells@;
        match map.tile_at(next) {
            Tile::Wall => {
                assert(before + Seq::<Coord>::empty() =~= before);
                break ;
            },
            Tile::Block => {
                cells.push(next);
                assert(before + seq![next] =~= cells@);
                break ;
            },
            Tile::Empty | Tile::ItemTile(_) => {
                cells.push(next);
                assert(before + (seq![next] + arm(map@, next, dir, (left - 1) as nat)) =~= cells@
                    + arm(map@, next, dir, (left - 1) as nat));
            },
        }
        pos = next;
        left = left - 1;
        assert(left == 0 ==> cells@ + arm(map@, pos, dir, 0) =~= cells@);
    }
}

/// The cells that a bomb at `origin` covers when it goes off.
///
/// The blast covers the cell of the bomb and runs up to `power` cells in each of
/// the four directions. It stops in front of a wall, and it covers the first
/// block it meets but nothing behind it.
pub fn explosion_cells(origin: Coord, power: u32, map: &GameMap) -> (cells: Vec<Coord>)
    requires
        map.wf(),
        map.width <= i32::MAX,
        map.height <= i32::MAX,
        geometry::has_neighbours(origin),
    ensures
        cells@ == blast(origin, power as nat, map@),
{
    let mut cells: Vec<Coord> = Vec::new();
    cells.push(origin);
    assert(cells@ =~= seq![origin]);
    extend_arm(&mut cells, origin, Direction::Up, power, map);
    extend_arm(&mut cells, origin, Direction::Down, power, map);
    extend_arm(&mut cells, origin, Direction::Left, power, map);
    extend_arm(&mut cells, origin, Direction::Right, power, map);
    cells
}

} // verus!
