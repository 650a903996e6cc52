//! Where players and enemies start.

use vstd::prelude::*;

use crate::game::entities::{Enemy, EnemyKind};
use crate::game::geometry;
use crate::game::geometry::{lists, manhattan};
use crate::game::map::{GameMap, MapView};
use crate::types::Coord;

verus! {

/// The most players that a game can have.
pub const MAX_PLAYERS: usize = 4;

/// The fewest players of a match between players.
pub const MIN_MULTIPLAYER_PLAYERS: usize = 2;

/// Where the first player starts; `GameMap::generate` always keeps it free.
pub const PLAYER_START: Coord = (1, 1);

/// Enemies start at least this far from the player where the board allows it.
pub const MIN_ENEMY_SPAWN_DISTANCE: i32 = 6;

/// The enemies of a solo game, one of each kind.
pub open spec fn enemy_kinds() -> Seq<EnemyKind> {
    seq![EnemyKind::Chaser, EnemyKind::Wander, EnemyKind::Avoider]
}

/// The size of a board, small enough for its cells to be told apart by distance.
pub open spec fn measurable(map: MapView) -> bool {
    &&& map.rectangular()
    &&& map.width <= geometry::COORD_LIMIT
    &&& map.height <= geometry::COORD_LIMIT
}

/// The cells of a board, row by row from the top, each row from the left.
pub open spec fn reading_order(map: MapView) -> Seq<Coord> {
    Seq::new(
        map.height * map.width,
        |k: int| ((k / map.width as int) as i32, (k % map.width as int) as i32),
    )
}

/// Goes through `order` and adds to `got` each cell that `fits` and is not there
/// yet, until `count` cells are there.
pub open spec fn gathered(
    order: Seq<Coord>,
    fits: spec_fn(Coord) -> bool,
    got: Seq<Coord>,
    count: nat,
) -> Seq<Coord>
    decreases order.len(),
{
    if order.len() == 0 || got.len() >= count {
        got
    } else if fits(order[0]) && !got.contains(order[0]) {
        gathered(order.drop_first(), fits, got.push(order[0]), count)
    } else {
        gathered(order.drop_first(), fits, got, count)
    }
}

/// The cells on which somebody can be put, apart from `avoid`.
pub open spec fn standable(map: MapView, avoid: Option<Coord>) -> spec_fn(Coord) -> bool {
    |pos: Coord| Some(pos) != avoid && map.walkable(pos)
}

/// The standable cells that are a good way off `avoid`.
pub open spec fn remote(map: MapView, avoid: Coord) -> spec_fn(Coord) -> bool {
    |pos: Coord|
        pos != avoid && map.walkable(pos) && geometry::distance(pos, avoid)
            >= MIN_ENEMY_SPAWN_DISTANCE
}

/// Up to `count` walkable cells other than `avoid`: first the remote ones, from
/// the bottom right corner on, and where they do not suffice the others, from
/// the top left corner on.
pub open spec fn spawns_away(map: MapView, count: nat, avoid: Coord) -> Seq<Coord> {
    let far = gathered(reading_order(map).reverse(), remote(map, avoid), seq![], count);
    gathered(reading_order(map), standable(map, Some(avoid)), far, count)
}

/// The enemies of a solo game on that board.
pub open spec fn spawned_enemies(map: MapView) -> Seq<Enemy> {
    let spawns = spawns_away(map, enemy_kinds().len(), PLAYER_START);
    Seq::new(
        spawns.len(),
        |i: int| Enemy { pos: spawns[i], kind: enemy_kinds()[i], alive: true },
    )
}

/// The corners of the board, inside its outer wall: top left, top right, bottom
/// left, bottom right.
pub open spec fn corners(map: MapView) -> Seq<Coord> {
    let last_row = (map.height - 2) as i32;
    let last_col = (map.width - 2) as i32;
    seq![PLAYER_START, (1, last_col), (last_row, 1), (last_row, last_col)]
}

/// Whether `a` comes before `b` in reading order.
pub open spec fn read_before(a: Coord, b: Coord) -> bool {
    a.0 < b.0 || (a.0 == b.0 && a.1 < b.1)
}

/// Whether `pos` is walkable and not taken.
pub open spec fn available(map: MapView, taken: Seq<Coord>, pos: Coord) -> bool {
    map.walkable(pos) && !taken.contains(pos)
}

/// Whether `pos` is the available cell closest to `anchor`; of several that are
/// equally close, the first in reading order.
pub open spec fn nearest_available(
    map: MapView,
    anchor: Coord,
    taken: Seq<Coord>,
    pos: Coord,
) -> bool {
    &&& available(map, taken, pos)
    &&& forall|other: Coord| #[trigger]
        available(map, taken, other) && other != pos ==> {
            ||| geometry::distance(pos, anchor) < geometry::distance(other, anchor)
            ||| geometry::distance(pos, anchor) == geometry::distance(other, anchor)
                && read_before(pos, other)
        }
}

/// The available cell closest to `anchor`, if any cell is available.
pub open spec fn nearest(map: MapView, anchor: Coord, taken: Seq<Coord>) -> Option<Coord> {
    if exists|pos: Coord| nearest_available(map, anchor, taken, pos) {
        Some(choose|pos: Coord| nearest_available(map, anchor, taken, pos))
    } else {
        None
    }
}

/// Starting cells taken one after the other, each as close as possible to its
/// own corner, for the first `count` corners.
pub open spec fn corner_spawns(map: MapView, count: nat) -> Seq<Coord>
    decreases count,
{
    if count == 0 {
        seq![]
    } else {
        let before = corner_spawns(map, (count - 1) as nat);
        match nearest(map, corners(map)[count - 1], before) {
            Some(pos) => before.push(pos),
            None => before,
        }
    }
}

/// Starting cells of a match between `count` players. Past the fourth, players
/// are put on the walkable cells left, from the top left corner on.
pub open spec fn player_spawns(map: MapView, count: nat) -> Seq<Coord> {
    let at_corners = corner_spawns(
        map,
        if count < MAX_PLAYERS {
            count
        } else {
            MAX_PLAYERS as nat
        },
    );
    gathered(reading_order(map), standable(map, None), at_corners, count)
}

/// Where a cell comes in reading order.
proof fn lemma_reading_order(map: MapView, row: int, col: int)
    requires
        0 <= row < map.height,
        0 <= col < map.width,
        map.height <= i32::MAX,
        map.width <= i32::MAX,
    ensures
        0 <= row * map.width + col < map.height * map.width,
        reading_order(map)[row * map.width + col] == (row as i32, col as i32),
{
    let w = map.width as int;
    assert(0 <= row * w + col < map.height * w) by (nonlinear_arith)
        requires
            0 <= row < map.height,
            0 <= col < w,
    ;
    vstd::arithmetic::div_mod::lemma_fundamental_div_mod_converse(row * w + col, w, row, col);
}

/// Adds walkable cells other than `avoid` to `got`, in reading order, until there
/// are `count` of them.
fn gather_in_order(map: &GameMap, avoid: Option<Coord>, got: Vec<Coord>, count: usize) -> (cells: Vec<Coord>)
    requires
        map.wf(),
        measurable(map@),
    ensures
        cells@ == gathered(reading_order(map@), standable(map@, avoid), got@, count as nat),
{
    let ghost order = reading_order(map@);
    let ghost fits = standable(map@, avoid);
    let mut cells = got;
    let rows = map.height as i32;
    let cols = map.width as i32;
    let mut row: i32 = 0;
    let ghost mut k: int = 0;
    assert(order.skip(0) =~= order);
    while row < rows
        invariant
            map.wf(),
            measurable(map@),
            rows == map@.height,
            cols == map@.width,
            0 <= row <= rows,
            order == reading_order(map@),
            fits == standable(map@, avoid),
            k == row * cols,
            gathered(order, fits, got@, count as nat) == gathered(
                order.skip(k),
                fits,
                cells@,
                count as nat,
            ),
        decreases rows - row,
    {
        let mut col: i32 = 0;
        while col < cols
            invariant
                map.wf(),
                measurable(map@),
                rows == map@.height,
                cols == map@.width,
                0 <= row < rows,
                0 <= col <= cols,
                order == reading_order(map@),
                fits == standable(map@, avoid),
                k == row * cols + col,
                gathered(order, fits, got@, count as nat) == gathered(
                    order.skip(k),
                    fits,
                    cells@,
                    count as nat,
                ),
            decreases cols - col,
        {
            if cells.len() >= count {
                return cells;
            }
            let pos: Coord = (row, col);
            proof {
                lemma_reading_order(map@, row as int, col as int);
                assert(order.skip(k)[0] == pos);
                assert(order.skip(k).drop_first() =~= order.skip(k + 1));
            }
            let avoided = match avoid {
                Some(cell) => cell.0 == pos.0 && cell.1 == pos.1,
                None => false,
            };
            if !avoided && map.is_walkable(pos) && !lists(&cells, pos) {
                cells.push(pos);
            }
            col = col + 1;
            proof {
                k = k + 1;
            }
        }
        row = row + 1;
        assert(k == row * cols) by (nonlinear_arith)
            requires
                k == (row - 1) * cols + cols,
        ;
    }
    assert(order.skip(k) =~= Seq::<Coord>::empty());
    cells
}

/// Gathers remote cells against reading order until there are `count` of them.
fn gather_remote(map: &GameMap, avoid: Coord, count: usize) -> (cells: Vec<Coord>)
    requires
        map.wf(),
        measurable(map@),
        geometry::in_range(avoid),
    ensures
        cells@ == gathered(
            reading_order(map@).reverse(),
            remote(map@, avoid),
            seq![],
            count as nat,
        ),
{
    let ghost order = reading_order(map@).reverse();
    let ghost fits = remote(map@, avoid);
    let mut cells: Vec<Coord> = Vec::with_capacity(count);
    let rows = map.height as i32;
    let cols = map.width as i32;
    let mut row: i32 = rows;
    let ghost mut k: int = 0;
    assert(order.skip(0) =~= order);
    assert(cells@ =~= seq![]);
    while row > 0
        invariant
            map.wf(),
            measurable(map@),
            geometry::in_range(avoid),
            rows == map@.height,
            cols == map@.width,
            0 <= row <= rows,
            order == reading_order(map@).reverse(),
            fits == remote(map@, avoid),
            k == (rows - row) * cols,
            gathered(order, fits, seq![], count as nat) == gathered(
                order.skip(k),
                fits,
                cells@,
                count as nat,
            ),
        decreases row,
    {
        row = row - 1;
        let mut col: i32 = cols;
        assert(k == (rows - 1 - row) * cols + (cols - col)) by (nonlinear_arith)
            requires
                k == (rows - (row + 1)) * cols,
                col == cols,
        ;
        while col > 0
            invariant
                map.wf(),
                measurable(map@),
                geometry::in_range(avoid),
                rows == map@.height,
                cols == map@.width,
                0 <= row < rows,
                0 <= col <= cols,
                order == reading_order(map@).reverse(),
                fits == remote(map@, avoid),
                k == (rows - 1 - row) * cols + (cols - col),
                gathered(order, fits, seq![], count as nat) == gathered(
                    order.skip(k),
                    fits,
                    cells@,
                    count as nat,
                ),
            decreases col,
        {
            if cells.len() >= count {
                return cells;
            }
            col = col - 1;
            let pos: Coord = (row, col);
            proof {
                lemma_reading_order(map@, row as int, col as int);
                assert(k == rows * cols - 1 - (row * cols + col)) by (nonlinear_arith)
                    requires
                        k == (rows - 1 - row) * cols + (cols - (col + 1)),
                ;
                assert(order.skip(k)[0] == pos);
                assert(order.skip(k).drop_first() =~= order.skip(k + 1));
            }
            let avoided = pos.0 == avoid.0 && pos.1 == avoid.1;
            if !avoided && !lists(&cells, pos) && map.is_walkable(pos) && manhattan(pos, avoid)
                >= MIN_ENEMY_SPAWN_DISTANCE {
                cells.push(pos);
            }
            proof {
                k = k + 1;
            }
        }
        assert(k == (rows - row) * cols) by (nonlinear_arith)
            requires
                k == (rows - 1 - row) * cols + cols,
        ;
    }
    assert(order.skip(k) =~= Seq::<Coord>::empty());
    cells
}

/// Looks for `count` walkable cells as far as possible from `avoid`.
pub fn spawn_positions(map: &GameMap, count: usize, avoid: Coord) -> (cells: Vec<Coord>)
    requires
        map.wf(),
        measurable(map@),
        geometry::in_range(avoid),
    ensures
        cells@ == spawns_away(map@, count as nat, avoid),
{
    let far = gather_remote(map, avoid, count);
    gather_in_order(map, Some(avoid), far, count)
}

/// Puts the enemies of a solo game on the board.
pub fn spawn_enemies(map: &GameMap) -> (enemies: Vec<Enemy>)
    requires
        map.wf(),
        measurable(map@),
    ensures
        enemies@ == spawned_enemies(map@),
{
    let kinds = [EnemyKind::Chaser, EnemyKind::Wander, EnemyKind::Avoider];
    let spawns = spawn_positions(map, 3, PLAYER_START);
    proof {
        assert(kinds@ =~= enemy_kinds());
        lemma_gathered_len(
            reading_order(map@).reverse(),
            remote(map@, PLAYER_START),
            seq![],
            3,
        );
        lemma_gathered_len(
            reading_order(map@),
            standable(map@, Some(PLAYER_START)),
            gathered(reading_order(map@).reverse(), remote(map@, PLAYER_START), seq![], 3),
            3,
        );
    }
    let mut enemies: Vec<Enemy> = Vec::new();
    for i in 0..spawns.len()
        invariant
            kinds@ == enemy_kinds(),
            spawns@.len() <= 3,
            enemies@.len() == i,
            forall|j: int|
                0 <= j < i ==> #[trigger] enemies@[j] == (Enemy {
                    pos: spawns@[j],
                    kind: enemy_kinds()[j],
                    alive: true,
                }),
    {
        enemies.push(Enemy::new(spawns[i], kinds[i]));
    }
    assert(enemies@ =~= spawned_enemies(map@));
    enemies
}

/// Gathering never exceeds the number asked for, unless more were there before.
proof fn lemma_gathered_len(
    order: Seq<Coord>,
    fits: spec_fn(Coord) -> bool,
    got: Seq<Coord>,
    count: nat,
)
    requires
        got.len() <= count,
    ensures
        got.len() <= gathered(order, fits, got, count).len() <= count,
    decreases order.len(),
{
    if order.len() == 0 || got.len() >= count {
    } else if fits(order[0]) && !got.contains(order[0]) {
        lemma_gathered_len(order.drop_first(), fits, got.push(order[0]), count);
    } else {
        lemma_gathered_len(order.drop_first(), fits, got, count);
    }
}

/// The corners of the board, inside its outer wall.
pub fn corner_anchors(map: &GameMap) -> (anchors: [Coord; 4])
    requires
        map.wf(),
        map.width <= i32::MAX,
        map.height <= i32::MAX,
    ensures
        anchors@ == corners(map@),
{
    let last_row = map.height as i32 - 2;
    let last_col = map.width as i32 - 2;
    let anchors = [PLAYER_START, (1, last_col), (last_row, 1), (last_row, last_col)];
    assert(anchors@ =~= corners(map@));
    anchors
}

/// The available cell closest to `anchor`; of several that are equally close, the
/// first in reading order.
pub fn nearest_walkable(map: &GameMap, anchor: Coord, taken: &[Coord]) -> (found: Option<Coord>)
    requires
        map.wf(),
        measurable(map@),
        geometry::in_range(anchor),
    ensures
        found == nearest(map@, anchor, taken@),
        match found {
            Some(pos) => nearest_available(map@, anchor, taken@, pos),
            None => forall|pos: Coord| !available(map@, taken@, pos),
        },
{
    let mut best: Option<(i32, Coord)> = None;
    let rows = map.height as i32;
    let cols = map.width as i32;
    let mut row: i32 = 0;
    while row < rows
        invariant
            map.wf(),
            measurable(map@),
            geometry::in_range(anchor),
            rows == map@.height,
            cols == map@.width,
            0 <= row <= rows,
            best_so_far(map@, anchor, taken@, best, (row, 0)),
        decreases rows - row,
    {
        let mut col: i32 = 0;
        while col < cols
            invariant
                map.wf(),
                measurable(map@),
                geometry::in_range(anchor),
                rows == map@.height,
                cols == map@.width,
                0 <= row < rows,
                0 <= col <= cols,
                best_so_far(map@, anchor, taken@, best, (row, col)),
            decreases cols - col,
        {
            let pos: Coord = (row, col);
            let ghost next: Coord = (row, (col + 1) as i32);
            assert(forall|other: Coord| #[trigger]
                read_before(other, next) ==> read_before(other, pos) || other == pos);
            if map.is_walkable(pos) && !lists(taken, pos) {
                let d = manhattan(pos, anchor);
                let closer = match best {
                    Some((best_distance, _)) => d < best_distance,
                    None => true,
                };
                if closer {
                    best = Some((d, pos));
                }
            }
            col = col + 1;
        }
        row = row + 1;
        assert(best_so_far(map@, anchor, taken@, best, (row, 0))) by {
            assert(forall|other: Coord| #[trigger]
                available(map@, taken@, other) && read_before(other, (row, 0)) ==> read_before(
                    other,
                    ((row - 1) as i32, cols),
                ));
        }
    }
    proof {
        assert(forall|other: Coord| #[trigger]
            available(map@, taken@, other) ==> read_before(other, (row, 0)));
        match best {
            Some((_, pos)) => {
                assert(nearest_available(map@, anchor, taken@, pos));
                lemma_nearest_unique(map@, anchor, taken@, pos);
            },
            None => {
                assert(forall|pos: Coord| !nearest_available(map@, anchor, taken@, pos));
            },
        }
    }
    match best {
        Some((_, pos)) => Some(pos),
        None => None,
    }
}

/// Whether `best` is the closest of the available cells before `here`, with its
/// distance.
spec fn best_so_far(
    map: MapView,
    anchor: Coord,
    taken: Seq<Coord>,
    best: Option<(i32, Coord)>,
    here: Coord,
) -> bool {
    match best {
        Some((d, pos)) => {
            &&& d == geometry::distance(pos, anchor)
            &&& available(map, taken, pos)
            &&& read_before(pos, here)
            &&& forall|other: Coord| #[trigger]
                available(map, taken, other) && read_before(other, here) && other != pos ==> {
                    ||| geometry::distance(pos, anchor) < geometry::distance(other, anchor)
                    ||| geometry::distance(pos, anchor) == geometry::distance(other, anchor)
                        && read_before(pos, other)
                }
        },
        None => forall|other: Coord| #[trigger]
            available(map, taken, other) ==> !read_before(other, here),
    }
}

/// There is only one closest cell.
proof fn lemma_nearest_unique(map: MapView, anchor: Coord, taken: Seq<Coord>, pos: Coord)
    requires
        nearest_available(map, anchor, taken, pos),
    ensures
        nearest(map, anchor, taken) == Some(pos),
{
    let chosen = choose|other: Coord| nearest_available(map, anchor, taken, other);
    assert(nearest_available(map, anchor, taken, chosen));
    assert(available(map, taken, chosen) && available(map, taken, pos));
}

/// Starting cells of a match between `count` players.
///
/// A corner may be filled up with blocks, so each player gets the walkable cell
/// closest to the player's corner that is not taken yet. No two players share a
/// cell.
pub fn player_spawn_positions(map: &GameMap, count: usize) -> (cells: Vec<Coord>)
    requires
        map.wf(),
        measurable(map@),
    ensures
        cells@ == player_spawns(map@, count as nat),
{
    let anchors = corner_anchors(map);
    let mut cells: Vec<Coord> = Vec::with_capacity(count);
    let corner_count: usize = if count < MAX_PLAYERS {
        count
    } else {
        MAX_PLAYERS
    };
    assert(cells@ =~= corner_spawns(map@, 0));
    for i in 0..corner_count
        invariant
            map.wf(),
            measurable(map@),
            anchors@ == corners(map@),
            corner_count <= 4,
            cells@ == corner_spawns(map@, i as nat),
    {
        if let Some(pos) = nearest_walkable(map, anchors[i], &cells) {
            cells.push(pos);
        }
    }
    gather_in_order(map, None, cells, count)
}

/// What gathering adds: cells that fit, each once; and all of them, unless the
/// number asked for is reached.
pub proof fn lemma_gathered(
    order: Seq<Coord>,
    fits: spec_fn(Coord) -> bool,
    got: Seq<Coord>,
    count: nat,
)
    requires
        got.no_duplicates(),
    ensures
        gathered(order, fits, got, count).no_duplicates(),
        got.len() <= gathered(order, fits, got, count).len(),
        forall|i: int|
            0 <= i < got.len() ==> #[trigger] gathered(order, fits, got, count)[i] == got[i],
        forall|i: int|
            got.len() <= i < gathered(order, fits, got, count).len() ==> fits(
                #[trigger] gathered(order, fits, got, count)[i],
            ),
        gathered(order, fits, got, count).len() < count ==> forall|k: int|
            0 <= k < order.len() && fits(#[trigger] order[k]) ==> gathered(
                order,
                fits,
                got,
                count,
            ).contains(order[k]),
    decreases order.len(),
{
    if order.len() > 0 && got.len() < count {
        let rest = order.drop_first();
        let all = gathered(order, fits, got, count);
        if fits(order[0]) && !got.contains(order[0]) {
            let more = got.push(order[0]);
            lemma_gathered(rest, fits, more, count);
            assert(all[got.len() as int] == more[got.len() as int]);
            assert forall|i: int| 0 <= i < got.len() implies #[trigger] all[i] == got[i] by {
                assert(all[i] == more[i]);
            }
            assert forall|i: int| got.len() <= i < all.len() implies fits(#[trigger] all[i]) by {
                if i > got.len() {
                    assert(fits(gathered(rest, fits, more, count)[i]));
                }
            }
            assert(all.contains(order[0]));
        } else {
            lemma_gathered(rest, fits, got, count);
            if fits(order[0]) {
                let j = choose|j: int| 0 <= j < got.len() && got[j] == order[0];
                assert(all[j] == order[0]);
            }
        }
        if all.len() < count {
            assert forall|k: int| 0 <= k < order.len() && fits(#[trigger] order[k]) implies all.contains(
                order[k],
            ) by {
                if k > 0 {
                    assert(rest[k - 1] == order[k]);
                }
            }
        }
    }
}

/// Every cell of the board comes up in reading order.
proof fn lemma_reading_order_complete(map: MapView, pos: Coord)
    requires
        measurable(map),
        map.contains(pos),
    ensures
        reading_order(map).contains(pos),
        reading_order(map).reverse().contains(pos),
{
    let k = pos.0 * map.width + pos.1;
    let order = reading_order(map);
    lemma_reading_order(map, pos.0 as int, pos.1 as int);
    assert(order[k] == pos);
    assert(order.reverse()[order.len() - 1 - k] == pos);
}

/// The starting cells at the corners are walkable and distinct, and there is one
/// for each corner unless the board has no cell left.
proof fn lemma_corner_spawns(map: MapView, count: nat)
    requires
        measurable(map),
    ensures
        corner_spawns(map, count).no_duplicates(),
        corner_spawns(map, count).len() <= count,
        forall|i: int|
            0 <= i < corner_spawns(map, count).len() ==> map.walkable(
                #[trigger] corner_spawns(map, count)[i],
            ),
        count > 0 && map.walkable(PLAYER_START) ==> corner_spawns(map, count).len() > 0
            && corner_spawns(map, count)[0] == PLAYER_START,
    decreases count,
{
    if count > 0 {
        let before = corner_spawns(map, (count - 1) as nat);
        lemma_corner_spawns(map, (count - 1) as nat);
        let anchor = corners(map)[count - 1];
        if let Some(pos) = nearest(map, anchor, before) {
            assert(nearest_available(map, anchor, before, pos));
        }
        if count == 1 && map.walkable(PLAYER_START) {
            assert(available(map, before, PLAYER_START));
            assert(nearest_available(map, anchor, before, PLAYER_START));
            lemma_nearest_unique(map, anchor, before, PLAYER_START);
        }
    }
}

/// The starting cells of a match are walkable and no two players share one. There
/// are fewer than asked for only if the board has no walkable cell left, and the
/// first player starts in the top left corner if that is walkable.
pub proof fn lemma_player_spawns(map: MapView, count: nat)
    requires
        measurable(map),
    ensures
        player_spawns(map, count).no_duplicates(),
        player_spawns(map, count).len() <= count,
        forall|i: int|
            0 <= i < player_spawns(map, count).len() ==> map.walkable(
                #[trigger] player_spawns(map, count)[i],
            ),
        player_spawns(map, count).len() < count ==> forall|pos: Coord| #[trigger]
            map.walkable(pos) ==> player_spawns(map, count).contains(pos),
        count > 0 && map.walkable(PLAYER_START) ==> player_spawns(map, count).len() > 0
            && player_spawns(map, count)[0] == PLAYER_START,
{
    let corner_count = if count < MAX_PLAYERS {
        count
    } else {
        MAX_PLAYERS as nat
    };
    let at_corners = corner_spawns(map, corner_count);
    let order = reading_order(map);
    let fits = standable(map, None);
    let all = player_spawns(map, count);
    lemma_corner_spawns(map, corner_count);
    lemma_gathered(order, fits, at_corners, count);
    lemma_gathered_len(order, fits, at_corners, count);
    assert forall|i: int| 0 <= i < all.len() implies map.walkable(#[trigger] all[i]) by {
        if i < at_corners.len() {
            assert(all[i] == at_corners[i]);
        } else {
            assert(fits(all[i]));
        }
    }
    if all.len() < count {
        assert forall|pos: Coord| #[trigger] map.walkable(pos) implies all.contains(pos) by {
            lemma_reading_order_complete(map, pos);
            let k = choose|k: int| 0 <= k < order.len() && order[k] == pos;
            assert(fits(order[k]));
        }
    }
    if count > 0 && map.walkable(PLAYER_START) {
        assert(all[0] == at_corners[0]);
    }
}

/// The cells found away from `avoid` are walkable and distinct, and `avoid` is not
/// among them. There are fewer than asked for only if the board has no other
/// walkable cell left, and a cell near `avoid` is used only if all the remote ones
/// are.
pub proof fn lemma_spawns_away(map: MapView, count: nat, avoid: Coord)
    requires
        measurable(map),
    ensures
        spawns_away(map, count, avoid).no_duplicates(),
        spawns_away(map, count, avoid).len() <= count,
        forall|i: int|
            0 <= i < spawns_away(map, count, avoid).len() ==> map.walkable(
                #[trigger] spawns_away(map, count, avoid)[i],
            ) && spawns_away(map, count, avoid)[i] != avoid,
        spawns_away(map, count, avoid).len() < count ==> forall|pos: Coord| #[trigger]
            map.walkable(pos) && pos != avoid ==> spawns_away(map, count, avoid).contains(pos),
        forall|i: int, pos: Coord|
            0 <= i < spawns_away(map, count, avoid).len() && geometry::distance(
                #[trigger] spawns_away(map, count, avoid)[i],
                avoid,
            ) < MIN_ENEMY_SPAWN_DISTANCE && map.walkable(pos) && #[trigger] geometry::distance(pos, avoid)
                >= MIN_ENEMY_SPAWN_DISTANCE ==> spawns_away(map, count, avoid).contains(pos),
{
    let order = reading_order(map);
    let back = order.reverse();
    let none = Seq::<Coord>::empty();
    let far = gathered(back, remote(map, avoid), none, count);
    let fits = standable(map, Some(avoid));
    let all = spawns_away(map, count, avoid);
    lemma_gathered(back, remote(map, avoid), none, count);
    lemma_gathered_len(back, remote(map, avoid), none, count);
    lemma_gathered(order, fits, far, count);
    lemma_gathered_len(order, fits, far, count);
    assert forall|i: int| 0 <= i < all.len() implies map.walkable(#[trigger] all[i]) && all[i]
        != avoid by {
        if i < far.len() {
            assert(all[i] == far[i]);
            assert(remote(map, avoid)(far[i]));
        } else {
            assert(fits(all[i]));
        }
    }
    if all.len() < count {
        assert forall|pos: Coord| #[trigger] map.walkable(pos) && pos != avoid implies all.contains(
            pos,
        ) by {
            lemma_reading_order_complete(map, pos);
            let k = choose|k: int| 0 <= k < order.len() && order[k] == pos;
            assert(fits(order[k]));
        }
    }
    assert forall|i: int, pos: Coord|
        0 <= i < all.len() && geometry::distance(#[trigger] all[i], avoid)
            < MIN_ENEMY_SPAWN_DISTANCE && map.walkable(pos) && #[trigger] geometry::distance(pos, avoid)
            >= MIN_ENEMY_SPAWN_DISTANCE implies all.contains(pos) by {
        if i < far.len() {
            assert(all[i] == far[i]);
            assert(remote(map, avoid)(far[i]));
        }
        assert(far.len() < count);
        lemma_reading_order_complete(map, pos);
        let k = choose|k: int| 0 <= k < back.len() && back[k] == pos;
        assert(remote(map, avoid)(back[k]));
        assert(far.contains(pos));
        let j = choose|j: int| 0 <= j < far.len() && far[j] == pos;
        assert(all[j] == pos);
    }
}

} // verus!
