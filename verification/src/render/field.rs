//! The picture of the board and everybody on it.

use vstd::prelude::*;

use crate::game::entities::{Bomb, Enemy, EnemyKind, Explosion, ExplosionView, Player};
use crate::game::geometry;
use crate::game::geometry::lists;
use crate::game::map::MapView;
use crate::game::rules::GameView;
use crate::game::state::GameState;
use crate::render::pixel_canvas::{CanvasView, PixelCanvas};
use crate::render::sprites;
use crate::render::sprites::{
    block_sprite, bomb_sprite, enemy_sprite, explosion_sprite, item_sprite, player_sprite,
    player_sprite_with_suit, wall_sprite, EnemyColor, PlayerColor, Sprite, SPRITE_SIZE,
};
use crate::render::Color;
use crate::types::{Coord, ItemKind, Nanos, Tile, SECOND};

verus! {

/// A picture as a value: its letters, and what they stand for.
pub struct Drawing {
    pub art: Seq<Seq<char>>,
    pub palette: Seq<(char, Color)>,
}

/// One picture on top of another, through which the lower one shows where the
/// upper one is transparent.
pub open spec fn layered(
    below: spec_fn(int, int) -> Color,
    above: Option<Drawing>,
) -> spec_fn(int, int) -> Color {
    |dx: int, dy: int|
        match above {
            Some(drawing) => match sprites::color_of(drawing.palette, drawing.art[dy][dx]) {
                Some(color) => color,
                None => below(dx, dy),
            },
            None => below(dx, dy),
        }
}

/// The colour of the ground: a pattern of two greens.
pub open spec fn ground(pos: Coord) -> Color {
    if (pos.0 + pos.1) % 2 == 0 {
        Color::Rgb(8, 90, 28)
    } else {
        Color::Rgb(34, 160, 60)
    }
}

/// What is drawn for a tile.
pub open spec fn tile_drawing(tile: Tile) -> Option<Drawing> {
    match tile {
        Tile::Empty => None,
        Tile::Wall => Some(
            Drawing { art: sprites::wall_art(), palette: sprites::wall_palette() },
        ),
        Tile::Block => Some(
            Drawing { art: sprites::block_art(), palette: sprites::block_palette() },
        ),
        Tile::ItemTile(kind) => Some(
            Drawing { art: sprites::item_art(), palette: sprites::item_palette(kind) },
        ),
    }
}

/// Whether the fuse glows: on and off, six times in the last second.
pub open spec fn fuse_glows(timer: Nanos) -> bool {
    timer < SECOND && (geometry::gap(timer as int, 0) * 6 / SECOND as int) % 2 == 0
}

/// The first bomb in a cell.
pub open spec fn first_bomb_at(bombs: Seq<Bomb>, pos: Coord) -> Option<Bomb>
    decreases bombs.len(),
{
    if bombs.len() == 0 {
        None
    } else if bombs[0].pos == pos {
        Some(bombs[0])
    } else {
        first_bomb_at(bombs.drop_first(), pos)
    }
}

/// The first live enemy in a cell.
pub open spec fn first_enemy_at(enemies: Seq<Enemy>, pos: Coord) -> Option<Enemy>
    decreases enemies.len(),
{
    if enemies.len() == 0 {
        None
    } else if enemies[0].alive && enemies[0].pos == pos {
        Some(enemies[0])
    } else {
        first_enemy_at(enemies.drop_first(), pos)
    }
}

/// What is drawn for the bomb in a cell.
pub open spec fn bomb_drawing(bombs: Seq<Bomb>, pos: Coord) -> Option<Drawing> {
    match first_bomb_at(bombs, pos) {
        Some(bomb) => Some(
            Drawing {
                art: sprites::bomb_art(),
                palette: sprites::bomb_palette(fuse_glows(bomb.timer)),
            },
        ),
        None => None,
    }
}

/// The colour of each kind of enemy.
pub open spec fn color_of_kind(kind: EnemyKind) -> EnemyColor {
    match kind {
        EnemyKind::Wander => EnemyColor::Magenta,
        EnemyKind::Chaser => EnemyColor::Red,
        EnemyKind::Avoider => EnemyColor::Blue,
    }
}

/// What is drawn for the enemy in a cell.
pub open spec fn enemy_drawing(enemies: Seq<Enemy>, pos: Coord) -> Option<Drawing> {
    match first_enemy_at(enemies, pos) {
        Some(enemy) => Some(
            Drawing {
                art: sprites::enemy_art(),
                palette: sprites::enemy_palette(color_of_kind(enemy.kind)),
            },
        ),
        None => None,
    }
}

/// The suits that a player flashes through while invincible.
pub open spec fn flashing_suit(step: int) -> (Color, Color) {
    if step == 0 {
        (Color::Rgb(235, 238, 242), Color::Rgb(255, 255, 255))
    } else if step == 1 {
        (Color::Rgb(90, 220, 230), Color::Rgb(160, 245, 250))
    } else if step == 2 {
        (Color::Rgb(230, 90, 220), Color::Rgb(250, 160, 245))
    } else {
        (Color::Rgb(255, 235, 90), Color::Rgb(255, 250, 170))
    }
}

/// The suit of a player: gold under forced invincibility, flashing ten times a
/// second while an item lasts, white otherwise.
pub open spec fn suit_now(player: Player) -> (Color, Color) {
    if player.god_mode {
        (Color::Rgb(255, 215, 0), Color::Rgb(255, 240, 140))
    } else if player.invincible_remaining > 0 {
        flashing_suit((player.invincible_remaining * 10 / SECOND as int) % 4)
    } else {
        sprites::suit_of(PlayerColor::White)
    }
}

/// What is drawn for the first player, in the player's cell.
pub open spec fn player_drawing(players: Seq<Player>, pos: Coord) -> Option<Drawing> {
    if players.len() > 0 && players[0].alive && players[0].pos == pos {
        let suit = suit_now(players[0]);
        Some(
            Drawing {
                art: sprites::player_art(),
                palette: sprites::player_palette(suit.0, suit.1),
            },
        )
    } else {
        None
    }
}

/// Whether a blast covers a cell.
pub open spec fn ablaze(explosions: Seq<ExplosionView>, pos: Coord) -> bool {
    exists|i: int| 0 <= i < explosions.len() && (#[trigger] explosions[i]).cells.contains(pos)
}

/// What is drawn for the blasts in a cell.
pub open spec fn blast_drawing(explosions: Seq<ExplosionView>, pos: Coord) -> Option<Drawing> {
    if ablaze(explosions, pos) {
        Some(
            Drawing { art: sprites::explosion_art(), palette: sprites::explosion_palette() },
        )
    } else {
        None
    }
}

/// The picture of one cell of the board, from back to front: ground, tile, bomb,
/// enemy, player, blast.
pub open spec fn cell_picture(game: GameView, pos: Coord) -> spec_fn(int, int) -> Color {
    layered(
        layered(
            layered(
                layered(
                    layered(|dx: int, dy: int| ground(pos), tile_drawing(game.map.tile(pos))),
                    bomb_drawing(game.bombs, pos),
                ),
                enemy_drawing(game.enemies, pos),
            ),
            player_drawing(game.players, pos),
        ),
        blast_drawing(game.explosions, pos),
    )
}

/// The colour of a pixel of the picture of the board.
pub open spec fn field_color(game: GameView, x: int, y: int) -> Color {
    cell_picture(game, ((y / 8) as i32, (x / 8) as i32))(x % 8, y % 8)
}

/// Whether the block of pixels with its top left in the given place shows the
/// picture, and the rest of the grid is as it was.
pub open spec fn block_shows(
    before: CanvasView,
    after: CanvasView,
    ox: int,
    oy: int,
    picture: spec_fn(int, int) -> Color,
) -> bool {
    &&& after.complete()
    &&& after.width == before.width
    &&& after.height == before.height
    &&& forall|u: int, v: int|
        #![trigger after.color(u, v)]
        after.has(u, v) ==> after.color(u, v) == if ox <= u < ox + 8 && oy <= v < oy + 8 {
            picture(u - ox, v - oy)
        } else {
            before.color(u, v)
        }
}

/// The colour of the ground.
pub fn grass_bg(pos: Coord) -> (color: Color)
    requires
        i32::MIN <= pos.0 + pos.1 <= i32::MAX,
    ensures
        color == ground(pos),
{
    let even = (pos.0 as i64 + pos.1 as i64 + 4_294_967_296) as u64 % 2 == 0;
    if even {
        Color::Rgb(8, 90, 28)
    } else {
        Color::Rgb(34, 160, 60)
    }
}

/// Paints the ground of a cell.
fn fill_grass_bg(canvas: &mut PixelCanvas, ox: usize, oy: usize, pos: Coord)
    requires
        old(canvas).wf(),
        ox + 8 <= usize::MAX,
        oy + 8 <= usize::MAX,
        i32::MIN <= pos.0 + pos.1 <= i32::MAX,
    ensures
        block_shows(
            old(canvas)@,
            final(canvas)@,
            ox as int,
            oy as int,
            |dx: int, dy: int| ground(pos),
        ),
{
    let ghost before = canvas@;
    let color = grass_bg(pos);
    for dy in 0..SPRITE_SIZE
        invariant
            ox + 8 <= usize::MAX,
            oy + 8 <= usize::MAX,
            color == ground(pos),
            canvas.wf(),
            canvas@.width == before.width,
            canvas@.height == before.height,
            forall|u: int, v: int|
                #![trigger canvas@.color(u, v)]
                canvas@.has(u, v) ==> canvas@.color(u, v) == if ox <= u < ox + 8 && oy <= v < oy
                    + dy {
                    color
                } else {
                    before.color(u, v)
                },
    {
        for dx in 0..SPRITE_SIZE
            invariant
                dy < 8,
                ox + 8 <= usize::MAX,
                oy + 8 <= usize::MAX,
                canvas.wf(),
                canvas@.width == before.width,
                canvas@.height == before.height,
                forall|u: int, v: int|
                    #![trigger canvas@.color(u, v)]
                    canvas@.has(u, v) ==> canvas@.color(u, v) == if (ox <= u < ox + 8 && oy <= v
                        < oy + dy) || (ox <= u < ox + dx && v == oy + dy) {
                        color
                    } else {
                        before.color(u, v)
                    },
        {
            let ghost here = canvas@;
            canvas.set(ox + dx, oy + dy, color);
            assert forall|u: int, v: int| #[trigger] canvas@.has(u, v) implies canvas@.color(u, v)
                == if (ox <= u < ox + 8 && oy <= v < oy + dy) || (ox <= u < ox + dx + 1 && v == oy
                + dy) {
                color
            } else {
                before.color(u, v)
            } by {
                assert(here.has(u, v));
                assert(here.color(u, v) == here.color(u, v));
            }
        }
    }
}

/// Draws one more picture on a cell.
fn draw_over(
    canvas: &mut PixelCanvas,
    ox: usize,
    oy: usize,
    sprite: &Sprite,
    Ghost(drawing): Ghost<Drawing>,
    Ghost(start): Ghost<CanvasView>,
    Ghost(below): Ghost<spec_fn(int, int) -> Color>,
)
    requires
        old(canvas).wf(),
        ox + 8 <= usize::MAX,
        oy + 8 <= usize::MAX,
        sprite.shows(drawing.art, drawing.palette),
        block_shows(start, old(canvas)@, ox as int, oy as int, below),
    ensures
        final(canvas).wf(),
        block_shows(
            start,
            final(canvas)@,
            ox as int,
            oy as int,
            layered(below, Some(drawing)),
        ),
{
    let ghost before = canvas@;
    canvas.blit_sprite(ox, oy, sprite);
    let ghost after = canvas@;
    assert forall|u: int, v: int| #[trigger] after.has(u, v) implies after.color(u, v) == if ox <= u < ox
        + 8 && oy <= v < oy + 8 {
        layered(below, Some(drawing))(u - ox, v - oy)
    } else {
        start.color(u, v)
    } by {
        assert(before.has(u, v));
        assert(before.color(u, v) == before.color(u, v));
        assert(after.color(u, v) == after.color(u, v));
    }
}

/// Whether the fuse of a bomb glows.
fn is_fuse_hot(timer: Nanos) -> (hot: bool)
    ensures
        hot == fuse_glows(timer),
{
    let left: u128 = if timer < 0 {
        (-(timer as i128)) as u128
    } else {
        timer as u128
    };
    timer < SECOND && left * 6 / 1_000_000_000 % 2 == 0
}

/// The first bomb in a cell.
fn find_bomb(bombs: &[Bomb], pos: Coord) -> (found: Option<Bomb>)
    ensures
        found == first_bomb_at(bombs@, pos),
{
    assert(bombs@.skip(0) =~= bombs@);
    for i in 0..bombs.len()
        invariant
            first_bomb_at(bombs@, pos) == first_bomb_at(bombs@.skip(i as int), pos),
    {
        assert(bombs@.skip(i as int).drop_first() =~= bombs@.skip(i + 1));
        if bombs[i].pos.0 == pos.0 && bombs[i].pos.1 == pos.1 {
            assert(bombs@[i as int].pos == pos);
            return Some(bombs[i]);
        }
    }
    assert(bombs@.skip(bombs@.len() as int).len() == 0);
    None
}

/// The first live enemy in a cell.
fn find_enemy(enemies: &[Enemy], pos: Coord) -> (found: Option<Enemy>)
    ensures
        found == first_enemy_at(enemies@, pos),
{
    assert(enemies@.skip(0) =~= enemies@);
    for i in 0..enemies.len()
        invariant
            first_enemy_at(enemies@, pos) == first_enemy_at(enemies@.skip(i as int), pos),
    {
        assert(enemies@.skip(i as int).drop_first() =~= enemies@.skip(i + 1));
        if enemies[i].alive && enemies[i].pos.0 == pos.0 && enemies[i].pos.1 == pos.1 {
            assert(enemies@[i as int].pos == pos);
            return Some(enemies[i]);
        }
    }
    assert(enemies@.skip(enemies@.len() as int).len() == 0);
    None
}

/// Whether a blast covers a cell.
fn is_ablaze(explosions: &[Explosion], pos: Coord) -> (found: bool)
    ensures
        found == ablaze(
            explosions@.map_values(|explosion: Explosion| explosion@),
            pos,
        ),
{
    let ghost views = explosions@.map_values(|explosion: Explosion| explosion@);
    for i in 0..explosions.len()
        invariant
            views == explosions@.map_values(|explosion: Explosion| explosion@),
            forall|j: int| 0 <= j < i ==> !(#[trigger] views[j]).cells.contains(pos),
    {
        assert(views[i as int].cells == explosions@[i as int].cells@);
        if lists(&explosions[i].cells, pos) {
            return true;
        }
    }
    false
}

/// The colour of each kind of enemy.
pub fn enemy_color(kind: EnemyKind) -> (color: EnemyColor)
    ensures
        color == color_of_kind(kind),
{
    match kind {
        EnemyKind::Wander => EnemyColor::Magenta,
        EnemyKind::Chaser => EnemyColor::Red,
        EnemyKind::Avoider => EnemyColor::Blue,
    }
}

/// The picture of a player.
pub fn player_sprite_for(player: &Player) -> (sprite: Sprite)
    ensures
        sprite.shows(
            sprites::player_art(),
            sprites::player_palette(suit_now(*player).0, suit_now(*player).1),
        ),
{
    if player.god_mode {
        return player_sprite_with_suit(Color::Rgb(255, 215, 0), Color::Rgb(255, 240, 140));
    }
    if player.invincible_remaining > 0 {
        let step = player.invincible_remaining as u128 * 10 / 1_000_000_000 % 4;
        let (suit, suit_light) = if step == 0 {
            (Color::Rgb(235, 238, 242), Color::Rgb(255, 255, 255))
        } else if step == 1 {
            (Color::Rgb(90, 220, 230), Color::Rgb(160, 245, 250))
        } else if step == 2 {
            (Color::Rgb(230, 90, 220), Color::Rgb(250, 160, 245))
        } else {
            (Color::Rgb(255, 235, 90), Color::Rgb(255, 250, 170))
        };
        return player_sprite_with_suit(suit, suit_light);
    }
    player_sprite(PlayerColor::White)
}

/// Draws one cell of the board.
fn draw_cell(canvas: &mut PixelCanvas, state: &GameState, pos: Coord, ox: usize, oy: usize)
    requires
        old(canvas).wf(),
        state.map.wf(),
        ox + 8 <= usize::MAX,
        oy + 8 <= usize::MAX,
        i32::MIN <= pos.0 + pos.1 <= i32::MAX,
    ensures
        final(canvas).wf(),
        block_shows(
            old(canvas)@,
            final(canvas)@,
            ox as int,
            oy as int,
            cell_picture(state@, pos),
        ),
{
    let ghost start = canvas@;
    fill_grass_bg(canvas, ox, oy, pos);
    let ghost bare: spec_fn(int, int) -> Color = |dx: int, dy: int| ground(pos);
    assert(block_shows(start, canvas@, ox as int, oy as int, bare));

    let tile = state.map.tile_at(pos);
    let ghost tile_layer = tile_drawing(tile);
    match tile {
        Tile::Wall => draw_over(
            canvas,
            ox,
            oy,
            &wall_sprite(),
            Ghost(tile_layer->Some_0),
            Ghost(start),
            Ghost(bare),
        ),
        Tile::Block => draw_over(
            canvas,
            ox,
            oy,
            &block_sprite(),
            Ghost(tile_layer->Some_0),
            Ghost(start),
            Ghost(bare),
        ),
        Tile::ItemTile(kind) => draw_over(
            canvas,
            ox,
            oy,
            &item_sprite(kind),
            Ghost(tile_layer->Some_0),
            Ghost(start),
            Ghost(bare),
        ),
        Tile::Empty => {},
    }
    let ghost tiled = layered(bare, tile_layer);
    assert(block_shows(start, canvas@, ox as int, oy as int, tiled));

    let ghost bomb_layer = bomb_drawing(state.bombs@, pos);
    if let Some(bomb) = find_bomb(&state.bombs, pos) {
        let hot = is_fuse_hot(bomb.timer);
        draw_over(
            canvas,
            ox,
            oy,
            &bomb_sprite(hot),
            Ghost(bomb_layer->Some_0),
            Ghost(start),
            Ghost(tiled),
        );
    }
    let ghost bombed = layered(tiled, bomb_layer);
    assert(block_shows(start, canvas@, ox as int, oy as int, bombed));

    let ghost enemy_layer = enemy_drawing(state.enemies@, pos);
    if let Some(enemy) = find_enemy(&state.enemies, pos) {
        draw_over(
            canvas,
            ox,
            oy,
            &enemy_sprite(enemy_color(enemy.kind)),
            Ghost(enemy_layer->Some_0),
            Ghost(start),
            Ghost(bombed),
        );
    }
    let ghost haunted = layered(bombed, enemy_layer);
    assert(block_shows(start, canvas@, ox as int, oy as int, haunted));

    let ghost player_layer = player_drawing(state.players@, pos);
    if state.players.len() > 0 && state.players[0].alive && state.players[0].pos.0 == pos.0
        && state.players[0].pos.1 == pos.1 {
        assert(state.players@[0].pos == pos);
        draw_over(
            canvas,
            ox,
            oy,
            &player_sprite_for(&state.players[0]),
            Ghost(player_layer->Some_0),
            Ghost(start),
            Ghost(haunted),
        );
    }
    let ghost peopled = layered(haunted, player_layer);
    assert(block_shows(start, canvas@, ox as int, oy as int, peopled));

    let ghost blast_layer = blast_drawing(state@.explosions, pos);
    if is_ablaze(&state.explosions, pos) {
        draw_over(
            canvas,
            ox,
            oy,
            &explosion_sprite(),
            Ghost(blast_layer->Some_0),
            Ghost(start),
            Ghost(peopled),
        );
    }
    assert(block_shows(start, canvas@, ox as int, oy as int, layered(peopled, blast_layer)));
}

/// Whether the board has its shape and its picture is not too large to be drawn.
pub open spec fn drawable(map: MapView) -> bool {
    &&& map.rectangular()
    &&& map.width <= i32::MAX
    &&& map.height <= i32::MAX
    &&& map.width + map.height <= i32::MAX + 2
    &&& map.width * 8 <= usize::MAX
    &&& map.height * 8 <= usize::MAX
    &&& (map.width * 8) * (map.height * 8) <= usize::MAX
}

/// Whether the board has its shape and its picture is not too large to be drawn.
pub fn is_drawable(state: &GameState) -> (fits: bool)
    ensures
        fits == drawable(state@.map),
{
    let width = state.map.width;
    let height = state.map.height;
    if width > 2_147_483_647 || height > 2_147_483_647 {
        return false;
    }
    if width as u64 + height as u64 > 2_147_483_649 {
        return false;
    }
    if state.map.tiles.len() != height {
        return false;
    }
    for row in 0..height
        invariant
            width == state.map.width,
            height == state.map.height,
            state.map.tiles@.len() == height,
            forall|r: int| 0 <= r < row ==> (#[trigger] state@.map.tiles[r]).len() == width,
    {
        assert(state@.map.tiles[row as int] == state.map.tiles@[row as int]@);
        if state.map.tiles[row].len() != width {
            return false;
        }
    }
    match (width.checked_mul(SPRITE_SIZE), height.checked_mul(SPRITE_SIZE)) {
        (Some(columns), Some(rows)) => columns.checked_mul(rows).is_some(),
        _ => false,
    }
}

/// The picture of the board and everybody on it.
pub fn render_field_canvas(state: &GameState) -> (canvas: PixelCanvas)
    requires
        drawable(state@.map),
    ensures
        canvas.wf(),
        canvas.width == state.map.width * 8,
        canvas.height == state.map.height * 8,
        forall|x: int, y: int|
            canvas@.has(x, y) ==> #[trigger] canvas@.color(x, y) == field_color(state@, x, y),
{
    let ghost game = state@;
    let width = state.map.width;
    let height = state.map.height;
    let background = Color::Rgb(8, 90, 28);
    let mut canvas = PixelCanvas::new(width * SPRITE_SIZE, height * SPRITE_SIZE, background);
    for row in 0..height
        invariant
            game == state@,
            drawable(game.map),
            width == state.map.width,
            height == state.map.height,
            canvas.wf(),
            canvas.width == width * 8,
            canvas.height == height * 8,
            width * 8 <= usize::MAX,
            height * 8 <= usize::MAX,
            forall|x: int, y: int|
                #![trigger canvas@.color(x, y)]
                canvas@.has(x, y) && y < row * 8 ==> canvas@.color(x, y) == field_color(
                    game,
                    x,
                    y,
                ),
    {
        for col in 0..width
            invariant
                row < height,
                game == state@,
                drawable(game.map),
                width == state.map.width,
                height == state.map.height,
                canvas.wf(),
                canvas.width == width * 8,
                canvas.height == height * 8,
                width * 8 <= usize::MAX,
                height * 8 <= usize::MAX,
                forall|x: int, y: int|
                    #![trigger canvas@.color(x, y)]
                    canvas@.has(x, y) && (y < row * 8 || (y < row * 8 + 8 && x < col * 8))
                        ==> canvas@.color(x, y) == field_color(game, x, y),
        {
            let ghost before = canvas@;
            let pos = (row as i32, col as i32);
            let ox = col * SPRITE_SIZE;
            let oy = row * SPRITE_SIZE;
            draw_cell(&mut canvas, state, pos, ox, oy);
            assert forall|x: int, y: int| #[trigger] canvas@.has(x, y) && (y < row * 8 || (y < row * 8 + 8
                && x < col * 8 + 8)) implies canvas@.color(x, y) == field_color(game, x, y) by {
                assert(before.has(x, y));
                if ox <= x < ox + 8 && oy <= y < oy + 8 {
                    assert(x / 8 == col && x % 8 == x - ox);
                    assert(y / 8 == row && y % 8 == y - oy);
                } else {
                    assert(before.color(x, y) == field_color(game, x, y));
                }
            }
        }
    }
    canvas
}

// ---------------------------------------------------------------------------
// What is to be seen

/// Whether one of the blasts is in a cell.
pub open spec fn burning(explosions: Seq<ExplosionView>, pos: Coord) -> bool {
    exists|e: int, c: int|
        0 <= e < explosions.len() && 0 <= c < explosions[e].cells.len()
            && #[trigger] explosions[e].cells[c] == pos
}

/// Whether a live enemy is in a cell.
pub open spec fn haunted(enemies: Seq<Enemy>, pos: Coord) -> bool {
    exists|k: int| 0 <= k < enemies.len() && (#[trigger] enemies[k]).alive && enemies[k].pos == pos
}

/// Whether a live enemy of that kind is in a cell.
pub open spec fn haunted_by(enemies: Seq<Enemy>, pos: Coord, kind: EnemyKind) -> bool {
    exists|k: int|
        0 <= k < enemies.len() && (#[trigger] enemies[k]).alive && enemies[k].pos == pos
            && enemies[k].kind == kind
}

/// Whether a bomb is in a cell.
pub open spec fn mined(bombs: Seq<Bomb>, pos: Coord) -> bool {
    exists|j: int| 0 <= j < bombs.len() && (#[trigger] bombs[j]).pos == pos
}

/// Whether the first player is in a cell, alive.
pub open spec fn occupied(players: Seq<Player>, pos: Coord) -> bool {
    players.len() > 0 && players[0].alive && players[0].pos == pos
}

/// The colour of a pixel in a cell of the board.
pub open spec fn pixel(game: GameView, pos: Coord, dx: int, dy: int) -> Color {
    field_color(game, 8 * pos.1 + dx, 8 * pos.0 + dy)
}

/// A pixel in a cell belongs to the picture of that cell.
proof fn lemma_pixel(game: GameView, pos: Coord, dx: int, dy: int)
    requires
        0 <= pos.0,
        0 <= pos.1,
        0 <= dx < 8,
        0 <= dy < 8,
    ensures
        pixel(game, pos, dx, dy) == cell_picture(game, pos)(dx, dy),
{
}

/// The first live enemy found in a cell is one, and none is found only if there is
/// none.
proof fn lemma_first_enemy(enemies: Seq<Enemy>, pos: Coord)
    ensures
        match first_enemy_at(enemies, pos) {
            Some(enemy) => haunted_by(enemies, pos, enemy.kind) && enemy.alive && enemy.pos == pos,
            None => !haunted(enemies, pos),
        },
    decreases enemies.len(),
{
    if enemies.len() > 0 {
        let rest = enemies.drop_first();
        if enemies[0].alive && enemies[0].pos == pos {
            assert(haunted_by(enemies, pos, enemies[0].kind));
        } else {
            lemma_first_enemy(rest, pos);
            if let Some(enemy) = first_enemy_at(rest, pos) {
                let k = choose|k: int|
                    0 <= k < rest.len() && (#[trigger] rest[k]).alive && rest[k].pos == pos
                        && rest[k].kind == enemy.kind;
                assert(enemies[k + 1] == rest[k]);
            } else if haunted(enemies, pos) {
                let k = choose|k: int|
                    0 <= k < enemies.len() && (#[trigger] enemies[k]).alive && enemies[k].pos == pos;
                assert(rest[k - 1] == enemies[k]);
            }
        }
    }
}

/// The first bomb found in a cell is one, and none is found only if there is none.
proof fn lemma_first_bomb(bombs: Seq<Bomb>, pos: Coord)
    ensures
        match first_bomb_at(bombs, pos) {
            Some(bomb) => mined(bombs, pos) && bombs.contains(bomb) && bomb.pos == pos,
            None => !mined(bombs, pos),
        },
    decreases bombs.len(),
{
    if bombs.len() > 0 {
        let rest = bombs.drop_first();
        if bombs[0].pos == pos {
            assert(bombs.contains(bombs[0]));
        } else {
            lemma_first_bomb(rest, pos);
            if let Some(bomb) = first_bomb_at(rest, pos) {
                let k = choose|k: int| 0 <= k < rest.len() && rest[k] == bomb;
                assert(bombs[k + 1] == rest[k]);
                assert(bombs[k + 1].pos == pos);
            } else if mined(bombs, pos) {
                let k = choose|k: int| 0 <= k < bombs.len() && (#[trigger] bombs[k]).pos == pos;
                assert(rest[k - 1] == bombs[k]);
            }
        }
    }
}

/// Blasts are drawn where they are.
proof fn lemma_ablaze(explosions: Seq<ExplosionView>, pos: Coord)
    ensures
        ablaze(explosions, pos) == burning(explosions, pos),
{
    if burning(explosions, pos) {
        let (e, c) = choose|e: int, c: int|
            0 <= e < explosions.len() && 0 <= c < explosions[e].cells.len()
                && #[trigger] explosions[e].cells[c] == pos;
        assert(explosions[e].cells.contains(pos));
    }
    if ablaze(explosions, pos) {
        let e = choose|e: int|
            0 <= e < explosions.len() && (#[trigger] explosions[e]).cells.contains(pos);
        let c = choose|c: int| 0 <= c < explosions[e].cells.len() && explosions[e].cells[c] == pos;
        assert(explosions[e].cells[c] == pos);
    }
}

/// Letters in a palette of up to five.
proof fn lemma_colors(palette: Seq<(char, Color)>, letter: char)
    requires
        palette.len() <= 5,
    ensures
        palette.len() > 0 && palette[0].0 == letter ==> sprites::color_of(palette, letter) == Some(
            palette[0].1,
        ),
        palette.len() > 1 && palette[0].0 != letter && palette[1].0 == letter
            ==> sprites::color_of(palette, letter) == Some(palette[1].1),
        palette.len() > 2 && palette[0].0 != letter && palette[1].0 != letter && palette[2].0
            == letter ==> sprites::color_of(palette, letter) == Some(palette[2].1),
        palette.len() > 3 && palette[0].0 != letter && palette[1].0 != letter && palette[2].0
            != letter && palette[3].0 == letter ==> sprites::color_of(palette, letter) == Some(
            palette[3].1,
        ),
{
    reveal_with_fuel(sprites::color_of, 6);
    let one = palette.drop_first();
    let two = one.drop_first();
    let three = two.drop_first();
    assert(palette.len() > 1 ==> one[0] == palette[1]);
    assert(palette.len() > 2 ==> two[0] == palette[2]);
    assert(palette.len() > 3 ==> three[0] == palette[3]);
}

/// A blast shows wherever it is, in front of everything: its middle is white hot.
pub proof fn lemma_blasts_show(game: GameView, pos: Coord)
    requires
        0 <= pos.0,
        0 <= pos.1,
        burning(game.explosions, pos),
    ensures
        pixel(game, pos, 3, 3) == Color::Rgb(255, 250, 220),
{
    lemma_pixel(game, pos, 3, 3);
    reveal_strlit("...11...");
    lemma_colors(sprites::explosion_palette(), '1');
    lemma_ablaze(game.explosions, pos);
}

/// The first player shows while alive, behind nothing but blasts, in a white suit,
/// or in gold under forced invincibility; and flashes through four suits, ten times
/// a second, while an item lasts.
pub proof fn lemma_the_player_shows(game: GameView, pos: Coord)
    requires
        0 <= pos.0,
        0 <= pos.1,
        !burning(game.explosions, pos),
        occupied(game.players, pos),
    ensures
        ({
            let player = game.players[0];
            let suit = (pixel(game, pos, 1, 5), pixel(game, pos, 2, 6));
            &&& player.god_mode ==> suit == (Color::Rgb(255, 215, 0), Color::Rgb(255, 240, 140))
            &&& !player.god_mode && player.invincible_remaining <= 0 ==> suit == (
                Color::Rgb(235, 238, 242),
                Color::Rgb(255, 255, 255),
            )
            &&& !player.god_mode && player.invincible_remaining > 0 ==> {
                let tenths = player.invincible_remaining / 100_000_000;
                suit == if tenths % 4 == 0 {
                    (Color::Rgb(235, 238, 242), Color::Rgb(255, 255, 255))
                } else if tenths % 4 == 1 {
                    (Color::Rgb(90, 220, 230), Color::Rgb(160, 245, 250))
                } else if tenths % 4 == 2 {
                    (Color::Rgb(230, 90, 220), Color::Rgb(250, 160, 245))
                } else {
                    (Color::Rgb(255, 235, 90), Color::Rgb(255, 250, 170))
                }
            }
        }),
{
    lemma_ablaze(game.explosions, pos);
    lemma_pixel(game, pos, 1, 5);
    lemma_pixel(game, pos, 2, 6);
    reveal_strlit("1444444.");
    reveal_strlit("14555441");
    let suit = suit_now(game.players[0]);
    sprites::lemma_suits(suit.0, suit.1);
    lemma_colors(sprites::player_palette(suit.0, suit.1), '4');
    let left = game.players[0].invincible_remaining as int;
    assert(left * 10 / 1_000_000_000 == left / 100_000_000);
}

/// Live enemies show, each kind in its colour, wherever neither the first player
/// nor a blast is in front of them: chasers red, avoiders blue, wanderers magenta.
pub proof fn lemma_live_enemies_show(game: GameView, pos: Coord)
    requires
        0 <= pos.0,
        0 <= pos.1,
        !burning(game.explosions, pos),
        !occupied(game.players, pos),
        haunted(game.enemies, pos),
    ensures
        ({
            let body = pixel(game, pos, 1, 1);
            ||| body == Color::Rgb(200, 40, 40) && haunted_by(game.enemies, pos, EnemyKind::Chaser)
            ||| body == Color::Rgb(40, 100, 200) && haunted_by(
                game.enemies,
                pos,
                EnemyKind::Avoider,
            )
            ||| body == Color::Rgb(180, 40, 160) && haunted_by(
                game.enemies,
                pos,
                EnemyKind::Wander,
            )
        }),
{
    lemma_ablaze(game.explosions, pos);
    lemma_pixel(game, pos, 1, 1);
    reveal_strlit("12222221");
    lemma_first_enemy(game.enemies, pos);
    let enemy = first_enemy_at(game.enemies, pos)->Some_0;
    lemma_colors(sprites::enemy_palette(color_of_kind(enemy.kind)), '2');
}

/// The dead are not drawn: a picture does not depend on dead enemies.
pub proof fn lemma_dead_enemies_do_not_show(game: GameView, x: int, y: int)
    ensures
        field_color(game, x, y) == field_color(
            GameView { enemies: game.enemies.filter(|enemy: Enemy| enemy.alive), ..game },
            x,
            y,
        ),
{
    lemma_only_the_living(game.enemies, ((y / 8) as i32, (x / 8) as i32));
}

/// The first live enemy in a cell is the same with the dead left out.
proof fn lemma_only_the_living(enemies: Seq<Enemy>, pos: Coord)
    ensures
        first_enemy_at(enemies, pos) == first_enemy_at(
            enemies.filter(|enemy: Enemy| enemy.alive),
            pos,
        ),
    decreases enemies.len(),
{
    let is_alive = |enemy: Enemy| enemy.alive;
    if enemies.len() > 0 {
        let rest = enemies.drop_first();
        lemma_only_the_living(rest, pos);
        lemma_filter_first(enemies, is_alive);
        let living = enemies.filter(is_alive);
        if enemies[0].alive {
            assert(living[0] == enemies[0]);
            assert(living.drop_first() =~= rest.filter(is_alive));
        } else {
            assert(living =~= rest.filter(is_alive));
        }
    } else {
        reveal(Seq::filter);
        assert(enemies.filter(is_alive) =~= enemies);
    }
}

/// Leaving elements out, from the front.
proof fn lemma_filter_first<T>(s: Seq<T>, p: spec_fn(T) -> bool)
    requires
        s.len() > 0,
    ensures
        s.filter(p) == (if p(s[0]) {
            seq![s[0]]
        } else {
            seq![]
        }) + s.drop_first().filter(p),
    decreases s.len(),
{
    reveal(Seq::filter);
    if s.len() == 1 {
        assert(s.drop_first().len() == 0);
        assert(s.drop_last().len() == 0);
        assert(s.drop_first().filter(p) =~= Seq::<T>::empty());
        assert(s.drop_last().filter(p) =~= Seq::<T>::empty());
        assert(s.filter(p) =~= (if p(s[0]) {
            seq![s[0]]
        } else {
            seq![]
        }) + s.drop_first().filter(p));
    } else {
        lemma_filter_first(s.drop_last(), p);
        assert(s.drop_last().drop_first() =~= s.drop_first().drop_last());
        assert(s.drop_last()[0] == s[0]);
        assert(s.drop_first().last() == s.last());
        assert(s.filter(p) =~= (if p(s[0]) {
            seq![s[0]]
        } else {
            seq![]
        }) + s.drop_first().filter(p));
    }
}

/// Of the players only the first is drawn, and only while alive.
pub proof fn lemma_only_the_first_player_shows(game: GameView, x: int, y: int)
    requires
        game.players.len() > 0,
    ensures
        field_color(game, x, y) == field_color(
            GameView {
                players: if game.players[0].alive {
                    seq![game.players[0]]
                } else {
                    seq![]
                },
                ..game
            },
            x,
            y,
        ),
{
}

/// Bombs show behind enemies, players and blasts: a black ball, whose fuse glows by
/// turns in its last second.
pub proof fn lemma_bombs_show(game: GameView, pos: Coord)
    requires
        0 <= pos.0,
        0 <= pos.1,
        !burning(game.explosions, pos),
        !occupied(game.players, pos),
        !haunted(game.enemies, pos),
        mined(game.bombs, pos),
    ensures
        pixel(game, pos, 3, 4) == Color::Rgb(35, 35, 40),
        ({
            let fuse = pixel(game, pos, 2, 0);
            exists|j: int|
                0 <= j < game.bombs.len() && (#[trigger] game.bombs[j]).pos == pos && (
                game.bombs[j].timer >= 1_000_000_000 ==> fuse == Color::Rgb(200, 160, 40)) && (0
                    <= game.bombs[j].timer < 1_000_000_000 ==> fuse == if (6
                    * game.bombs[j].timer / 1_000_000_000) % 2 == 0 {
                    Color::Rgb(255, 90, 20)
                } else {
                    Color::Rgb(200, 160, 40)
                })
        }),
{
    lemma_ablaze(game.explosions, pos);
    lemma_pixel(game, pos, 3, 4);
    lemma_pixel(game, pos, 2, 0);
    reveal_strlit(".122222.");
    reveal_strlit("..3.....");
    lemma_first_enemy(game.enemies, pos);
    lemma_first_bomb(game.bombs, pos);
    if let Some(enemy) = first_enemy_at(game.enemies, pos) {
        let k = choose|k: int|
            0 <= k < game.enemies.len() && (#[trigger] game.enemies[k]).alive
                && game.enemies[k].pos == pos && game.enemies[k].kind == enemy.kind;
        assert(haunted(game.enemies, pos));
    }
    let bomb = first_bomb_at(game.bombs, pos)->Some_0;
    lemma_colors(sprites::bomb_palette(fuse_glows(bomb.timer)), '2');
    lemma_colors(sprites::bomb_palette(fuse_glows(bomb.timer)), '3');
    let j = choose|j: int| 0 <= j < game.bombs.len() && game.bombs[j] == bomb;
    assert(game.bombs[j].pos == pos);
}

/// What lies in a cell shows where nothing is in front of it: walls, blocks, items
/// in the colour of their kind, and the two greens of the ground, which take turns
/// from cell to cell.
pub proof fn lemma_tiles_show(game: GameView, pos: Coord, dx: int, dy: int)
    requires
        0 <= pos.0,
        0 <= pos.1,
        !burning(game.explosions, pos),
        !occupied(game.players, pos),
        !haunted(game.enemies, pos),
        !mined(game.bombs, pos),
        0 <= dx < 8,
        0 <= dy < 8,
    ensures
        match game.map.tile(pos) {
            Tile::Wall => pixel(game, pos, 3, 3) == Color::Rgb(150, 154, 164),
            Tile::Block => pixel(game, pos, 1, 1) == Color::Rgb(184, 112, 52),
            Tile::ItemTile(kind) => pixel(game, pos, 3, 3) == match kind {
                ItemKind::Power => Color::Rgb(230, 60, 40),
                ItemKind::BombUp => Color::Rgb(200, 60, 190),
                ItemKind::SpeedUp => Color::Rgb(60, 200, 220),
                ItemKind::Invincible => Color::Rgb(255, 210, 30),
            },
            Tile::Empty => pixel(game, pos, dx, dy) == if (pos.0 + pos.1) % 2 == 0 {
                Color::Rgb(8, 90, 28)
            } else {
                Color::Rgb(34, 160, 60)
            },
        },
{
    lemma_ablaze(game.explosions, pos);
    lemma_pixel(game, pos, 3, 3);
    lemma_pixel(game, pos, 1, 1);
    lemma_pixel(game, pos, dx, dy);
    lemma_first_enemy(game.enemies, pos);
    lemma_first_bomb(game.bombs, pos);
    if let Some(enemy) = first_enemy_at(game.enemies, pos) {
        let k = choose|k: int|
            0 <= k < game.enemies.len() && (#[trigger] game.enemies[k]).alive
                && game.enemies[k].pos == pos && game.enemies[k].kind == enemy.kind;
        assert(haunted(game.enemies, pos));
    }
    reveal_strlit("12333321");
    reveal_strlit("12222221");
    lemma_colors(sprites::wall_palette(), '3');
    lemma_colors(sprites::block_palette(), '2');
    if let Tile::ItemTile(kind) = game.map.tile(pos) {
        lemma_colors(sprites::item_palette(kind), '3');
    }
}

/// Where a blast is transparent, the picture is the same as without blasts.
pub proof fn lemma_blasts_hide_no_more_than_they_cover(game: GameView, pos: Coord, dx: int, dy: int)
    requires
        0 <= pos.0,
        0 <= pos.1,
        0 <= dx < 8,
        0 <= dy < 8,
    ensures
        pixel(game, pos, dx, dy) == pixel(
            GameView { explosions: seq![], ..game },
            pos,
            dx,
            dy,
        ) || sprites::color_of(sprites::explosion_palette(), sprites::explosion_art()[dy][dx])
            == Some(pixel(game, pos, dx, dy)),
{
    lemma_pixel(game, pos, dx, dy);
    let bare = GameView { explosions: seq![], ..game };
    lemma_pixel(bare, pos, dx, dy);
}

/// What is seen in a cell rests on what is in that cell alone: wherever else
/// enemies, bombs and the first player are, the picture is the same.
pub proof fn lemma_cells_are_drawn_apart(game: GameView, other: GameView, pos: Coord, dx: int, dy: int)
    requires
        0 <= pos.0,
        0 <= pos.1,
        0 <= dx < 8,
        0 <= dy < 8,
        game.map == other.map,
        burning(game.explosions, pos) == burning(other.explosions, pos),
        !haunted(game.enemies, pos) && !haunted(other.enemies, pos),
        !mined(game.bombs, pos) && !mined(other.bombs, pos),
        !occupied(game.players, pos) && !occupied(other.players, pos),
    ensures
        pixel(game, pos, dx, dy) == pixel(other, pos, dx, dy),
{
    lemma_pixel(game, pos, dx, dy);
    lemma_pixel(other, pos, dx, dy);
    lemma_ablaze(game.explosions, pos);
    lemma_ablaze(other.explosions, pos);
    lemma_nobody(game.enemies, pos);
    lemma_nobody(other.enemies, pos);
    lemma_first_bomb(game.bombs, pos);
    lemma_first_bomb(other.bombs, pos);
}

/// Where no live enemy is, none is found.
proof fn lemma_nobody(enemies: Seq<Enemy>, pos: Coord)
    requires
        !haunted(enemies, pos),
    ensures
        first_enemy_at(enemies, pos) is None,
{
    lemma_first_enemy(enemies, pos);
    if let Some(enemy) = first_enemy_at(enemies, pos) {
        let k = choose|k: int|
            0 <= k < enemies.len() && (#[trigger] enemies[k]).alive && enemies[k].pos == pos
                && enemies[k].kind == enemy.kind;
        assert(haunted(enemies, pos));
    }
}

/// In a cell without a live enemy no enemy is drawn: the picture is that of a game
/// without enemies.
pub proof fn lemma_no_enemy_no_sprite(game: GameView, pos: Coord, dx: int, dy: int)
    requires
        0 <= pos.0,
        0 <= pos.1,
        0 <= dx < 8,
        0 <= dy < 8,
        !haunted(game.enemies, pos),
    ensures
        pixel(game, pos, dx, dy) == pixel(GameView { enemies: seq![], ..game }, pos, dx, dy),
{
    lemma_pixel(game, pos, dx, dy);
    lemma_pixel(GameView { enemies: seq![], ..game }, pos, dx, dy);
    lemma_nobody(game.enemies, pos);
}

/// A live enemy covers the whole of its cell but for six pixels at the edge, where
/// what is behind it shows: through the rest nothing behind it can be told.
pub proof fn lemma_enemies_cover_their_cell(game: GameView, other: GameView, pos: Coord, dx: int, dy: int)
    requires
        0 <= pos.0,
        0 <= pos.1,
        0 <= dx < 8,
        1 <= dy < 7,
        !burning(game.explosions, pos) && !burning(other.explosions, pos),
        !occupied(game.players, pos) && !occupied(other.players, pos),
        haunted(game.enemies, pos),
        game.enemies == other.enemies,
    ensures
        pixel(game, pos, dx, dy) == pixel(other, pos, dx, dy),
        pixel(game, pos, 0, 0) == pixel(GameView { enemies: seq![], ..game }, pos, 0, 0),
        pixel(game, pos, 7, 0) == pixel(GameView { enemies: seq![], ..game }, pos, 7, 0),
{
    let bare = GameView { enemies: seq![], ..game };
    lemma_pixel(game, pos, dx, dy);
    lemma_pixel(other, pos, dx, dy);
    lemma_pixel(game, pos, 0, 0);
    lemma_pixel(game, pos, 7, 0);
    lemma_pixel(bare, pos, 0, 0);
    lemma_pixel(bare, pos, 7, 0);
    lemma_ablaze(game.explosions, pos);
    lemma_ablaze(other.explosions, pos);
    lemma_first_enemy(game.enemies, pos);
    let enemy = first_enemy_at(game.enemies, pos)->Some_0;
    let palette = sprites::enemy_palette(color_of_kind(enemy.kind));
    lemma_colors(palette, '1');
    lemma_colors(palette, '2');
    lemma_colors(palette, '3');
    reveal_with_fuel(sprites::color_of, 6);
    assert(sprites::color_of(palette, '.') is None);
    reveal_strlit(".111111.");
    reveal_strlit("12222221");
    reveal_strlit("12322321");
    reveal_strlit("12233221");
    reveal_strlit("11111111");
    let letter = sprites::enemy_art()[dy][dx];
    assert(letter == '1' || letter == '2' || letter == '3');
}

/// Every board that is a proper grid and not larger than four thousand cells either
/// way can be drawn; one that is no proper grid cannot.
pub proof fn lemma_boards_can_be_drawn(map: MapView)
    ensures
        map.tiles.len() == map.height && (forall|row: int|
            0 <= row < map.height ==> (#[trigger] map.tiles[row]).len() == map.width) && map.width
            <= 4_000 && map.height <= 4_000 ==> drawable(map),
        map.tiles.len() != map.height ==> !drawable(map),
        (exists|row: int|
            0 <= row < map.height && (#[trigger] map.tiles[row]).len() != map.width) ==> !drawable(
            map,
        ),
{
    if map.width <= 4_000 && map.height <= 4_000 {
        assert((map.width * 8) * (map.height * 8) <= 1_024_000_000) by (nonlinear_arith)
            requires
                map.width <= 4_000,
                map.height <= 4_000,
        ;
    }
}

/// The whole sprite of a live enemy is to be seen, in the colours of its kind, and
/// what is behind it where the sprite is transparent.
pub proof fn lemma_whole_enemies_show(game: GameView, pos: Coord) -> (kind: EnemyKind)
    requires
        0 <= pos.0,
        0 <= pos.1,
        !burning(game.explosions, pos),
        !occupied(game.players, pos),
        haunted(game.enemies, pos),
    ensures
        haunted_by(game.enemies, pos, kind),
        forall|dx: int, dy: int|
            0 <= dx < 8 && 0 <= dy < 8 ==> #[trigger] pixel(game, pos, dx, dy)
                == match sprites::color_of(
                sprites::enemy_palette(
                    match kind {
                        EnemyKind::Wander => EnemyColor::Magenta,
                        EnemyKind::Chaser => EnemyColor::Red,
                        EnemyKind::Avoider => EnemyColor::Blue,
                    },
                ),
                sprites::enemy_art()[dy][dx],
            ) {
                Some(color) => color,
                None => pixel(GameView { enemies: seq![], ..game }, pos, dx, dy),
            },
{
    let bare = GameView { enemies: seq![], ..game };
    lemma_ablaze(game.explosions, pos);
    lemma_first_enemy(game.enemies, pos);
    let enemy = first_enemy_at(game.enemies, pos)->Some_0;
    assert forall|dx: int, dy: int| 0 <= dx < 8 && 0 <= dy < 8 implies #[trigger] pixel(
        game,
        pos,
        dx,
        dy,
    ) == match sprites::color_of(
        sprites::enemy_palette(color_of_kind(enemy.kind)),
        sprites::enemy_art()[dy][dx],
    ) {
        Some(color) => color,
        None => pixel(bare, pos, dx, dy),
    } by {
        lemma_pixel(game, pos, dx, dy);
        lemma_pixel(bare, pos, dx, dy);
    }
    enemy.kind
}

} // verus!
