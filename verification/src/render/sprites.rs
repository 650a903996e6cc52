//! The pictures of the things on the board.
//!
//! A picture is drawn with letters, eight rows of eight, and a list of what colour
//! each letter stands for. Letters without a colour are transparent.

use vstd::prelude::*;

use crate::render::Color;
use crate::types::ItemKind;

verus! {

/// The pixels along each side of a picture.
pub const SPRITE_SIZE: usize = 8;

/// A picture of eight by eight pixels, some of which may be transparent.
#[derive(Debug, Clone)]
pub struct Sprite {
    /// Row by row from the top, each row from the left.
    pub pixels: Vec<Vec<Option<Color>>>,
}

/// The colour that a letter stands for: that of the first entry for it.
pub open spec fn color_of(palette: Seq<(char, Color)>, letter: char) -> Option<Color>
    decreases palette.len(),
{
    if palette.len() == 0 {
        None
    } else if palette[0].0 == letter {
        Some(palette[0].1)
    } else {
        color_of(palette.drop_first(), letter)
    }
}

impl Sprite {
    /// The picture has eight rows of eight pixels.
    pub open spec fn wf(&self) -> bool {
        &&& self.pixels@.len() == SPRITE_SIZE
        &&& forall|y: int|
            0 <= y < self.pixels@.len() ==> (#[trigger] self.pixels@[y])@.len() == SPRITE_SIZE
    }

    /// The colour in a place of the picture, unless it is transparent there or
    /// there is no such place.
    pub open spec fn dot(&self, x: int, y: int) -> Option<Color> {
        if 0 <= x < SPRITE_SIZE && 0 <= y < SPRITE_SIZE {
            self.pixels@[y]@[x]
        } else {
            None
        }
    }

    /// Whether the picture is the one drawn with these letters and colours.
    pub open spec fn shows(&self, art: Seq<Seq<char>>, palette: Seq<(char, Color)>) -> bool {
        &&& self.wf()
        &&& forall|x: int, y: int|
            #![trigger self.dot(x, y)]
            0 <= x < SPRITE_SIZE && 0 <= y < SPRITE_SIZE ==> self.dot(x, y) == color_of(
                palette,
                art[y][x],
            )
    }

    /// The picture drawn with these letters and colours.
    fn from_art(art: [&str; SPRITE_SIZE], palette: &[(char, Color)]) -> (sprite: Sprite)
        requires
            forall|y: int| 0 <= y < SPRITE_SIZE ==> (#[trigger] art@[y])@.len() == SPRITE_SIZE,
        ensures
            sprite.shows(letters(art@), palette@),
    {
        let mut pixels: Vec<Vec<Option<Color>>> = Vec::with_capacity(SPRITE_SIZE);
        for y in 0..SPRITE_SIZE
            invariant
                forall|r: int| 0 <= r < SPRITE_SIZE ==> (#[trigger] art@[r])@.len() == SPRITE_SIZE,
                pixels@.len() == y,
                forall|r: int| 0 <= r < y ==> (#[trigger] pixels@[r])@.len() == SPRITE_SIZE,
                forall|r: int, x: int|
                    #![trigger pixels@[r]@[x]]
                    0 <= r < y && 0 <= x < SPRITE_SIZE ==> pixels@[r]@[x] == color_of(
                        palette@,
                        art@[r]@[x],
                    ),
        {
            let row = art[y];
            let mut line: Vec<Option<Color>> = Vec::with_capacity(SPRITE_SIZE);
            for letter in drawn: row.chars()
                invariant
                    drawn.seq() == row@,
                    line@.len() == drawn.index(),
                    forall|x: int|
                        0 <= x < line@.len() ==> #[trigger] line@[x] == color_of(palette@, row@[x]),
            {
                line.push(lookup(palette, letter));
            }
            pixels.push(line);
        }
        Sprite { pixels }
    }
}

/// The letters of each row.
pub open spec fn letters(art: Seq<&str>) -> Seq<Seq<char>> {
    Seq::new(art.len(), |y: int| art[y]@)
}

/// The colour that a letter stands for, if it has one.
fn lookup(palette: &[(char, Color)], letter: char) -> (color: Option<Color>)
    ensures
        color == color_of(palette@, letter),
{
    assert(palette@.skip(0) =~= palette@);
    for i in 0..palette.len()
        invariant
            color_of(palette@, letter) == color_of(palette@.skip(i as int), letter),
    {
        assert(palette@.skip(i as int).drop_first() =~= palette@.skip(i + 1));
        if palette[i].0 == letter {
            return Some(palette[i].1);
        }
    }
    assert(palette@.skip(palette@.len() as int).len() == 0);
    None
}

/// The letters of a wall.
pub open spec fn wall_art() -> Seq<Seq<char>> {
    seq![
        "11111111"@,
        "12222221"@,
        "12333321"@,
        "12333321"@,
        "12333321"@,
        "12333321"@,
        "12222221"@,
        "11111111"@,
    ]
}

/// What the letters of a wall stand for.
pub open spec fn wall_palette() -> Seq<(char, Color)> {
    seq![
        ('1', Color::Rgb(38, 40, 46)),
        ('2', Color::Rgb(215, 218, 226)),
        ('3', Color::Rgb(150, 154, 164)),
    ]
}

/// A wall: shaded stone.
pub fn wall_sprite() -> (sprite: Sprite)
    ensures
        sprite.shows(wall_art(), wall_palette()),
{
    proof {
        reveal_strlit("11111111");
        reveal_strlit("12222221");
        reveal_strlit("12333321");
    }
    let art = [
        "11111111",
        "12222221",
        "12333321",
        "12333321",
        "12333321",
        "12333321",
        "12222221",
        "11111111",
    ];
    assert(letters(art@) =~= wall_art());
    let palette = [
        ('1', Color::Rgb(38, 40, 46)),
        ('2', Color::Rgb(215, 218, 226)),
        ('3', Color::Rgb(150, 154, 164)),
    ];
    assert(palette@ =~= wall_palette());
    Sprite::from_art(art, &palette)
}

/// The letters of a block.
pub open spec fn block_art() -> Seq<Seq<char>> {
    seq![
        "11111111"@,
        "12222221"@,
        "12343421"@,
        "12222221"@,
        "12423241"@,
        "12222221"@,
        "12342341"@,
        "11111111"@,
    ]
}

/// What the letters of a block stand for.
pub open spec fn block_palette() -> Seq<(char, Color)> {
    seq![
        ('1', Color::Rgb(64, 36, 14)),
        ('2', Color::Rgb(184, 112, 52)),
        ('3', Color::Rgb(216, 152, 84)),
        ('4', Color::Rgb(140, 82, 32)),
    ]
}

/// A block: a wooden crate.
pub fn block_sprite() -> (sprite: Sprite)
    ensures
        sprite.shows(block_art(), block_palette()),
{
    proof {
        reveal_strlit("11111111");
        reveal_strlit("12222221");
        reveal_strlit("12343421");
        reveal_strlit("12423241");
        reveal_strlit("12342341");
    }
    let art = [
        "11111111",
        "12222221",
        "12343421",
        "12222221",
        "12423241",
        "12222221",
        "12342341",
        "11111111",
    ];
    assert(letters(art@) =~= block_art());
    let palette = [
        ('1', Color::Rgb(64, 36, 14)),
        ('2', Color::Rgb(184, 112, 52)),
        ('3', Color::Rgb(216, 152, 84)),
        ('4', Color::Rgb(140, 82, 32)),
    ];
    assert(palette@ =~= block_palette());
    Sprite::from_art(art, &palette)
}

/// The colours of players.
#[derive(Debug, Clone, Copy, PartialEq, Eq, Structural)]
pub enum PlayerColor {
    White,
    Black,
    Red,
    Blue,
}

/// The colours of a player's suit: the cloth, and where light falls on it.
pub open spec fn suit_of(color: PlayerColor) -> (Color, Color) {
    match color {
        PlayerColor::White => (Color::Rgb(235, 238, 242), Color::Rgb(255, 255, 255)),
        PlayerColor::Black => (Color::Rgb(50, 52, 58), Color::Rgb(90, 92, 100)),
        PlayerColor::Red => (Color::Rgb(210, 40, 40), Color::Rgb(240, 90, 90)),
        PlayerColor::Blue => (Color::Rgb(40, 90, 210), Color::Rgb(90, 140, 240)),
    }
}

/// What the letters of a player in such a suit stand for.
pub open spec fn player_palette(suit: Color, suit_light: Color) -> Seq<(char, Color)> {
    seq![
        ('1', Color::Rgb(18, 18, 22)),
        ('2', Color::Rgb(244, 224, 196)),
        ('3', Color::Rgb(20, 24, 40)),
        ('4', suit),
        ('5', suit_light),
    ]
}

/// A player: a round face and a suit of one colour.
pub fn player_sprite(color: PlayerColor) -> (sprite: Sprite)
    ensures
        sprite.shows(player_art(), player_palette(suit_of(color).0, suit_of(color).1)),
{
    let (suit, suit_light) = match color {
        PlayerColor::White => (Color::Rgb(235, 238, 242), Color::Rgb(255, 255, 255)),
        PlayerColor::Black => (Color::Rgb(50, 52, 58), Color::Rgb(90, 92, 100)),
        PlayerColor::Red => (Color::Rgb(210, 40, 40), Color::Rgb(240, 90, 90)),
        PlayerColor::Blue => (Color::Rgb(40, 90, 210), Color::Rgb(90, 140, 240)),
    };
    player_sprite_with_suit(suit, suit_light)
}

/// The letters of a player.
pub open spec fn player_art() -> Seq<Seq<char>> {
    seq![
        "..1111.."@,
        ".1222211"@,
        "1233321."@,
        ".1222211"@,
        "11111111"@,
        "1444444."@,
        "14555441"@,
        "1.1..1.1"@,
    ]
}

/// A player in a suit of the given colours.
pub fn player_sprite_with_suit(suit: Color, suit_light: Color) -> (sprite: Sprite)
    ensures
        sprite.shows(player_art(), player_palette(suit, suit_light)),
{
    proof {
        reveal_strlit("..1111..");
        reveal_strlit(".1222211");
        reveal_strlit("1233321.");
        reveal_strlit("11111111");
        reveal_strlit("1444444.");
        reveal_strlit("14555441");
        reveal_strlit("1.1..1.1");
    }
    let art = [
        "..1111..",
        ".1222211",
        "1233321.",
        ".1222211",
        "11111111",
        "1444444.",
        "14555441",
        "1.1..1.1",
    ];
    assert(letters(art@) =~= player_art());
    let palette = [
        ('1', Color::Rgb(18, 18, 22)),
        ('2', Color::Rgb(244, 224, 196)),
        ('3', Color::Rgb(20, 24, 40)),
        ('4', suit),
        ('5', suit_light),
    ];
    assert(palette@ =~= player_palette(suit, suit_light));
    Sprite::from_art(art, &palette)
}

/// The colours of enemies.
#[derive(Debug, Clone, Copy, PartialEq, Eq, Structural)]
pub enum EnemyColor {
    Magenta,
    Red,
    Blue,
}

/// The colour of an enemy's body.
pub open spec fn body_of(color: EnemyColor) -> Color {
    match color {
        EnemyColor::Magenta => Color::Rgb(180, 40, 160),
        EnemyColor::Red => Color::Rgb(200, 40, 40),
        EnemyColor::Blue => Color::Rgb(40, 100, 200),
    }
}

/// What the letters of an enemy of that colour stand for.
pub open spec fn enemy_palette(color: EnemyColor) -> Seq<(char, Color)> {
    seq![
        ('1', Color::Rgb(18, 18, 22)),
        ('2', body_of(color)),
        ('3', Color::Rgb(250, 250, 250)),
        ('4', Color::Rgb(30, 30, 34)),
    ]
}

/// The letters of an enemy.
pub open spec fn enemy_art() -> Seq<Seq<char>> {
    seq![
        ".111111."@,
        "12222221"@,
        "12322321"@,
        "12222221"@,
        "12233221"@,
        "12222221"@,
        "11111111"@,
        ".4.11.4."@,
    ]
}

/// An enemy: a balloon with feet.
pub fn enemy_sprite(color: EnemyColor) -> (sprite: Sprite)
    ensures
        sprite.shows(enemy_art(), enemy_palette(color)),
{
    proof {
        reveal_strlit(".111111.");
        reveal_strlit("12222221");
        reveal_strlit("12322321");
        reveal_strlit("12233221");
        reveal_strlit("11111111");
        reveal_strlit(".4.11.4.");
    }
    let art = [
        ".111111.",
        "12222221",
        "12322321",
        "12222221",
        "12233221",
        "12222221",
        "11111111",
        ".4.11.4.",
    ];
    assert(letters(art@) =~= enemy_art());
    let body = match color {
        EnemyColor::Magenta => Color::Rgb(180, 40, 160),
        EnemyColor::Red => Color::Rgb(200, 40, 40),
        EnemyColor::Blue => Color::Rgb(40, 100, 200),
    };
    let palette = [
        ('1', Color::Rgb(18, 18, 22)),
        ('2', body),
        ('3', Color::Rgb(250, 250, 250)),
        ('4', Color::Rgb(30, 30, 34)),
    ];
    assert(palette@ =~= enemy_palette(color));
    Sprite::from_art(art, &palette)
}

/// What the letters of a bomb stand for; its fuse glows or not.
pub open spec fn bomb_palette(fuse_hot: bool) -> Seq<(char, Color)> {
    seq![
        ('1', Color::Rgb(15, 15, 18)),
        ('2', Color::Rgb(35, 35, 40)),
        (
            '3',
            if fuse_hot {
                Color::Rgb(255, 90, 20)
            } else {
                Color::Rgb(200, 160, 40)
            },
        ),
        ('4', Color::Rgb(90, 90, 98)),
    ]
}

/// The letters of a bomb.
pub open spec fn bomb_art() -> Seq<Seq<char>> {
    seq![
        "..3....."@,
        "...3...."@,
        "..11111."@,
        ".142222."@,
        ".122222."@,
        ".122222."@,
        "..11111."@,
        "........"@,
    ]
}

/// A bomb: a black ball with a fuse that glows or not.
pub fn bomb_sprite(fuse_hot: bool) -> (sprite: Sprite)
    ensures
        sprite.shows(bomb_art(), bomb_palette(fuse_hot)),
{
    proof {
        reveal_strlit("..3.....");
        reveal_strlit("...3....");
        reveal_strlit("..11111.");
        reveal_strlit(".142222.");
        reveal_strlit(".122222.");
        reveal_strlit("........");
    }
    let art = [
        "..3.....",
        "...3....",
        "..11111.",
        ".142222.",
        ".122222.",
        ".122222.",
        "..11111.",
        "........",
    ];
    assert(letters(art@) =~= bomb_art());
    let fuse = if fuse_hot {
        Color::Rgb(255, 90, 20)
    } else {
        Color::Rgb(200, 160, 40)
    };
    let palette = [
        ('1', Color::Rgb(15, 15, 18)),
        ('2', Color::Rgb(35, 35, 40)),
        ('3', fuse),
        ('4', Color::Rgb(90, 90, 98)),
    ];
    assert(palette@ =~= bomb_palette(fuse_hot));
    Sprite::from_art(art, &palette)
}

/// The letters of a blast.
pub open spec fn explosion_art() -> Seq<Seq<char>> {
    seq![
        "3......3"@,
        ".2....2."@,
        "..2..2.."@,
        "...11..."@,
        "...11..."@,
        "..2..2.."@,
        ".2....2."@,
        "3......3"@,
    ]
}

/// What the letters of a blast stand for.
pub open spec fn explosion_palette() -> Seq<(char, Color)> {
    seq![
        ('1', Color::Rgb(255, 250, 220)),
        ('2', Color::Rgb(255, 170, 40)),
        ('3', Color::Rgb(230, 60, 10)),
    ]
}

/// A blast: white hot in the middle, red at the rim.
pub fn explosion_sprite() -> (sprite: Sprite)
    ensures
        sprite.shows(explosion_art(), explosion_palette()),
{
    proof {
        reveal_strlit("3......3");
        reveal_strlit(".2....2.");
        reveal_strlit("..2..2..");
        reveal_strlit("...11...");
    }
    let art = [
        "3......3",
        ".2....2.",
        "..2..2..",
        "...11...",
        "...11...",
        "..2..2..",
        ".2....2.",
        "3......3",
    ];
    assert(letters(art@) =~= explosion_art());
    let palette = [
        ('1', Color::Rgb(255, 250, 220)),
        ('2', Color::Rgb(255, 170, 40)),
        ('3', Color::Rgb(230, 60, 10)),
    ];
    assert(palette@ =~= explosion_palette());
    Sprite::from_art(art, &palette)
}

/// The colour of the mark on an item.
pub open spec fn mark_of(kind: ItemKind) -> Color {
    match kind {
        ItemKind::Power => Color::Rgb(230, 60, 40),
        ItemKind::BombUp => Color::Rgb(200, 60, 190),
        ItemKind::SpeedUp => Color::Rgb(60, 200, 220),
        ItemKind::Invincible => Color::Rgb(255, 210, 30),
    }
}

/// What the letters of an item stand for.
pub open spec fn item_palette(kind: ItemKind) -> Seq<(char, Color)> {
    seq![
        ('1', Color::Rgb(20, 20, 24)),
        ('2', Color::Rgb(248, 248, 250)),
        ('3', mark_of(kind)),
    ]
}

/// The letters of an item.
pub open spec fn item_art() -> Seq<Seq<char>> {
    seq![
        ".111111."@,
        "12222221"@,
        "12233221"@,
        "12333321"@,
        "12333321"@,
        "12233221"@,
        "12222221"@,
        ".111111."@,
    ]
}

/// An item: a white capsule with a mark in the colour of its kind.
pub fn item_sprite(kind: ItemKind) -> (sprite: Sprite)
    ensures
        sprite.shows(item_art(), item_palette(kind)),
{
    proof {
        reveal_strlit(".111111.");
        reveal_strlit("12222221");
        reveal_strlit("12233221");
        reveal_strlit("12333321");
    }
    let art = [
        ".111111.",
        "12222221",
        "12233221",
        "12333321",
        "12333321",
        "12233221",
        "12222221",
        ".111111.",
    ];
    assert(letters(art@) =~= item_art());
    let mark = match kind {
        ItemKind::Power => Color::Rgb(230, 60, 40),
        ItemKind::BombUp => Color::Rgb(200, 60, 190),
        ItemKind::SpeedUp => Color::Rgb(60, 200, 220),
        ItemKind::Invincible => Color::Rgb(255, 210, 30),
    };
    let palette = [
        ('1', Color::Rgb(20, 20, 24)),
        ('2', Color::Rgb(248, 248, 250)),
        ('3', mark),
    ];
    assert(palette@ =~= item_palette(kind));
    Sprite::from_art(art, &palette)
}

/// Players can be told apart by their suits, and enemies by their bodies.
pub proof fn lemma_colors_tell_apart(one: PlayerColor, other: PlayerColor, a: EnemyColor, b: EnemyColor)
    ensures
        one != other ==> suit_of(one).0 != suit_of(other).0,
        a != b ==> color_of(enemy_palette(a), '2') != color_of(enemy_palette(b), '2'),
{
    reveal_with_fuel(color_of, 3);
    let p = enemy_palette(a);
    let q = enemy_palette(b);
    assert(p.drop_first()[0] == p[1] && q.drop_first()[0] == q[1]);
}

/// Items can be told apart by their marks.
pub proof fn lemma_items_tell_apart(one: ItemKind, other: ItemKind)
    ensures
        one != other ==> color_of(item_palette(one), '3') != color_of(item_palette(other), '3'),
{
    reveal_with_fuel(color_of, 4);
    let p = item_palette(one);
    let q = item_palette(other);
    assert(p.drop_first()[0] == p[1] && q.drop_first()[0] == q[1]);
    assert(p.drop_first().drop_first()[0] == p[2] && q.drop_first().drop_first()[0] == q[2]);
}

/// The suit of a player is worn in the colours asked for.
pub proof fn lemma_suits(suit: Color, suit_light: Color)
    ensures
        color_of(player_palette(suit, suit_light), '4') == Some(suit),
        color_of(player_palette(suit, suit_light), '5') == Some(suit_light),
        color_of(player_palette(suit, suit_light), '.') is None,
{
    reveal_with_fuel(color_of, 7);
    let p = player_palette(suit, suit_light);
    let a = p.drop_first();
    let b = a.drop_first();
    let c = b.drop_first();
    let d = c.drop_first();
    assert(a[0] == p[1] && b[0] == p[2] && c[0] == p[3] && d[0] == p[4]);
    assert(d.drop_first().len() == 0);
}

/// The fuse of a bomb glows or does not; nothing else about it changes.
pub proof fn lemma_fuses(letter: char)
    ensures
        letter != '3' ==> color_of(bomb_palette(true), letter) == color_of(
            bomb_palette(false),
            letter,
        ),
        color_of(bomb_palette(true), '3') != color_of(bomb_palette(false), '3'),
{
    reveal_with_fuel(color_of, 6);
    let p = bomb_palette(true);
    let q = bomb_palette(false);
    let a = p.drop_first();
    let b = q.drop_first();
    assert(a[0] == p[1] && b[0] == q[1]);
    assert(a.drop_first()[0] == p[2] && b.drop_first()[0] == q[2]);
    assert(a.drop_first().drop_first()[0] == p[3] && b.drop_first().drop_first()[0] == q[3]);
    assert(a.drop_first().drop_first().drop_first().len() == 0);
    assert(b.drop_first().drop_first().drop_first().len() == 0);
}

/// Walls and blocks fill their cells: no ground shows through.
pub proof fn lemma_walls_and_blocks_are_solid(x: int, y: int)
    requires
        0 <= x < 8,
        0 <= y < 8,
    ensures
        color_of(wall_palette(), wall_art()[y][x]) is Some,
        color_of(block_palette(), block_art()[y][x]) is Some,
{
    lemma_wall_letters(x, y);
    lemma_block_letters(x, y);
    reveal_with_fuel(color_of, 5);
    let p = wall_palette();
    assert(p.drop_first()[0] == p[1] && p.drop_first().drop_first()[0] == p[2]);
    let q = block_palette();
    let a = q.drop_first();
    assert(a[0] == q[1] && a.drop_first()[0] == q[2] && a.drop_first().drop_first()[0] == q[3]);
}

/// The letters that walls are drawn with.
proof fn lemma_wall_letters(x: int, y: int)
    requires
        0 <= x < 8,
        0 <= y < 8,
    ensures
        ({
            let letter = wall_art()[y][x];
            letter == '1' || letter == '2' || letter == '3'
        }),
{
    reveal_strlit("11111111");
    reveal_strlit("12222221");
    reveal_strlit("12333321");
}

/// The letters that blocks are drawn with.
proof fn lemma_block_letters(x: int, y: int)
    requires
        0 <= x < 8,
        0 <= y < 8,
    ensures
        ({
            let letter = block_art()[y][x];
            letter == '1' || letter == '2' || letter == '3' || letter == '4'
        }),
{
    reveal_strlit("11111111");
    reveal_strlit("12222221");
    reveal_strlit("12343421");
    reveal_strlit("12423241");
    reveal_strlit("12342341");
}

/// How far a place is from the rim of a picture.
pub open spec fn depth(x: int, y: int) -> int {
    let across = if x <= 3 {
        x
    } else {
        7 - x
    };
    let down = if y <= 3 {
        y
    } else {
        7 - y
    };
    if across < down {
        across
    } else {
        down
    }
}

/// A wall is drawn in rings: a dark rim, a light edge, and stone within.
pub proof fn lemma_walls_are_drawn_in_rings(x: int, y: int)
    requires
        0 <= x < 8,
        0 <= y < 8,
    ensures
        wall_art()[y][x] == if depth(x, y) == 0 {
            '1'
        } else if depth(x, y) == 1 {
            '2'
        } else {
            '3'
        },
{
    reveal_strlit("11111111");
    reveal_strlit("12222221");
    reveal_strlit("12333321");
}

/// A blast is a slanting cross, hotter towards the middle; between its arms it is
/// transparent.
pub proof fn lemma_blasts_are_crosses(x: int, y: int)
    requires
        0 <= x < 8,
        0 <= y < 8,
    ensures
        explosion_art()[y][x] == if x != y && x + y != 7 {
            '.'
        } else if depth(x, y) == 0 {
            '3'
        } else if depth(x, y) == 3 {
            '1'
        } else {
            '2'
        },
{
    reveal_strlit("3......3");
    reveal_strlit(".2....2.");
    reveal_strlit("..2..2..");
    reveal_strlit("...11...");
}

/// Enemies and items look the same from left and right; items look the same upside
/// down, too.
pub proof fn lemma_enemies_and_items_are_even(x: int, y: int)
    requires
        0 <= x < 8,
        0 <= y < 8,
    ensures
        enemy_art()[y][x] == enemy_art()[y][7 - x],
        item_art()[y][x] == item_art()[y][7 - x],
        item_art()[y][x] == item_art()[7 - y][x],
{
    reveal_strlit(".111111.");
    reveal_strlit("12222221");
    reveal_strlit("12233221");
    reveal_strlit("12333321");
    reveal_strlit("12322321");
    reveal_strlit("11111111");
    reveal_strlit(".4.11.4.");
}

} // verus!
