//! What is written on the screens of the game.

use vstd::prelude::*;

use crate::game::entities::Player;
use crate::game::state::GameState;
use crate::render;
use crate::render::text;
use crate::render::text::{
    push_decimal, push_line, push_owned, push_text, push_zero_filled, Span, SpanView, Style,
    TextLine,
};
use crate::render::{centered_rect, split_top_line, Color, Rect};

verus! {

/// Lines of text in a box with a border.
#[derive(Debug, Clone, PartialEq, Eq)]
pub struct Panel {
    pub lines: Vec<TextLine>,
    pub border: Color,
    /// The size of the box, its border included.
    pub width: u16,
    pub height: u16,
}

/// Lines of text in a box, as a value.
pub struct PanelView {
    pub lines: Seq<Seq<SpanView>>,
    pub border: Color,
    pub width: int,
    pub height: int,
}

impl View for Panel {
    type V = PanelView;

    open spec fn view(&self) -> PanelView {
        PanelView {
            lines: text::lines_of(self.lines@),
            border: self.border,
            width: self.width as int,
            height: self.height as int,
        }
    }
}

/// A line with nothing on it.
pub open spec fn blank_line() -> Seq<SpanView> {
    text::one(""@, text::plain())
}

/// What is written on the title screen.
pub open spec fn title_text() -> Seq<Seq<SpanView>> {
    seq![
        blank_line(),
        blank_line(),
        text::one(
            "╔═══════════════════════════════════════╗"@,
            text::tinted(Color::Yellow),
        ),
        text::one("║   B O M B E R M A N   T E R M   ║"@, text::bold(Color::LightRed)),
        text::one(
            "╚═══════════════════════════════════════╝"@,
            text::tinted(Color::Yellow),
        ),
        blank_line(),
        text::one("端末で遊ぶオリジナル爆弾アクション"@, text::tinted(Color::Gray)),
        blank_line(),
        text::one("[ SPACE ] で ゲーム開始"@, text::bold(Color::White)),
        blank_line(),
        text::one(
            "移動: ↑ ↓ ← → / h j k l    設置: Space    終了: Esc / q    表示拡大縮小: + / -"@,
            text::tinted(Color::DarkGray),
        ),
    ]
}

/// The score of the first player, if there is one.
pub open spec fn first_score(players: Seq<Player>) -> nat {
    if players.len() > 0 {
        players[0].score as nat
    } else {
        0
    }
}

/// The lives of the first player, if there is one.
pub open spec fn first_lives(players: Seq<Player>) -> nat {
    if players.len() > 0 {
        players[0].lives as nat
    } else {
        0
    }
}

/// What is written above the field: score and lives of the first player, and the
/// size of a pixel.
pub open spec fn status_text(score: nat, lives: nat, zoom: nat) -> Seq<SpanView> {
    seq![
        SpanView {
            text: " SCORE "@ + text::zero_filled(score, 6) + " "@,
            style: Style { bg: Some(Color::Yellow), ..text::bold(Color::Black) },
        },
        SpanView { text: "  "@, style: text::plain() },
        SpanView {
            text: " LIVES "@ + text::decimal(lives) + " "@,
            style: Style { bg: Some(Color::Red), ..text::bold(Color::White) },
        },
        SpanView { text: "  "@, style: text::plain() },
        SpanView {
            text: " x"@ + text::decimal(zoom) + " "@,
            style: Style { bg: Some(Color::Gray), ..text::tinted(Color::Black) },
        },
    ]
}

/// The headline of a finished round, and its colour.
pub open spec fn result_headline(cleared: bool) -> (Seq<char>, Color) {
    if cleared {
        ("STAGE CLEAR!"@, Color::LightGreen)
    } else {
        ("GAME OVER"@, Color::LightRed)
    }
}

/// The hint at the bottom of a result screen.
pub open spec fn result_hint() -> Seq<SpanView> {
    text::one("[ SPACE ] タイトルへ    [ Esc / q ] 終了"@, text::tinted(Color::Gray))
}

/// What is written at the end of a round against enemies.
pub open spec fn result_text(score: nat, lives: nat, cleared: bool) -> Seq<Seq<SpanView>> {
    let (headline, color) = result_headline(cleared);
    seq![
        blank_line(),
        text::one(headline, text::bold(color)),
        blank_line(),
        text::one("SCORE: "@ + text::zero_filled(score, 6), text::plain()),
        text::one("LIVES: "@ + text::decimal(lives), text::plain()),
        blank_line(),
        result_hint(),
    ]
}

/// The headline of a finished match, and its colour. Players are counted from one.
pub open spec fn match_headline(winner: Option<usize>) -> (Seq<char>, Color) {
    match winner {
        Some(idx) => (
            "PLAYER "@ + text::decimal((idx + 1) as nat) + " WINS!"@,
            Color::LightGreen,
        ),
        None => ("DRAW"@, Color::LightYellow),
    }
}

/// What is written at the end of a match.
pub open spec fn match_text(winner: Option<usize>) -> Seq<Seq<SpanView>> {
    let (headline, color) = match_headline(winner);
    seq![blank_line(), text::one(headline, text::bold(color)), blank_line(), result_hint()]
}

/// The box at the end of a round against enemies.
pub open spec fn result_box(score: nat, lives: nat, cleared: bool) -> PanelView {
    PanelView {
        lines: result_text(score, lives, cleared),
        border: result_headline(cleared).1,
        width: 46,
        height: 10,
    }
}

/// The box at the end of a match.
pub open spec fn match_box(winner: Option<usize>) -> PanelView {
    PanelView {
        lines: match_text(winner),
        border: match_headline(winner).1,
        width: 46,
        height: 8,
    }
}

/// What is written on the title screen.
pub fn title_lines() -> (lines: Vec<TextLine>)
    ensures
        text::lines_of(lines@) == title_text(),
{
    let mut lines: Vec<TextLine> = Vec::new();
    assert(text::lines_of(lines@) =~= Seq::<Seq<SpanView>>::empty());
    push_line(&mut lines, "", Style::plain());
    push_line(&mut lines, "", Style::plain());
    push_line(
        &mut lines,
        "╔═══════════════════════════════════════╗",
        Style::tinted(Color::Yellow),
    );
    push_line(&mut lines, "║   B O M B E R M A N   T E R M   ║", Style::bold(Color::LightRed));
    push_line(
        &mut lines,
        "╚═══════════════════════════════════════╝",
        Style::tinted(Color::Yellow),
    );
    push_line(&mut lines, "", Style::plain());
    push_line(&mut lines, "端末で遊ぶオリジナル爆弾アクション", Style::tinted(Color::Gray));
    push_line(&mut lines, "", Style::plain());
    push_line(&mut lines, "[ SPACE ] で ゲーム開始", Style::bold(Color::White));
    push_line(&mut lines, "", Style::plain());
    push_line(
        &mut lines,
        "移動: ↑ ↓ ← → / h j k l    設置: Space    終了: Esc / q    表示拡大縮小: + / -",
        Style::tinted(Color::DarkGray),
    );
    assert(text::lines_of(lines@) =~= title_text());
    lines
}

/// What is written above the field.
pub fn status_line(state: &GameState, zoom: usize) -> (line: TextLine)
    ensures
        line@ == status_text(
            first_score(state.players@),
            first_lives(state.players@),
            zoom as nat,
        ),
{
    let mut score = " SCORE ".to_owned();
    push_zero_filled(&mut score, state.score() as u64, 6);
    push_text(&mut score, " ");
    let mut lives = " LIVES ".to_owned();
    push_decimal(&mut lives, state.lives() as u64);
    push_text(&mut lives, " ");
    let mut size = " x".to_owned();
    push_decimal(&mut size, zoom as u64);
    push_text(&mut size, " ");

    let mut spans: Vec<Span> = Vec::with_capacity(5);
    spans.push(
        Span {
            text: score,
            style: Style {
                fg: Some(Color::Black),
                bg: Some(Color::Yellow),
                bold: true,
                reversed: false,
            },
        },
    );
    spans.push(Span { text: "  ".to_owned(), style: Style::plain() });
    spans.push(
        Span {
            text: lives,
            style: Style {
                fg: Some(Color::White),
                bg: Some(Color::Red),
                bold: true,
                reversed: false,
            },
        },
    );
    spans.push(Span { text: "  ".to_owned(), style: Style::plain() });
    spans.push(
        Span {
            text: size,
            style: Style {
                fg: Some(Color::Black),
                bg: Some(Color::Gray),
                bold: false,
                reversed: false,
            },
        },
    );
    let line = TextLine { spans };
    assert(line@ =~= status_text(
        first_score(state.players@),
        first_lives(state.players@),
        zoom as nat,
    ));
    line
}

/// The box at the end of a round against enemies.
pub fn result_panel(state: &GameState, cleared: bool) -> (panel: Panel)
    ensures
        panel@ == result_box(first_score(state.players@), first_lives(state.players@), cleared),
{
    let (headline, color) = if cleared {
        ("STAGE CLEAR!", Color::LightGreen)
    } else {
        ("GAME OVER", Color::LightRed)
    };
    let mut score = "SCORE: ".to_owned();
    push_zero_filled(&mut score, state.score() as u64, 6);
    let mut lives = "LIVES: ".to_owned();
    push_decimal(&mut lives, state.lives() as u64);

    let mut lines: Vec<TextLine> = Vec::new();
    assert(text::lines_of(lines@) =~= Seq::<Seq<SpanView>>::empty());
    push_line(&mut lines, "", Style::plain());
    push_line(&mut lines, headline, Style::bold(color));
    push_line(&mut lines, "", Style::plain());
    push_owned(&mut lines, score, Style::plain());
    push_owned(&mut lines, lives, Style::plain());
    push_line(&mut lines, "", Style::plain());
    push_line(
        &mut lines,
        "[ SPACE ] タイトルへ    [ Esc / q ] 終了",
        Style::tinted(Color::Gray),
    );
    assert(text::lines_of(lines@) =~= result_text(
        first_score(state.players@),
        first_lives(state.players@),
        cleared,
    ));
    Panel { lines, border: color, width: 46, height: 10 }
}

/// The box at the end of a match.
pub fn match_result_panel(winner: Option<usize>) -> (panel: Panel)
    requires
        winner matches Some(idx) ==> idx < usize::MAX,
    ensures
        panel@ == match_box(winner),
{
    let (headline, color) = match winner {
        Some(idx) => {
            let mut headline = "PLAYER ".to_owned();
            push_decimal(&mut headline, (idx + 1) as u64);
            push_text(&mut headline, " WINS!");
            (headline, Color::LightGreen)
        },
        None => ("DRAW".to_owned(), Color::LightYellow),
    };
    let mut lines: Vec<TextLine> = Vec::new();
    assert(text::lines_of(lines@) =~= Seq::<Seq<SpanView>>::empty());
    push_line(&mut lines, "", Style::plain());
    push_owned(&mut lines, headline, Style::bold(color));
    push_line(&mut lines, "", Style::plain());
    push_line(
        &mut lines,
        "[ SPACE ] タイトルへ    [ Esc / q ] 終了",
        Style::tinted(Color::Gray),
    );
    assert(text::lines_of(lines@) =~= match_text(winner));
    Panel { lines, border: color, width: 46, height: 8 }
}

/// Where the status line and the field go.
pub open spec fn playing_parts(area: Rect, columns: u16, rows: u16) -> (Rect, Rect) {
    (
        render::top_line(area),
        render::centered(
            (columns + 2) as u16,
            (rows + 2) as u16,
            render::below_top_line(area),
        ),
    )
}

/// Where the status line and the field go when the field takes up that many rows
/// and columns: the line on top, and the field with a border in the middle of the
/// rest.
pub fn playing_areas(area: Rect, columns: u16, rows: u16) -> (parts: (Rect, Rect))
    requires
        area.wf(),
        columns + 2 <= u16::MAX,
        rows + 2 <= u16::MAX,
    ensures
        parts == playing_parts(area, columns, rows),
        area.covers(parts.1),
{
    let (status, rest) = split_top_line(area);
    (status, centered_rect(columns + 2, rows + 2, rest))
}

/// The status line tells the score and the lives of the first player and the size
/// of a pixel: each can be read off it.
pub proof fn lemma_status_can_be_read(players: Seq<Player>, zoom: nat)
    requires
        players.len() > 0,
    ensures
        ({
            let line = status_text(first_score(players), first_lives(players), zoom);
            let score = line[0].text;
            let left = line[2].text;
            let size = line[4].text;
            &&& line.len() == 5
            &&& text::number_in(score.subrange(7, score.len() - 1)) == players[0].score
            &&& score.len() >= 14
            &&& text::number_in(left.subrange(7, left.len() - 1)) == players[0].lives
            &&& text::number_in(size.subrange(2, size.len() - 1)) == zoom
            &&& score.take(7) == " SCORE "@
            &&& left.take(7) == " LIVES "@
        }),
{
    let line = status_text(first_score(players), first_lives(players), zoom);
    let score = line[0].text;
    let left = line[2].text;
    let size = line[4].text;
    reveal_strlit(" SCORE ");
    reveal_strlit(" LIVES ");
    reveal_strlit(" x");
    reveal_strlit(" ");
    let s = text::zero_filled(players[0].score as nat, 6);
    let l = text::decimal(players[0].lives as nat);
    let z = text::decimal(zoom);
    text::lemma_zero_filled_reads_back(players[0].score as nat, 6);
    text::lemma_decimal_reads_back(players[0].lives as nat);
    text::lemma_decimal_reads_back(zoom);
    assert(score.subrange(7, score.len() - 1) =~= s);
    assert(left.subrange(7, left.len() - 1) =~= l);
    assert(size.subrange(2, size.len() - 1) =~= z);
    assert(score.take(7) =~= " SCORE "@);
    assert(left.take(7) =~= " LIVES "@);
}

/// The end of a round tells whether it was won, the score and the lives left.
pub proof fn lemma_results_can_be_read(players: Seq<Player>, cleared: bool)
    requires
        players.len() > 0,
    ensures
        ({
            let lines = result_text(first_score(players), first_lives(players), cleared);
            let score = lines[3][0].text;
            let left = lines[4][0].text;
            &&& lines[1][0].text == if cleared {
                "STAGE CLEAR!"@
            } else {
                "GAME OVER"@
            }
            &&& score.take(7) == "SCORE: "@
            &&& text::number_in(score.skip(7)) == players[0].score
            &&& left.take(7) == "LIVES: "@
            &&& text::number_in(left.skip(7)) == players[0].lives
        }),
        result_headline(true).1 != result_headline(false).1,
        result_headline(true).0 != result_headline(false).0,
{
    let lines = result_text(first_score(players), first_lives(players), cleared);
    let score = lines[3][0].text;
    let left = lines[4][0].text;
    reveal_strlit("SCORE: ");
    reveal_strlit("LIVES: ");
    reveal_strlit("STAGE CLEAR!");
    reveal_strlit("GAME OVER");
    assert("STAGE CLEAR!"@.len() != "GAME OVER"@.len());
    text::lemma_zero_filled_reads_back(players[0].score as nat, 6);
    text::lemma_decimal_reads_back(players[0].lives as nat);
    assert(score.skip(7) =~= text::zero_filled(players[0].score as nat, 6));
    assert(left.skip(7) =~= text::decimal(players[0].lives as nat));
    assert(score.take(7) =~= "SCORE: "@);
    assert(left.take(7) =~= "LIVES: "@);
}

/// The end of a match names the winner, counted from one, and nobody in a draw.
pub proof fn lemma_winners_are_named(winner: usize)
    requires
        winner < usize::MAX,
    ensures
        ({
            let headline = match_text(Some(winner))[1][0].text;
            &&& headline.take(7) == "PLAYER "@
            &&& text::number_in(headline.subrange(7, headline.len() - 6)) == winner + 1
        }),
        match_text(None)[1][0].text == "DRAW"@,
        match_headline(Some(winner)).1 != match_headline(None).1,
{
    let headline = match_text(Some(winner))[1][0].text;
    reveal_strlit("PLAYER ");
    reveal_strlit(" WINS!");
    text::lemma_decimal_reads_back((winner + 1) as nat);
    assert(headline.subrange(7, headline.len() - 6) =~= text::decimal((winner + 1) as nat));
    assert(headline.take(7) =~= "PLAYER "@);
}

/// The status line is on top; the field with its border lies below it, in the
/// middle, and has all the room it asks for where there is that much.
pub proof fn lemma_the_field_has_room(area: Rect, columns: u16, rows: u16)
    requires
        area.x + area.width <= u16::MAX,
        area.y + area.height <= u16::MAX,
        columns + 2 <= area.width,
        rows + 3 <= area.height,
    ensures
        ({
            let (line, field) = playing_parts(area, columns, rows);
            &&& line.x == area.x && line.y == area.y && line.width == area.width && line.height == 1
            &&& field.width == columns + 2
            &&& field.height == rows + 2
            &&& field.y > line.y
            &&& 0 <= (area.x + area.width - field.x - field.width) - (field.x - area.x) <= 1
            &&& 0 <= (area.y + area.height - field.y - field.height) - (field.y - area.y - 1) <= 1
        }),
{
}

/// Boxes are drawn in the colour of their headline: green for a win, red for a loss,
/// yellow for a draw. They are equally wide, and high enough for their lines.
pub proof fn lemma_boxes(score: nat, lives: nat, cleared: bool, winner: Option<usize>)
    ensures
        ({
            let b = result_box(score, lives, cleared);
            &&& Some(b.border) == b.lines[1][0].style.fg
            &&& b.lines[1][0].style.bold
            &&& b.border == if cleared {
                Color::LightGreen
            } else {
                Color::LightRed
            }
            &&& b.lines.len() == 7
            &&& b.width == 46 && b.height == 10
        }),
        ({
            let b = match_box(winner);
            &&& Some(b.border) == b.lines[1][0].style.fg
            &&& b.lines[1][0].style.bold
            &&& b.border == if winner is Some {
                Color::LightGreen
            } else {
                Color::LightYellow
            }
            &&& b.lines.len() == 4
            &&& b.width == 46 && b.height == 8
        }),
{
}

/// The way on is told at the bottom of every screen, the same at the end of rounds
/// and matches.
pub proof fn lemma_the_way_on(score: nat, lives: nat, cleared: bool, winner: Option<usize>)
    ensures
        result_text(score, lives, cleared).last() == match_text(winner).last(),
        match_text(winner).last()[0].text == "[ SPACE ] タイトルへ    [ Esc / q ] 終了"@,
        match_text(winner).last()[0].style.fg == Some(Color::Gray),
        title_text().len() == 11,
        title_text()[3][0].text == "║   B O M B E R M A N   T E R M   ║"@,
        title_text()[8][0].text == "[ SPACE ] で ゲーム開始"@,
        title_text().last()[0].text
            == "移動: ↑ ↓ ← → / h j k l    設置: Space    終了: Esc / q    表示拡大縮小: + / -"@,
{
}

} // verus!
