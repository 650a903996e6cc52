//! What is written on the screens of the menu.

use vstd::prelude::*;

use crate::render;
use crate::render::screens;
use crate::render::screens::{Panel, PanelView};
use crate::render::text;
use crate::render::text::{push_decimal, push_line, push_owned, push_text, SpanView, Style, TextLine};
use crate::render::Color;

verus! {

/// The width of every screen of the menu, so that the box does not move.
pub const BOX_WIDTH: u16 = 60;

/// The entries of the mode selection, from the top.
pub const MODE_LABELS: [&'static str; 3] = [
    "1人プレイ(CPU対戦)",
    "ホストになる(ネット対戦)",
    "参加する(ネット対戦)",
];

/// The entries of the mode selection, from the top.
pub open spec fn mode_names() -> Seq<Seq<char>> {
    seq!["1人プレイ(CPU対戦)"@, "ホストになる(ネット対戦)"@, "参加する(ネット対戦)"@]
}

/// A line of advice.
pub open spec fn hint_line(text: Seq<char>) -> Seq<SpanView> {
    text::one(text, text::tinted(Color::DarkGray))
}

/// An entry of the mode selection. The one selected is marked and reversed.
pub open spec fn mode_item(label: Seq<char>, selected: bool) -> Seq<SpanView> {
    if selected {
        text::one(
            " ▶ "@ + label + " "@,
            Style { reversed: true, ..text::bold(Color::LightCyan) },
        )
    } else {
        text::one("   "@ + label + " "@, text::tinted(Color::Gray))
    }
}

/// What is written on the mode selection.
pub open spec fn mode_select_text(selected: int) -> Seq<Seq<SpanView>> {
    seq![
        screens::blank_line(),
        text::one("MODE SELECT"@, text::bold(Color::LightCyan)),
        screens::blank_line(),
        mode_item(mode_names()[0], selected == 0),
        mode_item(mode_names()[1], selected == 1),
        mode_item(mode_names()[2], selected == 2),
        screens::blank_line(),
        hint_line("[ ↑ ↓ ] 選択    [ Enter ] 決定    [ Q / Esc ] 終了"@),
    ]
}

/// The lines of a text: what lies between line ends, without those, and without
/// what a carriage return before a line end would add. A line end at the end of
/// the text starts no further line.
pub open spec fn split_lines(text: Seq<char>) -> Seq<Seq<char>> {
    cut_lines(text, seq![])
}

/// The lines of a text of which `begun` is the beginning of the first.
pub open spec fn cut_lines(text: Seq<char>, begun: Seq<char>) -> Seq<Seq<char>>
    decreases text.len(),
{
    if text.len() == 0 {
        if begun.len() == 0 {
            seq![]
        } else {
            seq![begun]
        }
    } else if text[0] == '\n' {
        seq![without_return(begun)] + cut_lines(text.drop_first(), seq![])
    } else {
        cut_lines(text.drop_first(), begun.push(text[0]))
    }
}

/// A line without the carriage return at its end, if there is one.
pub open spec fn without_return(line: Seq<char>) -> Seq<char> {
    if line.len() > 0 && line.last() == '\r' {
        line.drop_last()
    } else {
        line
    }
}

/// The lines that tell of a failure, after a blank one; none if there was none.
pub open spec fn error_lines(error: Option<Seq<char>>) -> Seq<Seq<SpanView>> {
    match error {
        Some(message) => seq![screens::blank_line()] + split_lines(message).map_values(
            |line: Seq<char>| text::one(line, text::bold(Color::LightRed)),
        ),
        None => seq![],
    }
}

/// What is written on the screen for hosting.
pub open spec fn host_setup_text(players: nat, error: Option<Seq<char>>) -> Seq<Seq<SpanView>> {
    seq![
        screens::blank_line(),
        text::one("HOST"@, text::bold(Color::LightCyan)),
        screens::blank_line(),
        text::one(
            "対戦人数: "@ + text::decimal(players) + "人 (自分を含む)"@,
            text::bold(Color::White),
        ),
    ] + error_lines(error) + seq![
        screens::blank_line(),
        hint_line("[ ← → ] 人数変更    [ Enter ] 開始    [ Esc ] 戻る"@),
    ]
}

/// What is written on the screen for joining. A block stands for the cursor.
pub open spec fn join_input_text(addr: Seq<char>, error: Option<Seq<char>>) -> Seq<Seq<SpanView>> {
    seq![
        screens::blank_line(),
        text::one("JOIN"@, text::bold(Color::LightCyan)),
        screens::blank_line(),
        text::one("ホストのアドレスを入力してください"@, text::tinted(Color::Gray)),
        text::one("> "@ + addr + "█"@, text::bold(Color::White)),
        text::one("例: 192.168.1.10:4321"@, text::tinted(Color::DarkGray)),
    ] + error_lines(error) + seq![
        screens::blank_line(),
        hint_line("[ 文字入力 ] アドレス    [ Backspace ] 1文字削除"@),
        hint_line("[ Enter ] 接続    [ Esc ] 戻る"@),
    ]
}

/// The text of a message, if there is one.
pub open spec fn message(error: Option<&str>) -> Option<Seq<char>> {
    match error {
        Some(text) => Some(text@),
        None => None,
    }
}

/// Adds an entry of the mode selection.
fn push_mode_item(lines: &mut Vec<TextLine>, label: &str, selected: bool)
    ensures
        text::lines_of(final(lines)@) == text::lines_of(old(lines)@).push(
            mode_item(label@, selected),
        ),
{
    if selected {
        let mut item = " ▶ ".to_owned();
        push_text(&mut item, label);
        push_text(&mut item, " ");
        push_owned(
            lines,
            item,
            Style { fg: Some(Color::LightCyan), bg: None, bold: true, reversed: true },
        );
    } else {
        let mut item = "   ".to_owned();
        push_text(&mut item, label);
        push_text(&mut item, " ");
        push_owned(lines, item, Style::tinted(Color::Gray));
    }
}

/// Adds the lines of a failure, each by itself so that none is cut off.
fn push_error(lines: &mut Vec<TextLine>, error: Option<&str>)
    ensures
        text::lines_of(final(lines)@) == text::lines_of(old(lines)@) + error_lines(message(error)),
{
    let ghost before = text::lines_of(lines@);
    if let Some(text) = error {
        push_line(lines, "", Style::plain());
        let ghost opened = text::lines_of(lines@);
        let parts = lines_in(text);
        let ghost red = |line: Seq<char>| text::one(line, text::bold(Color::LightRed));
        for i in 0..parts.len()
            invariant
                red == (|line: Seq<char>| text::one(line, text::bold(Color::LightRed))),
                text::lines_of(lines@) == opened + texts(parts@).take(i as int).map_values(red),
        {
            push_line(lines, parts[i].as_str(), Style::bold(Color::LightRed));
            assert(text::lines_of(lines@) =~= opened + texts(parts@).take(i + 1).map_values(red));
        }
        assert(texts(parts@).take(parts@.len() as int) =~= texts(parts@));
        assert(text::lines_of(lines@) =~= before + error_lines(Some(text@)));
    } else {
        assert(before + Seq::<Seq<SpanView>>::empty() =~= before);
    }
}

/// The texts as values.
pub open spec fn texts(parts: Seq<String>) -> Seq<Seq<char>> {
    parts.map_values(|part: String| part@)
}

/// The lines of a text.
pub fn lines_in(text: &str) -> (parts: Vec<String>)
    ensures
        texts(parts@) == split_lines(text@),
{
    let mut parts: Vec<String> = Vec::new();
    let mut begun = String::new();
    assert(text@.skip(0) =~= text@);
    assert(texts(parts@) + cut_lines(text@, begun@) =~= cut_lines(text@, seq![]));
    for letter in read: text.chars()
        invariant
            read.seq() == text@,
            split_lines(text@) == texts(parts@) + cut_lines(
                text@.skip(read.index() as int),
                begun@,
            ),
    {
        let ghost i = read.index() as int;
        let ghost rest = text@.skip(i);
        let ghost done = texts(parts@);
        assert(rest.drop_first() =~= text@.skip(i + 1));
        if letter == '\n' {
            let ghost line = begun@;
            let finished = strip_return(begun);
            let ghost stripped = finished@;
            parts.push(finished);
            begun = String::new();
            proof {
                assert(texts(parts@) =~= done.push(stripped));
                assert(done + (seq![stripped] + cut_lines(rest.drop_first(), seq![])) =~= done.push(
                    stripped,
                ) + cut_lines(rest.drop_first(), seq![]));
            }
        } else {
            begun.push(letter);
        }
    }
    let ghost done = texts(parts@);
    assert(text@.skip(text@.len() as int).len() == 0);
    if !begun.as_str().is_empty() {
        let ghost last = begun@;
        parts.push(begun);
        assert(texts(parts@) =~= done + seq![last]);
    } else {
        assert(done + Seq::<Seq<char>>::empty() =~= done);
    }
    parts
}

/// A line without the carriage return at its end, if there is one.
fn strip_return(line: String) -> (stripped: String)
    ensures
        stripped@ == without_return(line@),
{
    let mut shorter = line.clone();
    if let Some('\r') = shorter.pop() {
        shorter
    } else {
        line
    }
}

/// The box of the mode selection.
pub fn mode_select_panel(selected: usize) -> (panel: Panel)
    ensures
        panel@ == menu_box(mode_select_text(selected as int)),
        panel.height == 10,
{
    let labels = MODE_LABELS;
    let mut lines: Vec<TextLine> = Vec::new();
    assert(text::lines_of(lines@) =~= Seq::<Seq<SpanView>>::empty());
    push_line(&mut lines, "", Style::plain());
    push_line(&mut lines, "MODE SELECT", Style::bold(Color::LightCyan));
    push_line(&mut lines, "", Style::plain());
    push_mode_item(&mut lines, labels[0], selected == 0);
    push_mode_item(&mut lines, labels[1], selected == 1);
    push_mode_item(&mut lines, labels[2], selected == 2);
    push_line(&mut lines, "", Style::plain());
    push_line(
        &mut lines,
        "[ ↑ ↓ ] 選択    [ Enter ] 決定    [ Q / Esc ] 終了",
        Style::tinted(Color::DarkGray),
    );
    assert(text::lines_of(lines@) =~= mode_select_text(selected as int));
    assert(lines@.len() == text::lines_of(lines@).len());
    in_menu_box(lines)
}

/// The height of a box with that many lines, its border included. It is counted in
/// sixteen bits: of the lines, whole multiples of 65,536 do not show in it.
pub open spec fn box_height(lines: nat) -> int {
    render::lesser((lines % 65_536) as int + 2, u16::MAX as int)
}

/// Lines in the box of the menu.
pub open spec fn menu_box(lines: Seq<Seq<SpanView>>) -> PanelView {
    PanelView {
        lines,
        border: Color::LightCyan,
        width: BOX_WIDTH as int,
        height: box_height(lines.len()),
    }
}

/// Lines in the box of the menu, which is as high as they are many.
fn in_menu_box(lines: Vec<TextLine>) -> (panel: Panel)
    ensures
        panel.lines == lines,
        panel.border == Color::LightCyan,
        panel.width == BOX_WIDTH,
        panel.height == box_height(lines@.len()),
{
    let counted = (lines.len() % 65_536) as u16;
    let height: u16 = if counted <= 65_533 {
        counted + 2
    } else {
        u16::MAX
    };
    Panel { lines, border: Color::LightCyan, width: BOX_WIDTH, height }
}

/// The box of the screen for hosting.
pub fn host_setup_panel(players: usize, error: Option<&str>) -> (panel: Panel)
    ensures
        panel@ == menu_box(host_setup_text(players as nat, message(error))),
        panel.height == box_height(panel.lines@.len()),
{
    let mut number = "対戦人数: ".to_owned();
    push_decimal(&mut number, players as u64);
    push_text(&mut number, "人 (自分を含む)");
    let mut lines: Vec<TextLine> = Vec::new();
    assert(text::lines_of(lines@) =~= Seq::<Seq<SpanView>>::empty());
    push_line(&mut lines, "", Style::plain());
    push_line(&mut lines, "HOST", Style::bold(Color::LightCyan));
    push_line(&mut lines, "", Style::plain());
    push_owned(&mut lines, number, Style::bold(Color::White));
    push_error(&mut lines, error);
    push_line(&mut lines, "", Style::plain());
    push_line(
        &mut lines,
        "[ ← → ] 人数変更    [ Enter ] 開始    [ Esc ] 戻る",
        Style::tinted(Color::DarkGray),
    );
    assert(text::lines_of(lines@) =~= host_setup_text(players as nat, message(error)));
    in_menu_box(lines)
}

/// The box of the screen for joining.
pub fn join_input_panel(addr: &str, error: Option<&str>) -> (panel: Panel)
    ensures
        panel@ == menu_box(join_input_text(addr@, message(error))),
        panel.height == box_height(panel.lines@.len()),
{
    let mut typed = "> ".to_owned();
    push_text(&mut typed, addr);
    push_text(&mut typed, "█");
    let mut lines: Vec<TextLine> = Vec::new();
    assert(text::lines_of(lines@) =~= Seq::<Seq<SpanView>>::empty());
    push_line(&mut lines, "", Style::plain());
    push_line(&mut lines, "JOIN", Style::bold(Color::LightCyan));
    push_line(&mut lines, "", Style::plain());
    push_line(
        &mut lines,
        "ホストのアドレスを入力してください",
        Style::tinted(Color::Gray),
    );
    push_owned(&mut lines, typed, Style::bold(Color::White));
    push_line(&mut lines, "例: 192.168.1.10:4321", Style::tinted(Color::DarkGray));
    push_error(&mut lines, error);
    push_line(&mut lines, "", Style::plain());
    push_line(
        &mut lines,
        "[ 文字入力 ] アドレス    [ Backspace ] 1文字削除",
        Style::tinted(Color::DarkGray),
    );
    push_line(&mut lines, "[ Enter ] 接続    [ Esc ] 戻る", Style::tinted(Color::DarkGray));
    assert(text::lines_of(lines@) =~= join_input_text(addr@, message(error)));
    in_menu_box(lines)
}

/// Of the three modes the one selected is marked, and no other; each is called by
/// its name.
pub proof fn lemma_the_selection_is_marked(selected: int, i: int)
    requires
        0 <= i < 3,
    ensures
        ({
            let line = mode_select_text(selected)[3 + i];
            &&& line.len() == 1
            &&& line[0].style.reversed <==> i == selected
            &&& line[0].text.subrange(3, line[0].text.len() - 1) == if i == 0 {
                "1人プレイ(CPU対戦)"@
            } else if i == 1 {
                "ホストになる(ネット対戦)"@
            } else {
                "参加する(ネット対戦)"@
            }
        }),
{
    let line = mode_select_text(selected)[3 + i];
    reveal_strlit(" ▶ ");
    reveal_strlit("   ");
    reveal_strlit(" ");
    assert(line[0].text.subrange(3, line[0].text.len() - 1) =~= mode_names()[i]);
}

/// The screen for hosting tells the number of players that is set.
pub proof fn lemma_the_number_is_shown(players: nat, error: Option<Seq<char>>)
    ensures
        ({
            let shown = host_setup_text(players, error)[3][0].text;
            text::number_in(shown.subrange(6, shown.len() - 9)) == players
        }),
{
    let shown = host_setup_text(players, error)[3][0].text;
    reveal_strlit("対戦人数: ");
    reveal_strlit("人 (自分を含む)");
    text::lemma_decimal_reads_back(players);
    assert(shown.subrange(6, shown.len() - 9) =~= text::decimal(players));
}

/// The screen for joining shows the address as it has been typed.
pub proof fn lemma_the_address_is_shown(addr: Seq<char>, error: Option<Seq<char>>)
    ensures
        ({
            let shown = join_input_text(addr, error)[4][0].text;
            shown.subrange(2, shown.len() - 1) == addr
        }),
{
    let shown = join_input_text(addr, error)[4][0].text;
    reveal_strlit("> ");
    reveal_strlit("█");
    assert(shown.subrange(2, shown.len() - 1) =~= addr);
}

/// A failure is told in full: its lines come one by one, in red, after a blank
/// line; without a failure there is nothing between the rest.
pub proof fn lemma_failures_are_told(players: nat, addr: Seq<char>, message: Seq<char>, i: int)
    requires
        0 <= i < split_lines(message).len(),
    ensures
        host_setup_text(players, Some(message)).len() == host_setup_text(players, None).len() + 1
            + split_lines(message).len(),
        join_input_text(addr, Some(message)).len() == join_input_text(addr, None).len() + 1
            + split_lines(message).len(),
        host_setup_text(players, Some(message))[5 + i][0].text == split_lines(message)[i],
        join_input_text(addr, Some(message))[7 + i][0].text == split_lines(message)[i],
        host_setup_text(players, Some(message))[5 + i][0].style.fg == Some(Color::LightRed),
        join_input_text(addr, Some(message))[7 + i][0].style.fg == Some(Color::LightRed),
{
}

/// Lines put together again, each with a line end.
pub open spec fn with_line_ends(lines: Seq<Seq<char>>) -> Seq<char>
    decreases lines.len(),
{
    if lines.len() == 0 {
        seq![]
    } else {
        lines[0].push('\n') + with_line_ends(lines.drop_first())
    }
}

/// Nothing of a text is lost when it is cut into lines: put together again they are
/// the text, but for carriage returns, and with a line end behind the last line.
pub proof fn lemma_lines_make_up_the_text(text: Seq<char>)
    requires
        forall|i: int| 0 <= i < text.len() ==> (#[trigger] text[i]) != '\r',
    ensures
        with_line_ends(split_lines(text)) == text || with_line_ends(split_lines(text))
            == text.push('\n'),
{
    lemma_cut_lines_make_up(text, seq![]);
    assert(Seq::<char>::empty() + text =~= text);
    assert((Seq::<char>::empty() + text).push('\n') =~= text.push('\n'));
}

/// The same, with the first line begun.
proof fn lemma_cut_lines_make_up(text: Seq<char>, begun: Seq<char>)
    requires
        forall|i: int| 0 <= i < text.len() ==> (#[trigger] text[i]) != '\r',
        begun.len() > 0 ==> begun.last() != '\r',
    ensures
        with_line_ends(cut_lines(text, begun)) == begun + text || with_line_ends(
            cut_lines(text, begun),
        ) == (begun + text).push('\n'),
    decreases text.len(),
{
    let lines = cut_lines(text, begun);
    reveal_with_fuel(with_line_ends, 2);
    if text.len() == 0 {
        assert(begun + text =~= begun);
        if begun.len() > 0 {
            assert(lines.drop_first() =~= Seq::<Seq<char>>::empty());
            assert(with_line_ends(lines) =~= begun.push('\n'));
        } else {
            assert(with_line_ends(lines) =~= begun);
        }
    } else {
        let rest = text.drop_first();
        assert forall|i: int| 0 <= i < rest.len() implies (#[trigger] rest[i]) != '\r' by {
            assert(rest[i] == text[i + 1]);
        }
        assert(text[0] != '\r');
        if text[0] == '\n' {
            lemma_cut_lines_make_up(rest, seq![]);
            let more = cut_lines(rest, seq![]);
            assert(lines.drop_first() =~= more);
            assert(lines[0] == begun);
            assert(Seq::<char>::empty() + rest =~= rest);
            assert(begun + text =~= begun.push('\n') + rest);
            assert((begun + text).push('\n') =~= begun.push('\n') + rest.push('\n'));
        } else {
            lemma_cut_lines_make_up(rest, begun.push(text[0]));
            assert(begun.push(text[0]) + rest =~= begun + text);
        }
    }
}

/// No line holds a line end.
pub proof fn lemma_lines_are_single(text: Seq<char>, i: int, j: int)
    requires
        0 <= i < split_lines(text).len(),
        0 <= j < split_lines(text)[i].len(),
    ensures
        split_lines(text)[i][j] != '\n',
{
    lemma_cut_lines_are_single(text, seq![], i, j);
}

/// The same, with the first line begun.
proof fn lemma_cut_lines_are_single(text: Seq<char>, begun: Seq<char>, i: int, j: int)
    requires
        forall|k: int| 0 <= k < begun.len() ==> (#[trigger] begun[k]) != '\n',
        0 <= i < cut_lines(text, begun).len(),
        0 <= j < cut_lines(text, begun)[i].len(),
    ensures
        cut_lines(text, begun)[i][j] != '\n',
    decreases text.len(),
{
    let lines = cut_lines(text, begun);
    if text.len() > 0 {
        let rest = text.drop_first();
        if text[0] == '\n' {
            if i > 0 {
                assert(lines[i] == cut_lines(rest, seq![])[i - 1]);
                lemma_cut_lines_are_single(rest, seq![], i - 1, j);
            } else {
                assert(lines[0] == without_return(begun));
                assert(lines[0][j] == begun[j]);
            }
        } else {
            lemma_cut_lines_are_single(rest, begun.push(text[0]), i, j);
        }
    } else {
        assert(lines[i] == begun);
    }
}

/// A box is higher than its lines are many by its border.
pub proof fn lemma_boxes_fit_their_lines(lines: nat)
    requires
        lines <= 65_533,
    ensures
        box_height(lines) == lines + 2,
{
}

/// The boxes of the menu are all equally wide, with the same border, and as high as
/// their lines and the border take.
pub proof fn lemma_menu_boxes(lines: Seq<Seq<SpanView>>)
    requires
        lines.len() <= 65_533,
    ensures
        menu_box(lines).lines == lines,
        menu_box(lines).border == Color::LightCyan,
        menu_box(lines).width == 60,
        menu_box(lines).height == lines.len() + 2,
{
}

/// Each screen of the menu has its name on top and tells its keys at the bottom.
pub proof fn lemma_names_and_keys(
    selected: int,
    players: nat,
    addr: Seq<char>,
    error: Option<Seq<char>>,
)
    ensures
        mode_select_text(selected)[1][0].text == "MODE SELECT"@,
        host_setup_text(players, error)[1][0].text == "HOST"@,
        join_input_text(addr, error)[1][0].text == "JOIN"@,
        mode_select_text(selected).last()[0].text
            == "[ ↑ ↓ ] 選択    [ Enter ] 決定    [ Q / Esc ] 終了"@,
        host_setup_text(players, error).last()[0].text
            == "[ ← → ] 人数変更    [ Enter ] 開始    [ Esc ] 戻る"@,
        join_input_text(addr, error).last()[0].text == "[ Enter ] 接続    [ Esc ] 戻る"@,
        mode_select_text(selected).len() == 8,
        host_setup_text(players, None).len() == 6,
        join_input_text(addr, None).len() == 9,
        mode_select_text(selected).last()[0].style.fg == Some(Color::DarkGray),
        host_setup_text(players, error).last()[0].style.fg == Some(Color::DarkGray),
        join_input_text(addr, error).last()[0].style.fg == Some(Color::DarkGray),
{
}

} // verus!
