//! Pictures and texts.

use bombermanterm::game::entities::{Bomb, Explosion};
use bombermanterm::game::state::GameState;
use bombermanterm::menu::MODE_COUNT;
use bombermanterm::render::field::{grass_bg, player_sprite_for, render_field_canvas};
use bombermanterm::render::intro::{build_canvas, canvas_of, display_size};
use bombermanterm::render::menu::{
    host_setup_panel, join_input_panel, lines_in, mode_select_panel, BOX_WIDTH, MODE_LABELS,
};
use bombermanterm::render::pixel_canvas::{HalfBlock, PixelCanvas};
use bombermanterm::render::screens::{
    match_result_panel, playing_areas, result_panel, status_line, title_lines, Panel,
};
use bombermanterm::render::sprites::{
    block_sprite, bomb_sprite, explosion_sprite, item_sprite, player_sprite, wall_sprite,
    PlayerColor, Sprite,
};
use bombermanterm::render::text::{push_decimal, push_zero_filled, Style, TextLine};
use bombermanterm::render::{
    apply_zoom, centered_rect, split_top_line, Color, Rect, DEFAULT_ZOOM, MAX_ZOOM, MIN_ZOOM,
};
use bombermanterm::types::{Action, ItemKind, Screen, Tile};

fn text_of(lines: &[TextLine]) -> String {
    let mut text = String::new();
    for line in lines {
        for span in &line.spans {
            text.push_str(&span.text);
        }
        text.push('\n');
    }
    text
}

fn panel_text(panel: &Panel) -> String {
    text_of(&panel.lines)
}

/// What is written on the screen that the game is on.
fn rendered_text(state: &GameState) -> String {
    match state.screen {
        Screen::Title => text_of(&title_lines()),
        Screen::Playing => text_of(&[status_line(state, DEFAULT_ZOOM)]),
        Screen::Cleared => panel_text(&result_panel(state, true)),
        Screen::GameOver => panel_text(&result_panel(state, false)),
        Screen::MatchResult(winner) => panel_text(&match_result_panel(winner)),
    }
}

#[test]
fn playing_hud_shows_player_zero_score_and_lives() {
    let mut state = GameState::new();
    state.screen = Screen::Playing;
    state.players[0].score = 1250;
    state.players[0].lives = 2;

    let text = rendered_text(&state);
    assert!(
        text.contains("SCORE 001250"),
        "HUD must show player 0 score"
    );
    assert!(text.contains("LIVES 2"), "HUD must show player 0 lives");
    assert!(text.contains(" x1 "));
}

#[test]
fn every_screen_renders_without_panicking() {
    let mut state = GameState::new();

    for screen in [
        Screen::Title,
        Screen::Playing,
        Screen::Cleared,
        Screen::GameOver,
    ] {
        state.screen = screen;
        let text = rendered_text(&state);
        assert!(!text.trim().is_empty(), "{screen:?} must draw something");
    }

    assert!(rendered_text(&state).contains("GAME OVER"));
    state.screen = Screen::Cleared;
    assert!(rendered_text(&state).contains("STAGE CLEAR!"));
}

#[test]
fn match_result_screen_shows_the_winner_or_a_draw() {
    let mut state = GameState::new();

    state.screen = Screen::MatchResult(Some(1));
    assert!(rendered_text(&state).contains("PLAYER 2 WINS!"));

    state.screen = Screen::MatchResult(None);
    assert!(rendered_text(&state).contains("DRAW"));
}

#[test]
fn playing_field_renders_with_multiple_players_present() {
    let mut state = GameState::new_multiplayer(4);
    state.screen = Screen::Playing;

    let text = rendered_text(&state);
    assert!(text.contains("SCORE 000000"));
    let canvas = render_field_canvas(&state);
    assert_eq!((canvas.width, canvas.height), (120, 104));
}

#[test]
fn result_screens_show_the_score_in_a_box() {
    let mut state = GameState::new();
    state.players[0].score = 77;
    state.players[0].lives = 0;
    let panel = result_panel(&state, false);
    assert_eq!((panel.width, panel.height, panel.border), (46, 10, Color::LightRed));
    let text = panel_text(&panel);
    assert!(text.contains("SCORE: 000077\nLIVES: 0\n"), "{text}");
    assert_eq!(result_panel(&state, true).border, Color::LightGreen);
    assert_eq!(match_result_panel(None).border, Color::LightYellow);
}

#[test]
fn mode_select_lists_every_mode() {
    for selected in 0..MODE_LABELS.len() + 1 {
        let text = panel_text(&mode_select_panel(selected));
        for label in MODE_LABELS {
            assert!(text.contains(label), "{label}: {text}");
        }
        assert_eq!(text.contains('▶'), selected < MODE_LABELS.len());
    }
}

#[test]
fn mode_label_count_matches_the_state_machine() {
    assert_eq!(MODE_LABELS.len(), MODE_COUNT);
}

#[test]
fn host_setup_shows_the_player_count_and_an_error() {
    let text = panel_text(&host_setup_panel(3, None));
    assert!(text.contains("対戦人数: 3人"), "{text}");

    let error = "ポート 4321 で待ち受けられません\n(Address already in use (os error 48))";
    let text = panel_text(&host_setup_panel(4, Some(error)));
    assert!(text.contains("対戦人数: 4人"), "{text}");
    for part in error.lines() {
        assert!(text.contains(part), "{part} / {text}");
    }
}

#[test]
fn join_input_shows_the_typed_address_and_an_error() {
    let text = panel_text(&join_input_panel("", None));
    assert!(text.contains("JOIN"));
    assert!(text.contains("Backspace"));

    let error = "接続に失敗しました\n(Connection refused (os error 61))";
    let text = panel_text(&join_input_panel("192.168.1.10:4321", Some(error)));
    assert!(text.contains("> 192.168.1.10:4321█"), "{text}");
    for part in error.lines() {
        assert!(text.contains(part), "{part} / {text}");
    }
}

#[test]
fn menu_screens_render_on_a_small_terminal() {
    // On a terminal smaller than the box, the box is cut to fit.
    let area = Rect {
        x: 0,
        y: 0,
        width: 30,
        height: 10,
    };
    for panel in [
        mode_select_panel(1),
        host_setup_panel(2, Some("エラー")),
        join_input_panel("127.0.0.1:4321", Some("エラー")),
    ] {
        let part = centered_rect(panel.width, panel.height, area);
        assert_eq!((part.x, part.width), (0, 30));
        assert_eq!(part.height, panel.height.min(10));
        assert!(part.y + part.height <= 10);
    }
}

#[test]
fn menu_boxes_are_as_high_as_their_lines() {
    for panel in [
        mode_select_panel(0),
        host_setup_panel(2, Some("a\nb\nc")),
        join_input_panel("x", None),
    ] {
        assert_eq!(panel.width, BOX_WIDTH);
        assert_eq!(panel.height as usize, panel.lines.len() + 2);
    }
    assert_eq!(host_setup_panel(2, Some("a\nb\nc")).lines.len(), 10);
    assert_eq!(host_setup_panel(2, None).lines.len(), 6);
}

#[test]
fn lines_are_those_of_the_standard_library() {
    for text in ["", "\n", "a", "a\n", "a\r\nb", "a\rb\r", "\r\n\r\n", "a\n\nb", "\r"] {
        let expected: Vec<&str> = text.lines().collect();
        assert_eq!(lines_in(text), expected, "{text:?}");
    }
}

#[test]
fn numbers_are_written_like_the_standard_library_does() {
    for n in [0, 1, 9, 10, 99, 100, 123_456, 1_234_567, u64::MAX] {
        let mut text = String::new();
        push_decimal(&mut text, n);
        assert_eq!(text, format!("{n}"));
        let mut text = String::new();
        push_zero_filled(&mut text, n, 6);
        assert_eq!(text, format!("{n:06}"));
    }
}

#[test]
fn the_title_names_the_keys() {
    let lines = title_lines();
    assert_eq!(lines.len(), 11);
    let text = text_of(&lines);
    assert!(text.contains("B O M B E R M A N"));
    assert!(text.contains("+ / -"));
    assert_eq!(lines[3].spans[0].style, Style::bold(Color::LightRed));
}

#[test]
fn boxes_are_centred_and_cut_to_fit() {
    let area = Rect { x: 3, y: 1, width: 100, height: 40 };
    assert_eq!(
        centered_rect(46, 10, area),
        Rect { x: 30, y: 16, width: 46, height: 10 }
    );
    let small = Rect { x: 0, y: 0, width: 30, height: 10 };
    assert_eq!(centered_rect(60, 20, small), small);
}

#[test]
fn the_top_line_is_split_like_a_layout_does() {
    for height in 0..5 {
        for (x, y, width) in [(0, 0, 80), (7, 3, 1), (2, 9, 0)] {
            let outside = ratatui::layout::Rect::new(x, y, width, height);
            let parts = ratatui::layout::Layout::vertical([
                ratatui::layout::Constraint::Length(1),
                ratatui::layout::Constraint::Min(0),
            ])
            .split(outside);
            let (line, rest) = split_top_line(Rect { x, y, width, height });
            for (part, ours) in [(parts[0], line), (parts[1], rest)] {
                assert_eq!(
                    (part.x, part.y, part.width, part.height),
                    (ours.x, ours.y, ours.width, ours.height)
                );
            }
        }
    }
}

#[test]
fn the_field_stands_below_the_status_line() {
    let area = Rect { x: 0, y: 0, width: 200, height: 60 };
    let (status, field) = playing_areas(area, 120, 52);
    assert_eq!(status, Rect { x: 0, y: 0, width: 200, height: 1 });
    assert_eq!(field, Rect { x: 39, y: 3, width: 122, height: 54 });
}

#[test]
fn zoom_stays_within_its_bounds() {
    assert_eq!(apply_zoom(1, Action::ZoomIn), 2);
    assert_eq!(apply_zoom(2, Action::ZoomOut), 1);
    assert_eq!(apply_zoom(MAX_ZOOM, Action::ZoomIn), MAX_ZOOM);
    assert_eq!(apply_zoom(MIN_ZOOM, Action::ZoomOut), MIN_ZOOM);
    assert_eq!(apply_zoom(2, Action::PlaceBomb), 2);
    assert_eq!(apply_zoom(0, Action::ZoomOut), MIN_ZOOM);
    assert_eq!(apply_zoom(9, Action::Idle), MAX_ZOOM);
}

#[test]
fn new_fills_with_background_color() {
    let canvas = PixelCanvas::new(4, 4, Color::Rgb(1, 2, 3));
    assert_eq!(canvas.get(0, 0), Color::Rgb(1, 2, 3));
    assert_eq!(canvas.get(3, 3), Color::Rgb(1, 2, 3));
    assert_eq!(canvas.get(4, 0), Color::Reset);
}

#[test]
fn set_out_of_bounds_is_ignored_not_panicking() {
    let mut canvas = PixelCanvas::new(2, 2, Color::Black);
    canvas.set(100, 100, Color::White);
    assert_eq!(canvas.get(0, 0), Color::Black);
    canvas.set(1, 0, Color::White);
    assert_eq!(canvas.get(1, 0), Color::White);
    assert_eq!(canvas.get(0, 1), Color::Black);
}

#[test]
fn to_lines_pairs_rows_into_half_block_lines() {
    let canvas = PixelCanvas::new(2, 2, Color::Rgb(9, 9, 9));
    let lines = canvas.to_lines(1);
    assert_eq!(lines.len(), 1);
}

#[test]
fn to_lines_handles_odd_height_by_reusing_top_pixel_for_the_last_row() {
    let mut canvas = PixelCanvas::new(1, 3, Color::Rgb(5, 5, 5));
    canvas.set(0, 1, Color::Red);
    let lines = canvas.to_lines(1);
    assert_eq!(lines.len(), 2);
    let five = Color::Rgb(5, 5, 5);
    assert_eq!(lines[0], vec![HalfBlock { upper: five, lower: Color::Red }]);
    assert_eq!(lines[1], vec![HalfBlock { upper: five, lower: five }]);
}

#[test]
fn to_lines_scale_multiplies_output_dimensions() {
    let canvas = PixelCanvas::new(2, 2, Color::Rgb(1, 1, 1));
    let lines = canvas.to_lines(3);
    assert_eq!(lines.len(), 3);
    assert_eq!(lines[0].len(), 6);
    assert_eq!(canvas.to_lines(0), canvas.to_lines(1));
}

fn dot(sprite: &Sprite, x: usize, y: usize) -> Option<Color> {
    sprite.pixels[y][x]
}

#[test]
fn sprites_have_their_colours() {
    let wall = wall_sprite();
    assert_eq!(wall.pixels.len(), 8);
    assert!(wall.pixels.iter().all(|row| row.len() == 8));
    assert_eq!(dot(&wall, 0, 0), Some(Color::Rgb(38, 40, 46)));
    assert_eq!(dot(&wall, 3, 3), Some(Color::Rgb(150, 154, 164)));
    assert_eq!(dot(&block_sprite(), 3, 2), Some(Color::Rgb(140, 82, 32)));
    assert_eq!(dot(&player_sprite(PlayerColor::Red), 1, 5), Some(Color::Rgb(210, 40, 40)));
    assert_eq!(dot(&player_sprite(PlayerColor::Red), 0, 0), None);
    assert_eq!(dot(&bomb_sprite(true), 2, 0), Some(Color::Rgb(255, 90, 20)));
    assert_eq!(dot(&bomb_sprite(false), 2, 0), Some(Color::Rgb(200, 160, 40)));
    assert_eq!(dot(&explosion_sprite(), 3, 3), Some(Color::Rgb(255, 250, 220)));
    assert_eq!(dot(&item_sprite(ItemKind::SpeedUp), 3, 3), Some(Color::Rgb(60, 200, 220)));
}

#[test]
fn sprites_are_transparent_where_they_have_no_colour() {
    let mut canvas = PixelCanvas::new(8, 8, Color::Red);
    canvas.blit_sprite(0, 0, &explosion_sprite());
    assert_eq!(canvas.get(0, 0), Color::Rgb(230, 60, 10));
    assert_eq!(canvas.get(1, 0), Color::Red);
    let mut canvas = PixelCanvas::new(8, 8, Color::Red);
    canvas.blit_sprite(7, 7, &wall_sprite());
    assert_eq!(canvas.get(7, 7), Color::Rgb(38, 40, 46));
    assert_eq!(canvas.get(6, 7), Color::Red);
}

#[test]
fn the_field_is_drawn_from_back_to_front() {
    let mut state = GameState::new();
    state.enemies.clear();
    // Top left cell of the board: a wall.
    let canvas = render_field_canvas(&state);
    assert_eq!(canvas.get(0, 0), Color::Rgb(38, 40, 46));
    // The player's cell: grass shows through, the face does not.
    assert_eq!(canvas.get(8, 8), grass_bg((1, 1)));
    assert_eq!(canvas.get(10, 9), Color::Rgb(244, 224, 196));
    // A bomb lies under the player, a blast over both.
    state.bombs.push(Bomb::new((1, 1), 1, 0));
    let canvas = render_field_canvas(&state);
    assert_eq!(canvas.get(10, 9), Color::Rgb(244, 224, 196));
    state.explosions.push(Explosion::new(vec![(1, 1)]));
    let canvas = render_field_canvas(&state);
    assert_eq!(canvas.get(8, 8), Color::Rgb(230, 60, 10));
    assert_eq!(canvas.get(10, 9), Color::Rgb(244, 224, 196));
    assert_eq!(canvas.get(11, 11), Color::Rgb(255, 250, 220));
    // The dead are not drawn.
    state.players[0].alive = false;
    state.bombs.clear();
    state.explosions.clear();
    assert_eq!(render_field_canvas(&state).get(10, 9), grass_bg((1, 1)));
}

#[test]
fn tiles_and_fuses_show_what_they_are() {
    let mut state = GameState::new();
    state.enemies.clear();
    state.map.tiles[1][2] = Tile::ItemTile(ItemKind::Power);
    state.map.tiles[2][1] = Tile::Block;
    let canvas = render_field_canvas(&state);
    assert_eq!(canvas.get(16 + 3, 8 + 3), Color::Rgb(230, 60, 40));
    assert_eq!(canvas.get(8, 16), Color::Rgb(64, 36, 14));

    // The fuse is at (2, 0) of the bomb's cell. It glows in the last second.
    state.players[0].alive = false;
    let fuse = |timer| {
        let mut state = state.clone();
        let mut bomb = Bomb::new((1, 1), 1, 0);
        bomb.timer = timer;
        state.bombs.push(bomb);
        render_field_canvas(&state).get(8 + 2, 8)
    };
    let hot = Color::Rgb(255, 90, 20);
    let cold = Color::Rgb(200, 160, 40);
    assert_eq!(fuse(2_000_000_000), cold);
    assert_eq!(fuse(1_000_000_000), cold);
    assert_eq!(fuse(900_000_000), cold);
    assert_eq!(fuse(800_000_000), hot);
    assert_eq!(fuse(0), hot);
    assert_eq!(fuse(-250_000_000), cold);
}

#[test]
fn the_suit_of_a_player_shows_invincibility() {
    let mut player = GameState::new().players[0];
    let suit = |player: &bombermanterm::game::entities::Player| {
        dot(&player_sprite_for(player), 1, 5)
    };
    assert_eq!(suit(&player), Some(Color::Rgb(235, 238, 242)));
    player.invincible_remaining = 4_950_000_000;
    assert_eq!(suit(&player), Some(Color::Rgb(90, 220, 230)));
    player.invincible_remaining = 250_000_000;
    assert_eq!(suit(&player), Some(Color::Rgb(230, 90, 220)));
    player.invincible_remaining = 399_999_999;
    assert_eq!(suit(&player), Some(Color::Rgb(255, 235, 90)));
    player.invincible_remaining = 1;
    assert_eq!(suit(&player), Some(Color::Rgb(235, 238, 242)));
    player.god_mode = true;
    assert_eq!(suit(&player), Some(Color::Rgb(255, 215, 0)));
}

/// The file of an image in one colour, but for its top left pixel.
fn png(width: u32, height: u32, color: [u8; 3], corner: [u8; 3]) -> Vec<u8> {
    let mut picture = image::RgbImage::from_pixel(width, height, image::Rgb(color));
    picture.put_pixel(0, 0, image::Rgb(corner));
    let mut file = std::io::Cursor::new(Vec::new());
    image::DynamicImage::ImageRgb8(picture)
        .write_to(&mut file, image::ImageFormat::Png)
        .expect("a picture can be written");
    file.into_inner()
}

#[test]
fn build_canvas_produces_non_empty_output() {
    let canvas = build_canvas(&png(32, 32, [10, 20, 30], [10, 20, 30])).expect("a picture");
    let lines = canvas.to_lines(1);
    assert!(!lines.is_empty());
    assert_eq!((canvas.width, canvas.height), (96, 96));
    assert_eq!(canvas.get(50, 50), Color::Rgb(10, 20, 30));
}

#[test]
fn pictures_keep_their_proportions_and_lose_their_background() {
    let canvas = build_canvas(&png(192, 96, [255, 255, 255], [255, 255, 255])).expect("a picture");
    assert_eq!((canvas.width, canvas.height), (96, 48));
    assert_eq!(canvas.get(3, 3), Color::Rgb(10, 14, 24));
    let canvas = build_canvas(&png(96, 96, [200, 0, 0], [235, 235, 234])).expect("a picture");
    assert_eq!(canvas.get(0, 0), Color::Rgb(235, 235, 234));
    assert_eq!(canvas.get(95, 95), Color::Rgb(200, 0, 0));
}

#[test]
fn what_is_no_picture_is_not_shown() {
    assert!(build_canvas(b"no picture").is_none());
    assert!(build_canvas(&[]).is_none());
}

#[test]
fn pictures_are_shown_at_most_at_the_display_size() {
    assert_eq!(display_size(96, 96), (96, 96));
    assert_eq!(display_size(4_000, 1_000), (96, 24));
    assert_eq!(display_size(1_000, 4_000), (24, 96));
    assert_eq!(display_size(100_000, 1), (96, 1));
    assert_eq!(display_size(0, 0), (96, 1));
    assert_eq!(display_size(u32::MAX, u32::MAX), (96, 96));
}

#[test]
fn long_pictures_are_shown_too() {
    let canvas = build_canvas(&png(70_000, 1, [10, 20, 30], [10, 20, 30])).expect("a picture");
    assert_eq!((canvas.width, canvas.height), (96, 1));
    assert_eq!(canvas.get(50, 0), Color::Rgb(10, 20, 30));
    let canvas = build_canvas(&png(1, 70_000, [10, 20, 30], [10, 20, 30])).expect("a picture");
    assert_eq!((canvas.width, canvas.height), (1, 96));
}

#[test]
fn the_height_of_a_menu_box_is_counted_in_sixteen_bits() {
    let bare = host_setup_panel(2, None).lines.len();
    let with_one = host_setup_panel(2, Some("x")).lines.len();
    let error = |lines: usize| "x\n".repeat(lines);
    assert_eq!(host_setup_panel(2, None).height as usize, bare + 2);
    for (lines, height) in [(65_533, 65_535), (65_534, 65_535), (65_536, 2), (65_540, 6)] {
        let text = error(lines + 1 - with_one);
        assert_eq!(host_setup_panel(2, Some(&text)).lines.len(), lines);
        assert_eq!(host_setup_panel(2, Some(&text)).height, height);
    }
    let long = join_input_panel("a", Some(&error(65_536)));
    assert_eq!(long.height as usize, long.lines.len() % 65_536 + 2);
}

#[test]
fn white_enough_is_white() {
    let bytes = [235, 235, 235, 235, 235, 234, 1, 2, 3, 255, 255, 255];
    let canvas = canvas_of(&bytes, 2, 2);
    let background = Color::Rgb(10, 14, 24);
    assert_eq!(canvas.get(0, 0), background);
    assert_eq!(canvas.get(1, 0), Color::Rgb(235, 235, 234));
    assert_eq!(canvas.get(0, 1), Color::Rgb(1, 2, 3));
    assert_eq!(canvas.get(1, 1), background);
}
