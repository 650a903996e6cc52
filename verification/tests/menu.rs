//! The menu.

use bombermanterm::game::spawn::{MAX_PLAYERS, MIN_MULTIPLAYER_PLAYERS};
use bombermanterm::input::{Key, KeyEvent};
use bombermanterm::menu::{
    is_blank, is_white_space, step, LaunchChoice, MenuState, StepOutcome, DEFAULT_HOST_PLAYERS,
    MODE_HOST, MODE_JOIN, MODE_LOCAL,
};

fn key(key: Key) -> KeyEvent {
    KeyEvent::new(key)
}

fn mode_select(selected: usize) -> MenuState {
    MenuState::ModeSelect { selected }
}

fn host_setup(players: usize) -> MenuState {
    MenuState::HostSetup {
        players,
        error: None,
    }
}

fn join_input(addr: &str) -> MenuState {
    MenuState::JoinInput {
        addr: addr.to_string(),
        error: None,
    }
}

fn continued(outcome: StepOutcome) -> MenuState {
    match outcome {
        StepOutcome::Continue(state) => state,
        other => panic!("expected to go on, got {other:?}"),
    }
}

#[test]
fn mode_select_moves_up_and_down_and_wraps_around() {
    for code in [Key::Down, Key::Char('j')] {
        assert_eq!(
            continued(step(mode_select(0), key(code))),
            mode_select(1),
            "{code:?} で下へ"
        );
        assert_eq!(continued(step(mode_select(2), key(code))), mode_select(0));
    }

    for code in [Key::Up, Key::Char('k')] {
        assert_eq!(
            continued(step(mode_select(1), key(code))),
            mode_select(0),
            "{code:?} で上へ"
        );
        assert_eq!(continued(step(mode_select(0), key(code))), mode_select(2));
    }
}

#[test]
fn mode_select_enter_starts_local_play_or_opens_the_setup_screen() {
    assert_eq!(
        step(mode_select(MODE_LOCAL), key(Key::Enter)),
        StepOutcome::Launch(LaunchChoice::Local)
    );
    assert_eq!(
        continued(step(mode_select(MODE_HOST), key(Key::Enter))),
        host_setup(DEFAULT_HOST_PLAYERS),
        "ホストの既定人数はCLIの --players と同じ"
    );
    assert_eq!(
        continued(step(mode_select(MODE_JOIN), key(Key::Enter))),
        join_input(""),
        "参加は空のアドレス入力から始まる"
    );
}

#[test]
fn mode_select_quits_on_esc_or_q() {
    for code in [Key::Esc, Key::Char('q')] {
        assert_eq!(step(mode_select(0), key(code)), StepOutcome::Quit);
    }
}

#[test]
fn mode_select_ignores_unrelated_keys() {
    for code in [Key::Char(' '), Key::Char('z'), Key::Other] {
        assert_eq!(continued(step(mode_select(1), key(code))), mode_select(1));
    }
}

#[test]
fn host_setup_changes_the_player_count_within_the_supported_range() {
    for code in [Key::Right, Key::Char('l')] {
        assert_eq!(continued(step(host_setup(2), key(code))), host_setup(3));
        assert_eq!(
            continued(step(host_setup(MAX_PLAYERS), key(code))),
            host_setup(MAX_PLAYERS)
        );
    }

    for code in [Key::Left, Key::Char('h')] {
        assert_eq!(continued(step(host_setup(3), key(code))), host_setup(2));
        assert_eq!(
            continued(step(host_setup(MIN_MULTIPLAYER_PLAYERS), key(code))),
            host_setup(MIN_MULTIPLAYER_PLAYERS)
        );
    }
}

#[test]
fn host_setup_keeps_the_error_until_the_player_count_matters() {
    let state = MenuState::HostSetup {
        players: 3,
        error: Some("ポートが使用中です".to_string()),
    };
    assert_eq!(
        continued(step(state, key(Key::Right))),
        MenuState::HostSetup {
            players: 4,
            error: Some("ポートが使用中です".to_string())
        }
    );
}

#[test]
fn host_setup_enter_launches_and_esc_goes_back_to_mode_select() {
    assert_eq!(
        step(host_setup(4), key(Key::Enter)),
        StepOutcome::Launch(LaunchChoice::Host { players: 4 })
    );
    assert_eq!(
        continued(step(host_setup(3), key(Key::Esc))),
        mode_select(MODE_HOST),
        "戻り先はホストの項目"
    );
}

#[test]
fn join_input_types_and_deletes_characters() {
    let mut state = join_input("");
    for c in "127.0.0.1:4321".chars() {
        state = continued(step(state, key(Key::Char(c))));
    }
    assert_eq!(state, join_input("127.0.0.1:4321"));

    state = continued(step(state, key(Key::Backspace)));
    assert_eq!(state, join_input("127.0.0.1:432"));

    let mut empty = join_input("");
    empty = continued(step(empty, key(Key::Backspace)));
    assert_eq!(empty, join_input(""));
}

#[test]
fn join_input_editing_clears_the_previous_error() {
    let state = MenuState::JoinInput {
        addr: "127.0.0.1:4321".to_string(),
        error: Some("接続に失敗しました".to_string()),
    };
    assert_eq!(
        continued(step(state, key(Key::Backspace))),
        join_input("127.0.0.1:432")
    );
}

#[test]
fn join_input_does_not_type_control_combinations() {
    let state = join_input("127.0.0.1");
    let mut ctrl_c = key(Key::Char('c'));
    ctrl_c.ctrl = true;
    assert_eq!(continued(step(state, ctrl_c)), join_input("127.0.0.1"));
}

#[test]
fn join_input_needs_an_address_before_connecting() {
    for addr in ["", " "] {
        assert_eq!(
            continued(step(join_input(addr), key(Key::Enter))),
            join_input(addr),
            "{addr:?} では接続しない"
        );
    }

    assert_eq!(
        step(join_input("127.0.0.1:4321"), key(Key::Enter)),
        StepOutcome::Launch(LaunchChoice::Join {
            addr: "127.0.0.1:4321".to_string()
        })
    );
}

#[test]
fn join_input_esc_goes_back_to_mode_select() {
    assert_eq!(
        continued(step(join_input("127.0.0.1"), key(Key::Esc))),
        mode_select(MODE_JOIN),
        "戻り先は参加の項目"
    );
}

#[test]
fn join_input_does_not_type_alternate_combinations() {
    let mut alt_c = key(Key::Char('c'));
    alt_c.alt = true;
    assert_eq!(continued(step(join_input("127"), alt_c)), join_input("127"));
}

#[test]
fn join_input_keeps_the_error_while_nothing_is_edited() {
    let state = MenuState::JoinInput {
        addr: " ".to_string(),
        error: Some("refused".to_string()),
    };
    assert_eq!(continued(step(state.clone(), key(Key::Enter))), state);
    assert_eq!(continued(step(state.clone(), key(Key::Up))), state);
}

#[test]
fn selections_out_of_range_are_brought_back() {
    assert_eq!(continued(step(mode_select(7), key(Key::Other))), mode_select(2));
    assert_eq!(continued(step(host_setup(0), key(Key::Other))), host_setup(2));
    assert_eq!(
        step(host_setup(9), key(Key::Enter)),
        StepOutcome::Launch(LaunchChoice::Host { players: 4 })
    );
}

#[test]
fn up_and_down_undo_each_other() {
    for selected in 0..3 {
        let down = continued(step(mode_select(selected), key(Key::Down)));
        assert_eq!(continued(step(down, key(Key::Up))), mode_select(selected));
        let up = continued(step(mode_select(selected), key(Key::Up)));
        assert_eq!(continued(step(up, key(Key::Down))), mode_select(selected));
    }
}

#[test]
fn white_space_is_what_the_standard_library_takes_for_it() {
    for code in 0..=0x10_ffff_u32 {
        if let Some(c) = char::from_u32(code) {
            assert_eq!(is_white_space(c), c.is_whitespace(), "{code:x}");
        }
    }
}

#[test]
fn blank_is_what_nothing_is_left_of_when_trimmed() {
    for text in ["", " ", "\t \u{3000}", "a", " a ", "\u{200b}", "127.0.0.1"] {
        assert_eq!(is_blank(text), text.trim().is_empty(), "{text:?}");
    }
}
