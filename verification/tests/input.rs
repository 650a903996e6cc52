//! Keys and what they mean.

use bombermanterm::input::{Key, KeyEvent, KeyboardInput};
use bombermanterm::types::{Action, Direction};

#[test]
fn feed_code_buffer_recognizes_the_full_sequence() {
    let mut input = KeyboardInput::new();
    assert!(!input.feed_code_buffer('g'));
    assert!(!input.feed_code_buffer('o'));
    assert!(input.feed_code_buffer('d'));
}

#[test]
fn feed_code_buffer_ignores_unrelated_keys_and_resets_after_match() {
    let mut input = KeyboardInput::new();
    assert!(!input.feed_code_buffer('x'));
    assert!(!input.feed_code_buffer('g'));
    assert!(!input.feed_code_buffer('o'));
    assert!(input.feed_code_buffer('d'));

    assert!(!input.feed_code_buffer('g'));
    assert!(!input.feed_code_buffer('o'));
    assert!(input.feed_code_buffer('d'));
}

#[test]
fn feed_code_buffer_keeps_only_a_trailing_window() {
    let mut input = KeyboardInput::new();
    for c in ['z', 'z', 'z', 'g', 'o'] {
        assert!(!input.feed_code_buffer(c));
    }
    assert!(input.feed_code_buffer('d'));
}

fn press(input: &mut KeyboardInput, key: Key) -> Action {
    input.action_for_key(KeyEvent::new(key))
}

#[test]
fn every_key_of_the_game_has_its_action() {
    let mut input = KeyboardInput::default();
    let keys = [
        (Key::Up, Action::Move(Direction::Up)),
        (Key::Char('k'), Action::Move(Direction::Up)),
        (Key::Down, Action::Move(Direction::Down)),
        (Key::Char('j'), Action::Move(Direction::Down)),
        (Key::Left, Action::Move(Direction::Left)),
        (Key::Char('h'), Action::Move(Direction::Left)),
        (Key::Right, Action::Move(Direction::Right)),
        (Key::Char('l'), Action::Move(Direction::Right)),
        (Key::Char(' '), Action::PlaceBomb),
        (Key::Esc, Action::Quit),
        (Key::Char('q'), Action::Quit),
        (Key::Char('+'), Action::ZoomIn),
        (Key::Char('-'), Action::ZoomOut),
        (Key::Char('x'), Action::Idle),
        (Key::Enter, Action::Idle),
        (Key::Backspace, Action::Idle),
        (Key::Other, Action::Idle),
    ];
    for (key, action) in keys {
        assert_eq!(press(&mut input, key), action, "{key:?}");
    }
}

#[test]
fn keys_that_are_let_go_mean_nothing() {
    let mut input = KeyboardInput::new();
    let mut event = KeyEvent::new(Key::Char(' '));
    event.released = true;
    assert_eq!(input.action_for_key(event), Action::Idle);
    let mut event = KeyEvent::new(Key::Char('g'));
    event.released = true;
    assert_eq!(input.action_for_key(event), Action::Idle);
    assert!(input.code_buffer.is_empty());
}

#[test]
fn the_hidden_command_works_between_other_keys() {
    let mut input = KeyboardInput::new();
    assert_eq!(press(&mut input, Key::Char('g')), Action::Idle);
    assert_eq!(press(&mut input, Key::Left), Action::Move(Direction::Left));
    assert_eq!(press(&mut input, Key::Char('o')), Action::Idle);
    assert_eq!(press(&mut input, Key::Char(' ')), Action::PlaceBomb);
    assert_eq!(press(&mut input, Key::Char('d')), Action::ToggleGodMode);
    assert_eq!(press(&mut input, Key::Char('d')), Action::Idle);
}

#[test]
fn the_hidden_command_may_be_begun_twice() {
    let mut input = KeyboardInput::new();
    for c in ['g', 'o', 'g', 'o'] {
        assert!(!input.feed_code_buffer(c));
    }
    assert!(input.feed_code_buffer('d'));
    assert!(input.code_buffer.is_empty());
}
