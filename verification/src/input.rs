//! Keys and what they mean in the game.

use vstd::prelude::*;

use crate::types::{Action, Direction};

verus! {

/// A key of the keyboard, as far as the game and the menu tell keys apart.
#[derive(Debug, Clone, Copy, PartialEq, Eq, Structural)]
pub enum Key {
    Up,
    Down,
    Left,
    Right,
    Enter,
    Esc,
    Backspace,
    Char(char),
    /// Any other key.
    Other,
}

/// Something done to a key.
#[derive(Debug, Clone, Copy, PartialEq, Eq, Structural)]
pub struct KeyEvent {
    pub key: Key,
    /// The control key was held down.
    pub ctrl: bool,
    /// The alternate key was held down.
    pub alt: bool,
    /// The key was let go. Some terminals report that, too.
    pub released: bool,
}

impl KeyEvent {
    /// A key pressed on its own.
    pub fn new(key: Key) -> (event: KeyEvent)
        ensures
            event == (KeyEvent { key, ctrl: false, alt: false, released: false }),
    {
        KeyEvent { key, ctrl: false, alt: false, released: false }
    }
}

/// Where the actions of a player come from.
pub trait InputSource {
    /// The next action, without waiting for one.
    fn poll_action(&mut self) -> Action;
}

/// The letters of the hidden command. None of them is a key of the game.
pub open spec fn god_mode_code() -> Seq<char> {
    seq!['g', 'o', 'd']
}

/// The last three letters typed, given those typed before `c`.
pub open spec fn last_letters(before: Seq<char>, c: char) -> Seq<char> {
    let typed = before.push(c);
    if typed.len() > god_mode_code().len() {
        typed.drop_first()
    } else {
        typed
    }
}

/// What a key does in the game by itself, apart from the hidden command.
pub open spec fn key_action(key: Key) -> Option<Action> {
    match key {
        Key::Up => Some(Action::Move(Direction::Up)),
        Key::Down => Some(Action::Move(Direction::Down)),
        Key::Left => Some(Action::Move(Direction::Left)),
        Key::Right => Some(Action::Move(Direction::Right)),
        Key::Esc => Some(Action::Quit),
        Key::Char(c) => if c == 'k' {
            Some(Action::Move(Direction::Up))
        } else if c == 'j' {
            Some(Action::Move(Direction::Down))
        } else if c == 'h' {
            Some(Action::Move(Direction::Left))
        } else if c == 'l' {
            Some(Action::Move(Direction::Right))
        } else if c == ' ' {
            Some(Action::PlaceBomb)
        } else if c == 'q' {
            Some(Action::Quit)
        } else if c == '+' {
            Some(Action::ZoomIn)
        } else if c == '-' {
            Some(Action::ZoomOut)
        } else {
            None
        },
        _ => None,
    }
}

/// What a key does in the game by itself, apart from the hidden command.
pub fn action_of_key(key: Key) -> (action: Option<Action>)
    ensures
        action == key_action(key),
{
    match key {
        Key::Up | Key::Char('k') => Some(Action::Move(Direction::Up)),
        Key::Down | Key::Char('j') => Some(Action::Move(Direction::Down)),
        Key::Left | Key::Char('h') => Some(Action::Move(Direction::Left)),
        Key::Right | Key::Char('l') => Some(Action::Move(Direction::Right)),
        Key::Char(' ') => Some(Action::PlaceBomb),
        Key::Esc | Key::Char('q') => Some(Action::Quit),
        Key::Char('+') => Some(Action::ZoomIn),
        Key::Char('-') => Some(Action::ZoomOut),
        _ => None,
    }
}

/// What a key event means to a keyboard with these letters in its memory: the
/// action, and the letters kept afterwards.
pub open spec fn pressed(
    before: Seq<char>,
    event: KeyEvent,
    action: Action,
    after: Seq<char>,
) -> bool {
    match (event.released, key_action(event.key), event.key) {
        (false, Some(meaning), _) => action == meaning && after == before,
        (false, None, Key::Char(c)) => {
            let letters = last_letters(before, c);
            if letters == god_mode_code() {
                action == Action::ToggleGodMode && after == Seq::<char>::empty()
            } else {
                action == Action::Idle && after == letters
            }
        },
        _ => action == Action::Idle && after == before,
    }
}

/// The keyboard, with a memory for the hidden command.
#[derive(Debug, Clone)]
pub struct KeyboardInput {
    /// The letters typed last, as many as the hidden command has at most.
    pub code_buffer: Vec<char>,
}

impl KeyboardInput {
    /// No more letters are kept than the hidden command has, and they do not
    /// make it up.
    pub open spec fn wf(&self) -> bool {
        &&& self.code_buffer@.len() <= god_mode_code().len()
        &&& self.code_buffer@ != god_mode_code()
    }

    /// A keyboard on which nothing has been typed.
    pub fn new() -> (input: KeyboardInput)
        ensures
            input.wf(),
            input.code_buffer@ == Seq::<char>::empty(),
    {
        KeyboardInput { code_buffer: Vec::with_capacity(3) }
    }

    /// Takes note of a letter that means nothing in the game. Says whether it
    /// completes the hidden command, and if so forgets the letters.
    pub fn feed_code_buffer(&mut self, c: char) -> (complete: bool)
        requires
            old(self).wf(),
        ensures
            final(self).wf(),
            complete == (last_letters(old(self).code_buffer@, c) == god_mode_code()),
            final(self).code_buffer@ == if complete {
                Seq::<char>::empty()
            } else {
                last_letters(old(self).code_buffer@, c)
            },
    {
        let ghost before = self.code_buffer@;
        self.code_buffer.push(c);
        if self.code_buffer.len() > 3 {
            self.code_buffer.remove(0);
            assert(self.code_buffer@ =~= before.push(c).drop_first());
        }
        let complete = self.code_buffer.len() == 3 && self.code_buffer[0] == 'g'
            && self.code_buffer[1] == 'o' && self.code_buffer[2] == 'd';
        if complete {
            assert(self.code_buffer@ =~= god_mode_code());
            self.code_buffer.clear();
        }
        complete
    }

    /// What a key event means in the game. Keys that are let go mean nothing.
    pub fn action_for_key(&mut self, event: KeyEvent) -> (action: Action)
        requires
            old(self).wf(),
        ensures
            final(self).wf(),
            pressed(old(self).code_buffer@, event, action, final(self).code_buffer@),
            event.released || key_action(event.key) is Some || !(event.key is Char)
                ==> *final(self) == *old(self),
    {
        if event.released {
            return Action::Idle;
        }
        match action_of_key(event.key) {
            Some(action) => action,
            None => match event.key {
                Key::Char(c) => {
                    if self.feed_code_buffer(c) {
                        Action::ToggleGodMode
                    } else {
                        Action::Idle
                    }
                },
                _ => Action::Idle,
            },
        }
    }
}

impl Default for KeyboardInput {
    /// A keyboard on which nothing has been typed.
    fn default() -> (input: KeyboardInput)
        ensures
            input.wf(),
            input.code_buffer@ == Seq::<char>::empty(),
    {
        KeyboardInput::new()
    }
}

/// Whatever was typed before, the letters of the hidden command complete it, and
/// not before the last of them.
pub proof fn lemma_god_mode_code_completes(before: Seq<char>)
    requires
        before.len() <= god_mode_code().len(),
    ensures
        last_letters(before, 'g') != god_mode_code(),
        last_letters(last_letters(before, 'g'), 'o') != god_mode_code(),
        last_letters(last_letters(last_letters(before, 'g'), 'o'), 'd') == god_mode_code(),
{
    let one = last_letters(before, 'g');
    let two = last_letters(one, 'o');
    let three = last_letters(two, 'd');
    assert(one.last() == 'g');
    assert(two.last() == 'o');
    assert(god_mode_code().last() == 'd');
    assert(three =~= god_mode_code());
}

/// A letter completes the hidden command only if it and the two before it are the
/// letters of the command, in order.
pub proof fn lemma_god_mode_code_needed(before: Seq<char>, c: char)
    requires
        before.len() <= god_mode_code().len(),
        last_letters(before, c) == god_mode_code(),
    ensures
        c == 'd',
        before.len() >= 2,
        before[before.len() - 2] == 'g',
        before[before.len() - 1] == 'o',
{
    let letters = last_letters(before, c);
    assert(letters[0] == 'g' && letters[1] == 'o' && letters[2] == 'd');
}

/// No letter of the hidden command is a key of the game, so the game cannot keep
/// the command from being typed, nor set it off.
pub proof fn lemma_god_mode_code_is_no_key(i: int)
    requires
        0 <= i < god_mode_code().len(),
    ensures
        key_action(Key::Char(god_mode_code()[i])) is None,
{
}

/// What the keys of the game mean. The four letters mean what the four arrows do;
/// space places a bomb; Esc and q leave; plus and minus change the size of the
/// picture; and no other key means anything by itself.
pub proof fn lemma_keys_of_the_game(key: Key)
    ensures
        key_action(key) == Some(Action::Move(Direction::Up)) <==> key == Key::Up || key
            == Key::Char('k'),
        key_action(key) == Some(Action::Move(Direction::Down)) <==> key == Key::Down || key
            == Key::Char('j'),
        key_action(key) == Some(Action::Move(Direction::Left)) <==> key == Key::Left || key
            == Key::Char('h'),
        key_action(key) == Some(Action::Move(Direction::Right)) <==> key == Key::Right || key
            == Key::Char('l'),
        key_action(key) == Some(Action::PlaceBomb) <==> key == Key::Char(' '),
        key_action(key) == Some(Action::Quit) <==> key == Key::Esc || key == Key::Char('q'),
        key_action(key) == Some(Action::ZoomIn) <==> key == Key::Char('+'),
        key_action(key) == Some(Action::ZoomOut) <==> key == Key::Char('-'),
        key_action(key) matches Some(action) ==> !(action is Idle) && !(action is Pause) && !(
        action is ToggleGodMode),
{
}

/// What pressing a key comes to: the action of a key of the game is what the key
/// means, it leaves the memory alone, and only a letter that means nothing by
/// itself can switch forced invincibility. Keys that are let go do nothing.
pub proof fn lemma_pressing(before: Seq<char>, event: KeyEvent, action: Action, after: Seq<char>)
    requires
        pressed(before, event, action, after),
    ensures
        event.released ==> action is Idle && after == before,
        !event.released && key_action(event.key) is Some ==> Some(action) == key_action(event.key)
            && after == before,
        action is ToggleGodMode ==> !event.released && event.key == Key::Char('d') && after.len()
            == 0,
        key_action(event.key) is None && !(action is ToggleGodMode) ==> action is Idle,
{
    if action is ToggleGodMode {
        let c = event.key->Char_0;
        assert(last_letters(before, c).last() == c);
        assert(god_mode_code().last() == 'd');
    }
}

/// Typing g, o and d one after the other switches forced invincibility with the
/// last of them, whatever was typed before, and starts afresh.
pub proof fn lemma_hidden_command(
    before: Seq<char>,
    first: Action,
    one: Seq<char>,
    second: Action,
    two: Seq<char>,
    third: Action,
    three: Seq<char>,
)
    requires
        before.len() <= 3,
        pressed(
            before,
            KeyEvent { key: Key::Char('g'), ctrl: false, alt: false, released: false },
            first,
            one,
        ),
        pressed(
            one,
            KeyEvent { key: Key::Char('o'), ctrl: false, alt: false, released: false },
            second,
            two,
        ),
        pressed(
            two,
            KeyEvent { key: Key::Char('d'), ctrl: false, alt: false, released: false },
            third,
            three,
        ),
    ensures
        first is Idle,
        second is Idle,
        third is ToggleGodMode,
        three.len() == 0,
{
    lemma_god_mode_code_completes(before);
}

} // verus!
