//! The menu shown when the program is started without arguments.
//!
//! The menu knows nothing of the game. `step` says what a key does; a loop
//! around it reads keys and draws.

use vstd::prelude::*;

use crate::game::spawn::{MAX_PLAYERS, MIN_MULTIPLAYER_PLAYERS};
use crate::input::{Key, KeyEvent};

verus! {

/// The number of entries of the mode selection.
pub const MODE_COUNT: usize = 3;

/// The entry for a game on this machine.
pub const MODE_LOCAL: usize = 0;

/// The entry for hosting a match.
pub const MODE_HOST: usize = 1;

/// The entry for joining a match.
pub const MODE_JOIN: usize = 2;

/// The number of players suggested to a host.
pub const DEFAULT_HOST_PLAYERS: usize = 3;

/// Specifies `String::push`: the text gains the letter at its end.
pub assume_specification[ String::push ](string: &mut String, ch: char)
    ensures
        final(string)@ == old(string)@.push(ch),
;

/// Specifies `String::pop`: the text loses its last letter, which is given back;
/// an empty text stays empty, and there is nothing to give back.
pub assume_specification[ String::pop ](string: &mut String) -> (last: Option<char>)
    ensures
        old(string)@.len() == 0 ==> last is None && final(string)@ == old(string)@,
        old(string)@.len() > 0 ==> last == Some(old(string)@.last()) && final(string)@
            == old(string)@.drop_last(),
;

/// Which screen the menu is on.
#[derive(Debug, Clone, PartialEq, Eq)]
pub enum MenuState {
    /// The choice of a mode.
    ModeSelect { selected: usize },
    /// The number of players of a match to host, and why hosting failed before.
    HostSetup { players: usize, error: Option<String> },
    /// The address of a match to join, and why joining failed before.
    JoinInput { addr: String, error: Option<String> },
}

/// What the player has decided on.
#[derive(Debug, Clone, PartialEq, Eq)]
pub enum LaunchChoice {
    Local,
    Host { players: usize },
    Join { addr: String },
}

/// What one key leads to.
#[derive(Debug, Clone, PartialEq, Eq)]
pub enum StepOutcome {
    Continue(MenuState),
    Launch(LaunchChoice),
    Quit,
}

/// How the menu is left.
#[derive(Debug, Clone, PartialEq, Eq)]
pub enum MenuOutcome {
    Quit,
    Launch(LaunchChoice),
}

/// The state of the menu as a value.
pub enum MenuView {
    ModeSelect { selected: nat },
    HostSetup { players: nat, error: Option<Seq<char>> },
    JoinInput { addr: Seq<char>, error: Option<Seq<char>> },
}

/// What the player has decided on, as a value.
pub enum ChoiceView {
    Local,
    Host { players: nat },
    Join { addr: Seq<char> },
}

/// What one key leads to, as a value.
pub enum OutcomeView {
    Continue(MenuView),
    Launch(ChoiceView),
    Quit,
}

/// The text of a message, if there is one.
pub open spec fn message(error: Option<String>) -> Option<Seq<char>> {
    match error {
        Some(text) => Some(text@),
        None => None,
    }
}

impl View for MenuState {
    type V = MenuView;

    open spec fn view(&self) -> MenuView {
        match *self {
            MenuState::ModeSelect { selected } => MenuView::ModeSelect { selected: selected as nat },
            MenuState::HostSetup { players, error } => MenuView::HostSetup {
                players: players as nat,
                error: message(error),
            },
            MenuState::JoinInput { addr, error } => MenuView::JoinInput {
                addr: addr@,
                error: message(error),
            },
        }
    }
}

impl View for LaunchChoice {
    type V = ChoiceView;

    open spec fn view(&self) -> ChoiceView {
        match *self {
            LaunchChoice::Local => ChoiceView::Local,
            LaunchChoice::Host { players } => ChoiceView::Host { players: players as nat },
            LaunchChoice::Join { addr } => ChoiceView::Join { addr: addr@ },
        }
    }
}

impl View for StepOutcome {
    type V = OutcomeView;

    open spec fn view(&self) -> OutcomeView {
        match *self {
            StepOutcome::Continue(state) => OutcomeView::Continue(state@),
            StepOutcome::Launch(choice) => OutcomeView::Launch(choice@),
            StepOutcome::Quit => OutcomeView::Quit,
        }
    }
}

/// Whether the letter is white space.
pub open spec fn white_space(c: char) -> bool {
    let code = c as int;
    ||| 0x09 <= code <= 0x0d
    ||| code == 0x20
    ||| code == 0x85
    ||| code == 0xa0
    ||| code == 0x1680
    ||| 0x2000 <= code <= 0x200a
    ||| code == 0x2028
    ||| code == 0x2029
    ||| code == 0x202f
    ||| code == 0x205f
    ||| code == 0x3000
}

/// Whether there is nothing but white space.
pub open spec fn blank(text: Seq<char>) -> bool {
    forall|i: int| 0 <= i < text.len() ==> white_space(#[trigger] text[i])
}

/// The selection moved up by one entry, past the first to the last.
pub open spec fn moved_up(selected: nat) -> nat {
    if selected == 0 {
        (MODE_COUNT - 1) as nat
    } else {
        (selected - 1) as nat
    }
}

/// The selection moved down by one entry, past the last to the first.
pub open spec fn moved_down(selected: nat) -> nat {
    if selected == MODE_COUNT - 1 {
        0
    } else {
        selected + 1
    }
}

/// The number closest to `n` in the range from `low` to `high`.
pub open spec fn clamped(n: int, low: int, high: int) -> nat {
    if n < low {
        low as nat
    } else if n > high {
        high as nat
    } else {
        n as nat
    }
}

/// What a key does on the mode selection.
pub open spec fn mode_select_stepped(selected: nat, key: Key) -> OutcomeView {
    let selected = clamped(selected as int, 0, MODE_COUNT - 1);
    if key == Key::Up || key == Key::Char('k') {
        OutcomeView::Continue(MenuView::ModeSelect { selected: moved_up(selected) })
    } else if key == Key::Down || key == Key::Char('j') {
        OutcomeView::Continue(MenuView::ModeSelect { selected: moved_down(selected) })
    } else if key == Key::Enter {
        if selected == MODE_HOST {
            OutcomeView::Continue(
                MenuView::HostSetup { players: DEFAULT_HOST_PLAYERS as nat, error: None },
            )
        } else if selected == MODE_JOIN {
            OutcomeView::Continue(MenuView::JoinInput { addr: seq![], error: None })
        } else {
            OutcomeView::Launch(ChoiceView::Local)
        }
    } else if key == Key::Esc || key == Key::Char('q') {
        OutcomeView::Quit
    } else {
        OutcomeView::Continue(MenuView::ModeSelect { selected })
    }
}

/// What a key does on the screen for hosting.
pub open spec fn host_setup_stepped(players: nat, error: Option<Seq<char>>, key: Key) -> OutcomeView {
    let low = MIN_MULTIPLAYER_PLAYERS as int;
    let high = MAX_PLAYERS as int;
    let players = clamped(players as int, low, high);
    if key == Key::Left || key == Key::Char('h') {
        OutcomeView::Continue(
            MenuView::HostSetup { players: clamped(players - 1, low, high), error },
        )
    } else if key == Key::Right || key == Key::Char('l') {
        OutcomeView::Continue(
            MenuView::HostSetup { players: clamped((players + 1) as int, low, high), error },
        )
    } else if key == Key::Enter {
        OutcomeView::Launch(ChoiceView::Host { players })
    } else if key == Key::Esc {
        OutcomeView::Continue(MenuView::ModeSelect { selected: MODE_HOST as nat })
    } else {
        OutcomeView::Continue(MenuView::HostSetup { players, error })
    }
}

/// What a key does on the screen for joining.
pub open spec fn join_input_stepped(
    addr: Seq<char>,
    error: Option<Seq<char>>,
    event: KeyEvent,
) -> OutcomeView {
    match event.key {
        Key::Char(c) if !event.ctrl && !event.alt => OutcomeView::Continue(
            MenuView::JoinInput { addr: addr.push(c), error: None },
        ),
        Key::Backspace => OutcomeView::Continue(
            MenuView::JoinInput {
                addr: if addr.len() == 0 {
                    addr
                } else {
                    addr.drop_last()
                },
                error: None,
            },
        ),
        Key::Enter if !blank(addr) => OutcomeView::Launch(ChoiceView::Join { addr }),
        Key::Esc => OutcomeView::Continue(MenuView::ModeSelect { selected: MODE_JOIN as nat }),
        _ => OutcomeView::Continue(MenuView::JoinInput { addr, error }),
    }
}

/// What a key does in the menu.
pub open spec fn stepped(state: MenuView, event: KeyEvent) -> OutcomeView {
    match state {
        MenuView::ModeSelect { selected } => mode_select_stepped(selected, event.key),
        MenuView::HostSetup { players, error } => host_setup_stepped(players, error, event.key),
        MenuView::JoinInput { addr, error } => join_input_stepped(addr, error, event),
    }
}

/// Whether the letter is white space.
pub fn is_white_space(c: char) -> (white: bool)
    ensures
        white == white_space(c),
{
    let code = c as u32;
    (0x09 <= code && code <= 0x0d) || code == 0x20 || code == 0x85 || code == 0xa0 || code == 0x1680
        || (0x2000 <= code && code <= 0x200a) || code == 0x2028 || code == 0x2029 || code == 0x202f
        || code == 0x205f || code == 0x3000
}

/// Whether there is nothing but white space.
pub fn is_blank(text: &str) -> (result: bool)
    ensures
        result == blank(text@),
{
    for c in letters: text.chars()
        invariant
            letters.seq() == text@,
            forall|i: int| 0 <= i < letters.index() ==> white_space(#[trigger] text@[i]),
    {
        if !is_white_space(c) {
            assert(!white_space(text@[letters.index() as int]));
            return false;
        }
    }
    true
}

/// What a key does in the menu.
pub fn step(state: MenuState, event: KeyEvent) -> (outcome: StepOutcome)
    ensures
        outcome@ == stepped(state@, event),
{
    match state {
        MenuState::ModeSelect { selected } => step_mode_select(selected, event),
        MenuState::HostSetup { players, error } => step_host_setup(players, error, event),
        MenuState::JoinInput { addr, error } => step_join_input(addr, error, event),
    }
}

/// What a key does on the mode selection.
fn step_mode_select(selected: usize, event: KeyEvent) -> (outcome: StepOutcome)
    ensures
        outcome@ == mode_select_stepped(selected as nat, event.key),
{
    let selected: usize = if selected < MODE_COUNT {
        selected
    } else {
        MODE_COUNT - 1
    };
    match event.key {
        Key::Up | Key::Char('k') => StepOutcome::Continue(
            MenuState::ModeSelect { selected: (selected + MODE_COUNT - 1) % MODE_COUNT },
        ),
        Key::Down | Key::Char('j') => StepOutcome::Continue(
            MenuState::ModeSelect { selected: (selected + 1) % MODE_COUNT },
        ),
        Key::Enter => {
            if selected == MODE_HOST {
                StepOutcome::Continue(
                    MenuState::HostSetup { players: DEFAULT_HOST_PLAYERS, error: None },
                )
            } else if selected == MODE_JOIN {
                StepOutcome::Continue(MenuState::JoinInput { addr: String::new(), error: None })
            } else {
                StepOutcome::Launch(LaunchChoice::Local)
            }
        },
        Key::Esc | Key::Char('q') => StepOutcome::Quit,
        _ => StepOutcome::Continue(MenuState::ModeSelect { selected }),
    }
}

/// What a key does on the screen for hosting.
fn step_host_setup(players: usize, error: Option<String>, event: KeyEvent) -> (outcome: StepOutcome)
    ensures
        outcome@ == host_setup_stepped(players as nat, message(error), event.key),
{
    let players: usize = if players < MIN_MULTIPLAYER_PLAYERS {
        MIN_MULTIPLAYER_PLAYERS
    } else if players > MAX_PLAYERS {
        MAX_PLAYERS
    } else {
        players
    };
    match event.key {
        Key::Left | Key::Char('h') => {
            let fewer: usize = if players > MIN_MULTIPLAYER_PLAYERS {
                players - 1
            } else {
                players
            };
            StepOutcome::Continue(MenuState::HostSetup { players: fewer, error })
        },
        Key::Right | Key::Char('l') => {
            let more: usize = if players < MAX_PLAYERS {
                players + 1
            } else {
                players
            };
            StepOutcome::Continue(MenuState::HostSetup { players: more, error })
        },
        Key::Enter => StepOutcome::Launch(LaunchChoice::Host { players }),
        Key::Esc => StepOutcome::Continue(MenuState::ModeSelect { selected: MODE_HOST }),
        _ => StepOutcome::Continue(MenuState::HostSetup { players, error }),
    }
}

/// What a key does on the screen for joining.
///
/// Letters typed with the control or alternate key are not part of an address.
/// Once the address is edited the last failure no longer applies. Without an
/// address there is nothing to connect to.
fn step_join_input(addr: String, error: Option<String>, event: KeyEvent) -> (outcome: StepOutcome)
    ensures
        outcome@ == join_input_stepped(addr@, message(error), event),
{
    let mut addr = addr;
    match event.key {
        Key::Char(c) => {
            if event.ctrl || event.alt {
                return StepOutcome::Continue(MenuState::JoinInput { addr, error });
            }
            addr.push(c);
            StepOutcome::Continue(MenuState::JoinInput { addr, error: None })
        },
        Key::Backspace => {
            addr.pop();
            StepOutcome::Continue(MenuState::JoinInput { addr, error: None })
        },
        Key::Enter => {
            if is_blank(addr.as_str()) {
                StepOutcome::Continue(MenuState::JoinInput { addr, error })
            } else {
                StepOutcome::Launch(LaunchChoice::Join { addr })
            }
        },
        Key::Esc => StepOutcome::Continue(MenuState::ModeSelect { selected: MODE_JOIN }),
        _ => StepOutcome::Continue(MenuState::JoinInput { addr, error }),
    }
}

/// Up and down undo each other on the mode selection, and the selection stays
/// among its entries.
pub proof fn lemma_up_and_down(selected: nat)
    requires
        selected < MODE_COUNT,
    ensures
        moved_up(selected) < MODE_COUNT,
        moved_down(selected) < MODE_COUNT,
        moved_down(moved_up(selected)) == selected,
        moved_up(moved_down(selected)) == selected,
{
}

/// A match is only ever hosted for a number of players that the game supports,
/// whatever the keys.
pub proof fn lemma_hosted_matches_are_playable(state: MenuView, event: KeyEvent)
    ensures
        match stepped(state, event) {
            OutcomeView::Launch(ChoiceView::Host { players }) => MIN_MULTIPLAYER_PLAYERS <= players
                <= MAX_PLAYERS,
            OutcomeView::Continue(MenuView::HostSetup { players, .. }) => MIN_MULTIPLAYER_PLAYERS
                <= players <= MAX_PLAYERS,
            _ => true,
        },
{
}

/// A match is only ever joined at an address that is not blank.
pub proof fn lemma_joined_addresses_are_not_blank(state: MenuView, event: KeyEvent)
    ensures
        stepped(state, event) matches OutcomeView::Launch(ChoiceView::Join { addr }) ==> !blank(
            addr,
        ),
{
}

/// Backspace takes back what was typed last.
pub proof fn lemma_backspace_takes_back(addr: Seq<char>, error: Option<Seq<char>>, c: char)
    ensures
        ({
            let typed = KeyEvent { key: Key::Char(c), ctrl: false, alt: false, released: false };
            let back = KeyEvent { key: Key::Backspace, ctrl: false, alt: false, released: false };
            stepped(MenuView::JoinInput { addr, error }, typed) matches OutcomeView::Continue(
                after,
            ) && stepped(after, back) == OutcomeView::Continue(
                MenuView::JoinInput { addr, error: None },
            )
        }),
{
    assert(addr.push(c).drop_last() =~= addr);
}

/// On the mode selection, what is marked is what Enter leads to: a game on this
/// machine, the screen for hosting with three players suggested, or the screen for
/// joining with no address yet. The arrow keys and their letters go round the three
/// entries, Esc and q leave, and no other key does anything.
pub proof fn lemma_mode_selection(selected: nat, event: KeyEvent)
    requires
        selected < 3,
    ensures
        ({
            let result = stepped(MenuView::ModeSelect { selected }, event);
            &&& event.key == Key::Enter ==> match result {
                OutcomeView::Launch(choice) => selected == 0 && choice is Local,
                OutcomeView::Continue(MenuView::HostSetup { players, error }) => selected == 1
                    && players == 3 && error is None,
                OutcomeView::Continue(MenuView::JoinInput { addr, error }) => selected == 2
                    && addr.len() == 0 && error is None,
                _ => false,
            }
            &&& event.key == Key::Down || event.key == Key::Char('j') ==> result
                == OutcomeView::Continue(
                MenuView::ModeSelect { selected: (selected + 1) % 3 },
            )
            &&& event.key == Key::Up || event.key == Key::Char('k') ==> result
                == OutcomeView::Continue(
                MenuView::ModeSelect { selected: (selected + 2) % 3 },
            )
            &&& event.key == Key::Esc || event.key == Key::Char('q') <==> result is Quit
            &&& result == OutcomeView::Continue(MenuView::ModeSelect { selected }) <==> !(event.key
                == Key::Enter || event.key == Key::Down || event.key == Key::Up || event.key
                == Key::Esc || event.key == Key::Char('j') || event.key == Key::Char('k')
                || event.key == Key::Char('q'))
        }),
{
}

/// On the screen for hosting, Enter launches a match for exactly the number of
/// players that is set. The arrow keys and their letters change that number by one,
/// from two to four, and leave the message of the last failure; Esc leads back to
/// the entry for hosting; and no other key does anything.
pub proof fn lemma_hosting(players: nat, error: Option<Seq<char>>, event: KeyEvent)
    requires
        2 <= players <= 4,
    ensures
        ({
            let here = MenuView::HostSetup { players, error };
            let result = stepped(here, event);
            &&& event.key == Key::Enter <==> result is Launch
            &&& result matches OutcomeView::Launch(choice) ==> choice == ChoiceView::Host { players }
            &&& event.key == Key::Right || event.key == Key::Char('l') ==> result
                == OutcomeView::Continue(
                MenuView::HostSetup {
                    players: if players == 4 {
                        4
                    } else {
                        players + 1
                    },
                    error,
                },
            )
            &&& event.key == Key::Left || event.key == Key::Char('h') ==> result
                == OutcomeView::Continue(
                MenuView::HostSetup {
                    players: if players == 2 {
                        2
                    } else {
                        (players - 1) as nat
                    },
                    error,
                },
            )
            &&& event.key == Key::Esc ==> result == OutcomeView::Continue(
                MenuView::ModeSelect { selected: 1 },
            )
            &&& !(event.key == Key::Enter || event.key == Key::Esc || event.key == Key::Left
                || event.key == Key::Right || event.key == Key::Char('h') || event.key == Key::Char(
                'l',
            )) ==> result == OutcomeView::Continue(here)
        }),
{
}

/// Numbers of players out of range count as the nearest that a match can have.
pub proof fn lemma_hosting_out_of_range(players: nat, error: Option<Seq<char>>, event: KeyEvent)
    ensures
        players < 2 ==> stepped(MenuView::HostSetup { players, error }, event) == stepped(
            MenuView::HostSetup { players: 2, error },
            event,
        ),
        players > 4 ==> stepped(MenuView::HostSetup { players, error }, event) == stepped(
            MenuView::HostSetup { players: 4, error },
            event,
        ),
{
}

/// Entries out of range count as the last one.
pub proof fn lemma_selection_out_of_range(selected: nat, event: KeyEvent)
    requires
        selected >= 3,
    ensures
        stepped(MenuView::ModeSelect { selected }, event) == stepped(
            MenuView::ModeSelect { selected: 2 },
            event,
        ),
{
}

/// On the screen for joining, letters are added to the address, unless typed with
/// the control or alternate key, and editing clears the message of the last
/// failure. Enter launches with the address as it was typed, letter for letter, if
/// and only if there is more to it than white space; Esc leads back to the entry
/// for joining; and whatever else is pressed changes nothing.
pub proof fn lemma_joining(addr: Seq<char>, error: Option<Seq<char>>, event: KeyEvent)
    ensures
        ({
            let here = MenuView::JoinInput { addr, error };
            let result = stepped(here, event);
            let filled = exists|i: int| 0 <= i < addr.len() && !white_space(#[trigger] addr[i]);
            &&& result is Launch <==> event.key == Key::Enter && filled
            &&& result matches OutcomeView::Launch(choice) ==> choice == ChoiceView::Join { addr }
            &&& event.key matches Key::Char(c) ==> result == OutcomeView::Continue(
                if event.ctrl || event.alt {
                    here
                } else {
                    MenuView::JoinInput { addr: addr + seq![c], error: None }
                },
            )
            &&& event.key == Key::Backspace ==> result == OutcomeView::Continue(
                MenuView::JoinInput {
                    addr: addr.take(
                        if addr.len() == 0 {
                            0
                        } else {
                            addr.len() - 1
                        },
                    ),
                    error: None,
                },
            )
            &&& event.key == Key::Esc ==> result == OutcomeView::Continue(
                MenuView::ModeSelect { selected: 2 },
            )
            &&& !(event.key is Char || event.key == Key::Backspace || event.key == Key::Esc || (
            event.key == Key::Enter && filled)) ==> result == OutcomeView::Continue(here)
        }),
{
    if let Key::Char(c) = event.key {
        assert(addr.push(c) =~= addr + seq![c]);
    }
    if event.key == Key::Backspace {
        if addr.len() == 0 {
            assert(addr.take(0) =~= addr);
        } else {
            assert(addr.take(addr.len() - 1) =~= addr.drop_last());
        }
    }
    if !blank(addr) {
        let i = choose|i: int| 0 <= i < addr.len() && !white_space(#[trigger] addr[i]);
        assert(!white_space(addr[i]));
    }
}

/// Everything that can be seen in plain text is something to connect to; blanks,
/// tabs and line ends are not.
pub proof fn lemma_white_space(c: char)
    ensures
        0x21 <= c as int <= 0x7e ==> !white_space(c),
        c == ' ' || c == '\t' || c == '\n' || c == '\r' ==> white_space(c),
        '\u{3000}' == c ==> white_space(c),
{
}

/// An address is blank until a letter that can be seen is typed, and stays
/// something to connect to with more letters behind it.
pub proof fn lemma_addresses_fill_up(addr: Seq<char>, c: char)
    ensures
        blank(seq![]),
        blank(addr.push(c)) <==> blank(addr) && white_space(c),
{
    let more = addr.push(c);
    if blank(more) {
        assert forall|i: int| 0 <= i < addr.len() implies white_space(#[trigger] addr[i]) by {
            assert(more[i] == addr[i]);
        }
        assert(more[addr.len() as int] == c);
    }
    if blank(addr) && white_space(c) {
        assert forall|i: int| 0 <= i < more.len() implies white_space(#[trigger] more[i]) by {
            if i < addr.len() {
                assert(more[i] == addr[i]);
            }
        }
    }
}

} // verus!
