//! The host's side of a match.

use bombermanterm::audio::AudioPlayer;
use bombermanterm::game::spawn::MAX_PLAYERS;
use bombermanterm::game::state::GameState;
use bombermanterm::net::protocol::ClientMessage;
use bombermanterm::net::server::{
    feed_step, latest_client_inputs, ClientEvent, ClientStep, DoorEvent, DoorStep, FeedEvent,
    FeedStep, Shared,
};
use bombermanterm::types::{Action, Bgm, Direction, Screen, SoundEffect};

#[test]
fn claim_slot_never_hands_out_the_host_slot_and_respects_the_limit() {
    let mut shared = Shared::new();

    assert_eq!(shared.claim_slot(3), Some(1));
    assert_eq!(shared.claim_slot(3), Some(2));
    assert_eq!(shared.claim_slot(3), Some(3));
    assert_eq!(shared.claim_slot(3), None, "4人目のクライアントは入れない");

    shared.disconnect(2);
    assert_eq!(shared.claim_slot(3), Some(2));
}

#[test]
fn claim_slot_is_capped_by_max_players_even_if_asked_for_more() {
    let mut shared = Shared::new();
    let mut claimed = Vec::new();
    while let Some(id) = shared.claim_slot(99) {
        claimed.push(id);
    }
    assert_eq!(claimed, vec![1, 2, 3], "ホストの枠を含めて最大4人まで");
}

#[test]
fn record_input_keeps_the_last_meaningful_action_per_player() {
    let mut shared = Shared::new();
    let id = shared.claim_slot(3).expect("slot");

    shared.record_input(id, Action::Move(Direction::Up));
    shared.record_input(id, Action::Idle);
    assert_eq!(shared.pending[id], Action::Move(Direction::Up));

    shared.record_input(id, Action::PlaceBomb);
    assert_eq!(shared.pending[id], Action::PlaceBomb);
}

#[test]
fn record_input_ignores_players_that_are_not_connected() {
    let mut shared = Shared::new();
    shared.record_input(2, Action::PlaceBomb);
    assert_eq!(shared.pending[2], Action::Idle);
}

#[test]
fn take_pending_clears_the_slots_and_leaves_the_host_slot_empty() {
    let mut shared = Shared::new();
    let id = shared.claim_slot(3).expect("slot");
    shared.record_input(id, Action::PlaceBomb);

    let taken = shared.take_pending();
    assert_eq!(taken.len(), MAX_PLAYERS);
    assert_eq!(taken[0], Action::Idle, "添字0はホスト用の予約枠");
    assert_eq!(taken[id], Action::PlaceBomb);

    assert!(shared
        .take_pending()
        .iter()
        .all(|action| matches!(action, Action::Idle)));
}

#[test]
fn disconnect_drops_pending_input() {
    let mut shared = Shared::new();
    let id = shared.claim_slot(3).expect("slot");
    shared.record_input(id, Action::PlaceBomb);

    shared.disconnect(id);
    assert_eq!(shared.pending[id], Action::Idle);
    shared.record_input(id, Action::PlaceBomb);
    assert_eq!(shared.pending[id], Action::Idle);
}

#[test]
fn latest_client_inputs_merges_pending_sets_without_losing_actions() {
    assert!(latest_client_inputs(Vec::new()).is_none(), "nothing has come in");

    let mut first = vec![Action::Idle; MAX_PLAYERS];
    first[1] = Action::Move(Direction::Left);
    first[2] = Action::PlaceBomb;

    let mut second = vec![Action::Idle; MAX_PLAYERS];
    second[2] = Action::Move(Direction::Up);

    let merged = latest_client_inputs(vec![first, second]).expect("merged inputs");
    assert_eq!(merged[0], Action::Idle, "the place of the host stays empty");
    assert_eq!(merged[1], Action::Move(Direction::Left));
    assert_eq!(merged[2], Action::Move(Direction::Up), "the later input counts");
}

#[test]
fn one_set_of_inputs_is_handed_on_as_it_is() {
    let set = vec![Action::Idle, Action::Pause, Action::Quit, Action::Idle];
    assert_eq!(latest_client_inputs(vec![set.clone()]), Some(set));
}

#[test]
fn a_new_host_is_alone() {
    let shared = Shared::new();
    assert_eq!(shared.connected_clients(), 0);
    assert_eq!(shared.player_count(), 1, "the host alone");
}

#[test]
fn input_of_the_host_and_of_nobody_is_not_recorded() {
    let mut shared = Shared::new();
    shared.record_input(0, Action::PlaceBomb);
    shared.record_input(99, Action::PlaceBomb);
    assert_eq!(shared.take_pending(), vec![Action::Idle; MAX_PLAYERS]);
}

#[test]
fn players_who_have_gone_are_reported_once() {
    let mut shared = Shared::new();
    assert_eq!(shared.claim_slot(3), Some(1));
    assert_eq!(shared.claim_slot(3), Some(2));
    assert_eq!(shared.player_count(), 3);
    shared.disconnect(2);
    shared.disconnect(2);
    shared.disconnect(3);
    shared.disconnect(99);
    shared.disconnect(1);
    assert_eq!(shared.take_disconnected(), vec![2, 1]);
    assert!(shared.take_disconnected().is_empty());
    assert_eq!(shared.connected_clients(), 0);
}

#[test]
fn nobody_gets_in_without_a_place() {
    let mut shared = Shared::new();
    assert_eq!(shared.claim_slot(0), None);
    assert_eq!(shared.at_the_door(DoorEvent::Knock, 0), DoorStep::TurnAway);
}

#[test]
fn the_door_opens_while_there_are_places() {
    let mut shared = Shared::new();
    assert_eq!(shared.at_the_door(DoorEvent::Knock, 1), DoorStep::Admit(1));
    assert_eq!(shared.at_the_door(DoorEvent::Knock, 1), DoorStep::TurnAway);
    assert_eq!(shared.at_the_door(DoorEvent::Failed, 1), DoorStep::Wait);
    assert_eq!(shared.at_the_door(DoorEvent::Closing, 1), DoorStep::Stop);
    assert_eq!(shared.connected_clients(), 1, "who is in stays in");
}

#[test]
fn the_connection_of_a_client_runs_its_course() {
    let mut shared = Shared::new();
    let id = shared.claim_slot(3).expect("slot");
    let input = ClientEvent::Received(ClientMessage::Input(Action::PlaceBomb));
    assert_eq!(shared.on_client_event(id, input), ClientStep::Listen);
    assert_eq!(shared.pending[id], Action::PlaceBomb);
    assert_eq!(shared.on_client_event(id, ClientEvent::Lost), ClientStep::CloseAndAnnounce);
    assert_eq!(shared.pending[id], Action::Idle);
    assert_eq!(shared.take_disconnected(), vec![id]);

    let id = shared.claim_slot(3).expect("slot");
    assert_eq!(shared.on_client_event(id, ClientEvent::WelcomeFailed), ClientStep::Close);
    assert_eq!(shared.connected_clients(), 0);
}

#[test]
fn events_of_numbers_beyond_the_last_place_change_nothing() {
    let mut shared = Shared::new();
    shared.claim_slot(3).expect("slot");
    let before = format!("{shared:?}");
    for id in [4, 7, usize::MAX] {
        let input = ClientEvent::Received(ClientMessage::Input(Action::PlaceBomb));
        assert_eq!(shared.on_client_event(id, input), ClientStep::Listen);
        assert_eq!(shared.on_client_event(id, ClientEvent::WelcomeFailed), ClientStep::Close);
        assert_eq!(shared.on_client_event(id, ClientEvent::Lost), ClientStep::CloseAndAnnounce);
    }
    assert_eq!(format!("{shared:?}"), before);
}

#[test]
fn a_slow_client_skips_snapshots() {
    assert_eq!(feed_step(FeedEvent::Snapshot), FeedStep::Send);
    assert_eq!(feed_step(FeedEvent::Lagged), FeedStep::Skip);
    assert_eq!(feed_step(FeedEvent::Closed), FeedStep::Stop);
    assert_eq!(feed_step(FeedEvent::WriteFailed), FeedStep::Stop);
}

/// A sound device that stays silent.
struct SilentAudio;

impl AudioPlayer for SilentAudio {
    fn play_se(&mut self, _se: SoundEffect) {}
    fn play_bgm(&mut self, _bgm: Bgm) {}
    fn stop_bgm(&mut self) {}
}

#[test]
fn clients_who_leave_a_match_lose_it() {
    let mut shared = Shared::new();
    assert_eq!(shared.claim_slot(2), Some(1));
    assert_eq!(shared.claim_slot(2), Some(2));

    let mut audio = SilentAudio;
    let mut state = GameState::new_multiplayer(3);
    let dt = 33_000_000;
    state.tick_multi(dt, &[Action::PlaceBomb, Action::Idle, Action::Idle], &mut audio);
    assert_eq!(state.screen, Screen::Playing);

    shared.disconnect(1);
    shared.disconnect(2);
    for player_id in shared.take_disconnected() {
        state.retire_player(player_id);
    }
    assert!(!state.players[1].alive && !state.players[2].alive);

    state.tick_multi(dt, &[Action::Idle; 3], &mut audio);
    assert_eq!(state.screen, Screen::MatchResult(Some(0)), "the host has won");
}

#[test]
fn a_client_input_moves_only_that_client() {
    let mut shared = Shared::new();
    let id = shared.claim_slot(1).expect("slot");
    let mut audio = SilentAudio;
    let mut state = GameState::new_multiplayer(2);
    state.tick_multi(33_000_000, &[Action::PlaceBomb, Action::Idle], &mut audio);
    state.players[id].pos = (1, 2);
    let host_pos = state.players[0].pos;

    shared.record_input(id, Action::Move(Direction::Left));
    let actions = latest_client_inputs(vec![shared.take_pending()]).expect("inputs");
    state.tick_multi(33_000_000, &actions, &mut audio);
    assert_eq!(state.players[id].pos, (1, 1));
    assert_eq!(state.players[0].pos, host_pos);
}
