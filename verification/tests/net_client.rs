//! A client's side of a match.

use bombermanterm::game::state::GameState;
use bombermanterm::net::client::{
    latest_snapshot, snapshot_in, Disconnected, JoinEvent, JoinFailure, JoinStage,
};
use bombermanterm::net::protocol::ServerMessage;

#[test]
fn latest_snapshot_keeps_only_the_newest_state_and_then_reports_disconnect() {
    assert!(matches!(latest_snapshot(Vec::new(), false), Ok(None)), "nothing yet");

    let mut older = GameState::new_multiplayer(2);
    older.players[0].score = 100;
    let mut newer = GameState::new_multiplayer(2);
    newer.players[0].score = 200;

    let latest = latest_snapshot(vec![Box::new(older), Box::new(newer)], true)
        .expect("not disconnected")
        .expect("a snapshot");
    assert_eq!(latest.players[0].score, 200, "older states are dropped");

    assert!(matches!(latest_snapshot(Vec::new(), true), Err(Disconnected)));
}

#[test]
fn only_snapshots_are_shown() {
    let state = GameState::new_multiplayer(3);
    let shown = snapshot_in(ServerMessage::Snapshot(Box::new(state))).expect("a snapshot");
    assert_eq!(shown.players.len(), 3);
    assert!(snapshot_in(ServerMessage::Welcome { player_id: 1 }).is_none());
    assert!(snapshot_in(ServerMessage::PlayerLeft { player_id: 1 }).is_none());
}

#[test]
fn a_welcome_lets_a_client_in() {
    let stage = JoinStage::Dialing.after(&JoinEvent::Connected);
    assert_eq!(stage, JoinStage::AwaitingWelcome);
    let welcome = JoinEvent::Received(ServerMessage::Welcome { player_id: 2 });
    let stage = stage.after(&welcome);
    assert_eq!(stage, JoinStage::Joined(2));
    assert_eq!(stage.after(&JoinEvent::Failed), JoinStage::Joined(2));
}

#[test]
fn every_failure_to_join_is_told_apart() {
    let dialing = JoinStage::Dialing;
    let waiting = JoinStage::AwaitingWelcome;
    let refused = |failure| JoinStage::Refused(failure);
    assert_eq!(dialing.after(&JoinEvent::TimedOut), refused(JoinFailure::ConnectTimedOut));
    assert_eq!(dialing.after(&JoinEvent::Failed), refused(JoinFailure::ConnectionFailed));
    assert_eq!(waiting.after(&JoinEvent::TimedOut), refused(JoinFailure::WelcomeTimedOut));
    assert_eq!(waiting.after(&JoinEvent::Failed), refused(JoinFailure::ConnectionFailed));
    let other = JoinEvent::Received(ServerMessage::PlayerLeft { player_id: 1 });
    assert_eq!(waiting.after(&other), refused(JoinFailure::NotAWelcome));
    assert_eq!(dialing.after(&other), dialing);
    assert_eq!(waiting.after(&JoinEvent::Connected), waiting);
}
