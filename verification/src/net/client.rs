//! A client's side of a match.
//!
//! A client runs no game of its own. It sends what its player does and shows the
//! last state that the host has sent.

use vstd::prelude::*;

use crate::game::state::GameState;
use crate::net::protocol::ServerMessage;

verus! {

/// The connection to the host is gone.
#[derive(Debug, Clone, Copy, PartialEq, Eq, Structural)]
pub struct Disconnected;

/// How far a client has got with joining a match.
#[derive(Debug, Clone, Copy, PartialEq, Eq, Structural)]
pub enum JoinStage {
    /// The host has not answered yet.
    Dialing,
    /// The host has answered, but has not said which player the client is.
    AwaitingWelcome,
    /// The client plays as this player.
    Joined(usize),
    /// The client could not join.
    Refused(JoinFailure),
}

/// Why a client could not join a match.
#[derive(Debug, Clone, Copy, PartialEq, Eq, Structural)]
pub enum JoinFailure {
    /// Nobody answered in time.
    ConnectTimedOut,
    /// The host did not say in time which player the client is.
    WelcomeTimedOut,
    /// The connection failed.
    ConnectionFailed,
    /// The host began with another message.
    NotAWelcome,
}

/// What happens while a client joins a match.
#[derive(Debug, Clone)]
pub enum JoinEvent {
    /// The host has answered.
    Connected,
    /// A message has come in.
    Received(ServerMessage),
    /// It has taken too long.
    TimedOut,
    /// The connection could not be made, or was lost.
    Failed,
}

/// What comes of an event while a client joins. Only a welcome lets it in, and it
/// has to be the first message.
pub open spec fn joining(stage: JoinStage, event: JoinEvent) -> JoinStage {
    match (stage, event) {
        (JoinStage::Dialing, JoinEvent::Connected) => JoinStage::AwaitingWelcome,
        (JoinStage::Dialing, JoinEvent::TimedOut) => JoinStage::Refused(
            JoinFailure::ConnectTimedOut,
        ),
        (JoinStage::Dialing, JoinEvent::Failed) => JoinStage::Refused(
            JoinFailure::ConnectionFailed,
        ),
        (
            JoinStage::AwaitingWelcome,
            JoinEvent::Received(ServerMessage::Welcome { player_id }),
        ) => JoinStage::Joined(player_id),
        (JoinStage::AwaitingWelcome, JoinEvent::Received(_)) => JoinStage::Refused(
            JoinFailure::NotAWelcome,
        ),
        (JoinStage::AwaitingWelcome, JoinEvent::TimedOut) => JoinStage::Refused(
            JoinFailure::WelcomeTimedOut,
        ),
        (JoinStage::AwaitingWelcome, JoinEvent::Failed) => JoinStage::Refused(
            JoinFailure::ConnectionFailed,
        ),
        _ => stage,
    }
}

impl JoinStage {
    /// What comes of an event while a client joins.
    pub fn after(self, event: &JoinEvent) -> (stage: JoinStage)
        ensures
            stage == joining(self, *event),
    {
        match self {
            JoinStage::Dialing => match event {
                JoinEvent::Connected => JoinStage::AwaitingWelcome,
                JoinEvent::TimedOut => JoinStage::Refused(JoinFailure::ConnectTimedOut),
                JoinEvent::Failed => JoinStage::Refused(JoinFailure::ConnectionFailed),
                JoinEvent::Received(_) => self,
            },
            JoinStage::AwaitingWelcome => match event {
                JoinEvent::Received(ServerMessage::Welcome { player_id }) => JoinStage::Joined(
                    *player_id,
                ),
                JoinEvent::Received(_) => JoinStage::Refused(JoinFailure::NotAWelcome),
                JoinEvent::TimedOut => JoinStage::Refused(JoinFailure::WelcomeTimedOut),
                JoinEvent::Failed => JoinStage::Refused(JoinFailure::ConnectionFailed),
                JoinEvent::Connected => self,
            },
            JoinStage::Joined(_) | JoinStage::Refused(_) => self,
        }
    }
}

/// The state of the game in a message, if it holds one.
pub open spec fn state_in(message: ServerMessage) -> Option<Box<GameState>> {
    match message {
        ServerMessage::Snapshot(state) => Some(state),
        _ => None,
    }
}

/// The last of the states that have come in, or whether the connection is lost.
pub open spec fn latest_of(received: Seq<Box<GameState>>, disconnected: bool) -> Result<
    Option<Box<GameState>>,
    Disconnected,
> {
    if received.len() > 0 {
        Ok(Some(received.last()))
    } else if disconnected {
        Err(Disconnected)
    } else {
        Ok(None)
    }
}

/// The state of the game in a message, if it holds one. Nothing else matters to a
/// client that has joined: who has left shows in the state, too.
pub fn snapshot_in(message: ServerMessage) -> (state: Option<Box<GameState>>)
    ensures
        state == state_in(message),
{
    match message {
        ServerMessage::Snapshot(state) => Some(state),
        ServerMessage::Welcome { .. } | ServerMessage::PlayerLeft { .. } => None,
    }
}

/// The last of the states that have come in, all others being out of date. A lost
/// connection is reported once there is no state left to show.
pub fn latest_snapshot(received: Vec<Box<GameState>>, disconnected: bool) -> (latest: Result<
    Option<Box<GameState>>,
    Disconnected,
>)
    ensures
        latest == latest_of(received@, disconnected),
{
    let mut received = received;
    match received.pop() {
        Some(state) => Ok(Some(state)),
        None => {
            if disconnected {
                Err(Disconnected)
            } else {
                Ok(None)
            }
        },
    }
}

/// A client joins if and only if the host answers and its first message is a
/// welcome, and it then plays as the player named there.
pub proof fn lemma_joined_by_welcome_only(first: JoinEvent, second: JoinEvent, player_id: usize)
    ensures
        joining(joining(JoinStage::Dialing, first), second) == JoinStage::Joined(player_id)
            <==> first is Connected && second == JoinEvent::Received(
            ServerMessage::Welcome { player_id },
        ),
{
}

/// Once a client has joined or failed to, nothing changes that.
pub proof fn lemma_joining_is_final(stage: JoinStage, event: JoinEvent)
    requires
        stage is Joined || stage is Refused,
    ensures
        joining(stage, event) == stage,
{
}

/// Each way of failing to join has its own reason, and a client who waits for the
/// host goes on waiting until something decides.
pub proof fn lemma_failing_to_join(event: JoinEvent)
    ensures
        ({
            let dialing = joining(JoinStage::Dialing, event);
            let waiting = joining(JoinStage::AwaitingWelcome, event);
            &&& dialing == JoinStage::Refused(JoinFailure::ConnectTimedOut) <==> event is TimedOut
            &&& dialing == JoinStage::Refused(JoinFailure::ConnectionFailed) <==> event is Failed
            &&& dialing is AwaitingWelcome <==> event is Connected
            &&& dialing is Dialing <==> event is Received
            &&& waiting == JoinStage::Refused(JoinFailure::WelcomeTimedOut) <==> event is TimedOut
            &&& waiting == JoinStage::Refused(JoinFailure::ConnectionFailed) <==> event is Failed
            &&& waiting is AwaitingWelcome <==> event is Connected
            &&& waiting == JoinStage::Refused(JoinFailure::NotAWelcome) <==> (event matches
                JoinEvent::Received(message) && !(message is Welcome))
            &&& waiting is Joined <==> (event matches JoinEvent::Received(message) && message
                is Welcome)
        }),
{
}

/// What is shown is the newest state, whatever came before it and even when the
/// connection has been lost since; the loss is told only when no state is left.
pub proof fn lemma_newest_state(
    received: Seq<Box<GameState>>,
    newest: Box<GameState>,
    disconnected: bool,
)
    ensures
        latest_of(received.push(newest), disconnected) == Ok::<
            Option<Box<GameState>>,
            Disconnected,
        >(Some(newest)),
        latest_of(Seq::empty(), disconnected) is Err <==> disconnected,
        latest_of(Seq::empty(), false) == Ok::<Option<Box<GameState>>, Disconnected>(None),
        state_in(ServerMessage::Snapshot(newest)) == Some(newest),
{
    assert(received.push(newest).last() == newest);
}

/// Only a message with a state in it has one.
pub proof fn lemma_no_other_message_has_a_state(message: ServerMessage)
    ensures
        state_in(message) is Some <==> message is Snapshot,
{
}

} // verus!
