//! The host's side of a match: who is connected, and what they have asked for.
//!
//! The host plays as player zero. Every client gets a free number from one on.
//! Input is kept until the game asks for it.

use vstd::prelude::*;

use crate::game::spawn::MAX_PLAYERS;
use crate::net::protocol::ClientMessage;
use crate::types::Action;

verus! {

/// What the host knows of its clients. The index is the number of the player;
/// the first place is the host's own and stays unused.
#[derive(Debug, Clone)]
pub struct Shared {
    /// Input that the game has not asked for yet.
    pub pending: [Action; MAX_PLAYERS],
    /// Which players are connected.
    pub connected: [bool; MAX_PLAYERS],
    /// The players who have gone since they were last asked for, in that order.
    pub departed: Vec<usize>,
}

/// The places for clients when `max_clients` were asked for. The host takes up one.
pub open spec fn client_places(max_clients: nat) -> nat {
    if max_clients < MAX_PLAYERS {
        max_clients
    } else {
        (MAX_PLAYERS - 1) as nat
    }
}

/// The first free number among the places for clients.
pub open spec fn first_free(connected: Seq<bool>, max_clients: nat) -> Option<int> {
    if exists|id: int| is_first_free(connected, max_clients, id) {
        Some(choose|id: int| is_first_free(connected, max_clients, id))
    } else {
        None
    }
}

/// Whether `id` is the first free number among the places for clients.
pub open spec fn is_first_free(connected: Seq<bool>, max_clients: nat, id: int) -> bool {
    &&& 1 <= id <= client_places(max_clients)
    &&& !connected[id]
    &&& forall|other: int| 1 <= other < id ==> #[trigger] connected[other]
}

/// The number of places in use.
pub open spec fn places_in_use(connected: Seq<bool>) -> nat
    decreases connected.len(),
{
    if connected.len() == 0 {
        0
    } else {
        places_in_use(connected.drop_last()) + if connected.last() {
            1nat
        } else {
            0nat
        }
    }
}

/// The number of players in the match, the host among them.
pub open spec fn players_present(connected: Seq<bool>) -> nat {
    1 + places_in_use(connected)
}

/// Whether nobody has been connected yet.
pub open spec fn untouched(shared: Shared) -> bool {
    &&& forall|id: int| 0 <= id < MAX_PLAYERS ==> !(#[trigger] shared.connected@[id])
    &&& forall|id: int| 0 <= id < MAX_PLAYERS ==> (#[trigger] shared.pending@[id]) is Idle
    &&& shared.departed@ == Seq::<usize>::empty()
}

/// Later input on top of earlier input: what a player asked for last counts, and
/// to ask for nothing takes nothing back.
pub open spec fn overlaid(earlier: Seq<Action>, later: Seq<Action>) -> Seq<Action> {
    Seq::new(
        earlier.len(),
        |i: int|
            if i < later.len() && !(later[i] is Idle) {
                later[i]
            } else {
                earlier[i]
            },
    )
}

/// Several sets of input in one.
pub open spec fn all_overlaid(sets: Seq<Seq<Action>>) -> Option<Seq<Action>>
    decreases sets.len(),
{
    if sets.len() == 0 {
        None
    } else {
        match all_overlaid(sets.drop_last()) {
            Some(earlier) => Some(overlaid(earlier, sets.last())),
            None => Some(sets.last()),
        }
    }
}

/// What happens to the connection of a client.
#[derive(Debug, Clone, Copy, PartialEq, Eq, Structural)]
pub enum ClientEvent {
    /// The client could not be told its number.
    WelcomeFailed,
    /// A message came in.
    Received(ClientMessage),
    /// Nothing more can be read: the client is gone or talks nonsense.
    Lost,
}

/// What is to be done with the connection of a client.
#[derive(Debug, Clone, Copy, PartialEq, Eq, Structural)]
pub enum ClientStep {
    /// Wait for the next message.
    Listen,
    /// Close it.
    Close,
    /// Close it and tell the other clients that the player has left.
    CloseAndAnnounce,
}

/// What happens at the door.
#[derive(Debug, Clone, Copy, PartialEq, Eq, Structural)]
pub enum DoorEvent {
    /// Somebody wants to come in.
    Knock,
    /// Somebody could not be let in.
    Failed,
    /// The game is over.
    Closing,
}

/// What is to be done at the door.
#[derive(Debug, Clone, Copy, PartialEq, Eq, Structural)]
pub enum DoorStep {
    /// Let in as this player.
    Admit(usize),
    /// There is no place left: close the connection.
    TurnAway,
    /// Wait for the next one.
    Wait,
    /// Stop.
    Stop,
}

/// What the channel of snapshots has for a client's writer.
#[derive(Debug, Clone, Copy, PartialEq, Eq, Structural)]
pub enum FeedEvent {
    /// A snapshot.
    Snapshot,
    /// The client was too slow, and snapshots are lost.
    Lagged,
    /// There will be no more.
    Closed,
    /// The last snapshot could not be sent.
    WriteFailed,
}

/// What a client's writer does next.
#[derive(Debug, Clone, Copy, PartialEq, Eq, Structural)]
pub enum FeedStep {
    /// Send the snapshot.
    Send,
    /// Go on with the next one.
    Skip,
    /// Stop.
    Stop,
}

/// What a client's writer does next.
pub open spec fn fed(event: FeedEvent) -> FeedStep {
    match event {
        FeedEvent::Snapshot => FeedStep::Send,
        FeedEvent::Lagged => FeedStep::Skip,
        FeedEvent::Closed => FeedStep::Stop,
        FeedEvent::WriteFailed => FeedStep::Stop,
    }
}

/// Whether a number was given away, or there was none to give.
pub open spec fn claimed(
    before: Shared,
    max_clients: usize,
    slot: Option<usize>,
    after: Shared,
) -> bool {
    &&& after.departed == before.departed
    &&& match slot {
        Some(id) => {
            &&& first_free(before.connected@, max_clients as nat) == Some(id as int)
            &&& is_first_free(before.connected@, max_clients as nat, id as int)
            &&& after.connected@ == before.connected@.update(id as int, true)
            &&& after.pending@ == before.pending@
        },
        None => {
            &&& first_free(before.connected@, max_clients as nat) is None
            &&& forall|id: int|
                1 <= id <= client_places(max_clients as nat) ==> #[trigger] before.connected@[id]
            &&& after == before
        },
    }
}

/// Whether the input of a client was kept, unless there was none or the client is
/// not connected.
pub open spec fn recorded(before: Shared, player_id: usize, action: Action, after: Shared) -> bool {
    &&& after.connected == before.connected
    &&& after.departed == before.departed
    &&& after.pending@ == if player_id < MAX_PLAYERS && before.connected@[player_id as int] && !(
    action is Idle) {
        before.pending@.update(player_id as int, action)
    } else {
        before.pending@
    }
}

/// Whether the input that was waiting was handed over.
pub open spec fn handed_over(before: Shared, taken: Seq<Action>, after: Shared) -> bool {
    &&& after.connected == before.connected
    &&& after.departed == before.departed
    &&& taken == before.pending@
    &&& taken.len() == MAX_PLAYERS
    &&& taken[0] is Idle
    &&& forall|id: int| 0 <= id < MAX_PLAYERS ==> (#[trigger] after.pending@[id]) is Idle
}

/// Whether a player has been let go.
pub open spec fn let_go(before: Shared, player_id: usize, after: Shared) -> bool {
    &&& player_id < MAX_PLAYERS ==> {
        &&& after.connected@ == before.connected@.update(player_id as int, false)
        &&& after.pending@ == before.pending@.update(player_id as int, Action::Idle)
    }
    &&& player_id >= MAX_PLAYERS ==> after.connected == before.connected && after.pending
        == before.pending
    &&& after.departed@ == if player_id < MAX_PLAYERS && before.connected@[player_id as int] {
        before.departed@.push(player_id)
    } else {
        before.departed@
    }
}

/// Whether those who have gone were named.
pub open spec fn named(before: Shared, gone: Seq<usize>, after: Shared) -> bool {
    &&& gone == before.departed@
    &&& after.departed@ == Seq::<usize>::empty()
    &&& after.connected == before.connected
    &&& after.pending == before.pending
}

/// Whether this is what is done at the door.
pub open spec fn answered(
    before: Shared,
    event: DoorEvent,
    max_clients: usize,
    step: DoorStep,
    after: Shared,
) -> bool {
    match event {
        DoorEvent::Knock => match first_free(before.connected@, max_clients as nat) {
            Some(id) => {
                &&& step == DoorStep::Admit(id as usize)
                &&& 1 <= id < MAX_PLAYERS
                &&& after.connected@ == before.connected@.update(id, true)
                &&& after.pending == before.pending
                &&& after.departed == before.departed
            },
            None => step == DoorStep::TurnAway && after == before,
        },
        DoorEvent::Failed => step == DoorStep::Wait && after == before,
        DoorEvent::Closing => step == DoorStep::Stop && after == before,
    }
}

/// Whether this is what is done with the connection of a client.
pub open spec fn attended(
    before: Shared,
    player_id: usize,
    event: ClientEvent,
    step: ClientStep,
    after: Shared,
) -> bool {
    match event {
        ClientEvent::Received(ClientMessage::Input(action)) => {
            &&& step == ClientStep::Listen
            &&& recorded(before, player_id, action, after)
        },
        ClientEvent::Lost => {
            &&& step == ClientStep::CloseAndAnnounce
            &&& let_go(before, player_id, after)
        },
        ClientEvent::WelcomeFailed => {
            &&& step == ClientStep::Close
            &&& let_go(before, player_id, after)
        },
    }
}

/// What a client's writer does next. One lost snapshot is no matter, since the
/// next makes up for it.
pub fn feed_step(event: FeedEvent) -> (step: FeedStep)
    ensures
        step == fed(event),
{
    match event {
        FeedEvent::Snapshot => FeedStep::Send,
        FeedEvent::Lagged => FeedStep::Skip,
        FeedEvent::Closed | FeedEvent::WriteFailed => FeedStep::Stop,
    }
}

impl Shared {
    /// The host's place is not in use, only players who are connected have input
    /// waiting, and nobody but a client has gone.
    pub open spec fn wf(&self) -> bool {
        &&& !self.connected@[0]
        &&& forall|id: int|
            0 <= id < MAX_PLAYERS ==> !(#[trigger] self.connected@[id])
                ==> self.pending@[id] is Idle
        &&& forall|i: int|
            0 <= i < self.departed@.len() ==> 1 <= (#[trigger] self.departed@[i]) < MAX_PLAYERS
    }

    /// Nobody is connected yet.
    pub fn new() -> (shared: Shared)
        ensures
            shared.wf(),
            untouched(shared),
    {
        Shared {
            pending: [Action::Idle, Action::Idle, Action::Idle, Action::Idle],
            connected: [false, false, false, false],
            departed: Vec::new(),
        }
    }

    /// Gives away the first free number, if there is a place left for a client.
    pub fn claim_slot(&mut self, max_clients: usize) -> (slot: Option<usize>)
        requires
            old(self).wf(),
        ensures
            final(self).wf(),
            claimed(*old(self), max_clients, slot, *final(self)),
    {
        let last: usize = if max_clients < MAX_PLAYERS - 1 {
            max_clients
        } else {
            MAX_PLAYERS - 1
        };
        let mut id: usize = 1;
        while id <= last
            invariant
                last == client_places(max_clients as nat),
                1 <= id <= last + 1,
                *self == *old(self),
                old(self).wf(),
                forall|other: int| 1 <= other < id ==> #[trigger] self.connected@[other],
            decreases last + 1 - id,
        {
            if !self.connected[id] {
                proof {
                    lemma_first_free(self.connected@, max_clients as nat, id as int);
                    assert(self.pending@.update(id as int, Action::Idle) =~= self.pending@);
                }
                self.connected[id] = true;
                self.pending[id] = Action::Idle;
                return Some(id);
            }
            id = id + 1;
        }
        None
    }

    /// Keeps the input of a client. To ask for nothing takes nothing back, and
    /// who is not connected is not heard.
    pub fn record_input(&mut self, player_id: usize, action: Action)
        requires
            old(self).wf(),
        ensures
            final(self).wf(),
            recorded(*old(self), player_id, action, *final(self)),
    {
        if matches!(action, Action::Idle) {
            return ;
        }
        if player_id < MAX_PLAYERS && self.connected[player_id] {
            self.pending[player_id] = action;
        }
    }

    /// Hands over the input that is waiting, and forgets it.
    pub fn take_pending(&mut self) -> (taken: Vec<Action>)
        requires
            old(self).wf(),
        ensures
            final(self).wf(),
            handed_over(*old(self), taken@, *final(self)),
    {
        let mut taken: Vec<Action> = Vec::with_capacity(MAX_PLAYERS);
        for id in 0..MAX_PLAYERS
            invariant
                taken@.len() == id,
                forall|j: int| 0 <= j < id ==> #[trigger] taken@[j] == self.pending@[j],
        {
            taken.push(self.pending[id]);
        }
        assert(taken@ =~= self.pending@);
        assert(!self.connected@[0]);
        self.pending = [Action::Idle, Action::Idle, Action::Idle, Action::Idle];
        taken
    }

    /// The player is gone: the number is free again and the input is forgotten.
    pub fn disconnect(&mut self, player_id: usize)
        requires
            old(self).wf(),
        ensures
            final(self).wf(),
            let_go(*old(self), player_id, *final(self)),
    {
        if player_id < MAX_PLAYERS {
            if self.connected[player_id] {
                self.departed.push(player_id);
            }
            self.connected[player_id] = false;
            self.pending[player_id] = Action::Idle;
        }
    }

    /// The players who have gone since this was last asked, in that order.
    pub fn take_disconnected(&mut self) -> (gone: Vec<usize>)
        requires
            old(self).wf(),
        ensures
            final(self).wf(),
            named(*old(self), gone@, *final(self)),
    {
        let mut gone: Vec<usize> = Vec::new();
        std::mem::swap(&mut gone, &mut self.departed);
        gone
    }

    /// The number of clients who are connected.
    pub fn connected_clients(&self) -> (number: usize)
        ensures
            number == places_in_use(self.connected@),
            number <= MAX_PLAYERS,
    {
        let mut number: usize = 0;
        for id in 0..MAX_PLAYERS
            invariant
                number <= id,
                number == places_in_use(self.connected@.take(id as int)),
        {
            assert(self.connected@.take(id + 1).drop_last() =~= self.connected@.take(id as int));
            if self.connected[id] {
                number = number + 1;
            }
        }
        assert(self.connected@.take(MAX_PLAYERS as int) =~= self.connected@);
        number
    }

    /// The number of players in the match, the host among them.
    pub fn player_count(&self) -> (number: usize)
        ensures
            number == players_present(self.connected@),
    {
        1 + self.connected_clients()
    }

    /// What is to be done at the door. Who is let in gets a number.
    pub fn at_the_door(&mut self, event: DoorEvent, max_clients: usize) -> (step: DoorStep)
        requires
            old(self).wf(),
        ensures
            final(self).wf(),
            answered(*old(self), event, max_clients, step, *final(self)),
    {
        match event {
            DoorEvent::Knock => match self.claim_slot(max_clients) {
                Some(id) => {
                    assert(self.pending =~= old(self).pending);
                    DoorStep::Admit(id)
                },
                None => DoorStep::TurnAway,
            },
            DoorEvent::Failed => DoorStep::Wait,
            DoorEvent::Closing => DoorStep::Stop,
        }
    }

    /// What is to be done with the connection of a client. Input is kept; a
    /// client that is gone gives up its number.
    pub fn on_client_event(&mut self, player_id: usize, event: ClientEvent) -> (step: ClientStep)
        requires
            old(self).wf(),
        ensures
            final(self).wf(),
            attended(*old(self), player_id, event, step, *final(self)),
    {
        match event {
            ClientEvent::Received(ClientMessage::Input(action)) => {
                self.record_input(player_id, action);
                ClientStep::Listen
            },
            ClientEvent::WelcomeFailed => {
                self.disconnect(player_id);
                ClientStep::Close
            },
            ClientEvent::Lost => {
                self.disconnect(player_id);
                ClientStep::CloseAndAnnounce
            },
        }
    }
}

/// Puts later input on top of earlier input.
fn overlay(earlier: &mut Vec<Action>, later: &[Action])
    ensures
        final(earlier)@ == overlaid(old(earlier)@, later@),
{
    let ghost before = earlier@;
    let n = earlier.len();
    for i in 0..n
        invariant
            n == before.len(),
            earlier@.len() == n,
            forall|j: int| 0 <= j < i ==> #[trigger] earlier@[j] == overlaid(before, later@)[j],
            forall|j: int| i <= j < n ==> #[trigger] earlier@[j] == before[j],
    {
        if i < later.len() && !matches!(later[i], Action::Idle) {
            earlier.set(i, later[i]);
        }
    }
    assert(earlier@ =~= overlaid(before, later@));
}

/// The sets of input as values.
pub open spec fn input_sets(sets: Seq<Vec<Action>>) -> Seq<Seq<Action>> {
    sets.map_values(|set: Vec<Action>| set@)
}

/// Folds the sets of input that have come in into one. What a player asked for
/// last counts, and nothing asked for is lost to a later set without input.
pub fn latest_client_inputs(sets: Vec<Vec<Action>>) -> (merged: Option<Vec<Action>>)
    ensures
        match merged {
            Some(actions) => all_overlaid(input_sets(sets@)) == Some(actions@),
            None => all_overlaid(input_sets(sets@)) is None,
        },
{
    let ghost all = input_sets(sets@);
    let mut merged: Option<Vec<Action>> = None;
    for set in incoming: sets
        invariant
            incoming.seq() == sets@,
            all == input_sets(sets@),
            match merged {
                Some(actions) => all_overlaid(all.take(incoming.index() as int)) == Some(actions@),
                None => all_overlaid(all.take(incoming.index() as int)) is None,
            },
    {
        proof {
            let i = incoming.index() as int;
            assert(all.take(i + 1).drop_last() =~= all.take(i));
            assert(all.take(i + 1).last() == set@);
        }
        merged = match merged {
            None => Some(set),
            Some(actions) => {
                let mut actions = actions;
                overlay(&mut actions, &set);
                Some(actions)
            },
        };
    }
    assert(all.take(all.len() as int) =~= all);
    merged
}

/// There is only one first free number.
proof fn lemma_first_free(connected: Seq<bool>, max_clients: nat, id: int)
    requires
        is_first_free(connected, max_clients, id),
    ensures
        first_free(connected, max_clients) == Some(id),
{
    let chosen = choose|other: int| is_first_free(connected, max_clients, other);
    assert(is_first_free(connected, max_clients, chosen));
    if chosen < id {
        assert(connected[chosen]);
    } else if id < chosen {
        assert(connected[id]);
    }
}

/// A client is never given the host's number, nor that of another client, and the
/// number is one of the places asked for.
pub proof fn lemma_claimed_numbers_are_free(connected: Seq<bool>, max_clients: nat)
    ensures
        first_free(connected, max_clients) matches Some(id) ==> 1 <= id <= client_places(
            max_clients,
        ) && id < MAX_PLAYERS && !connected[id],
{
}

/// There is never one client too many: the host's place is not theirs.
pub proof fn lemma_clients_leave_room_for_the_host(shared: Shared)
    requires
        shared.wf(),
    ensures
        places_in_use(shared.connected@) < MAX_PLAYERS,
{
    let c = shared.connected@;
    assert(c.drop_last().drop_last().drop_last().len() == 1);
    assert(c.drop_last().drop_last().drop_last().last() == c[0]);
    assert(c.drop_last().drop_last().drop_last().drop_last().len() == 0);
    reveal_with_fuel(places_in_use, 5);
}

/// A number that is given back is given away again: to the next client, if no
/// lower number is free.
pub proof fn lemma_freed_numbers_are_reused(connected: Seq<bool>, max_clients: nat, id: int)
    requires
        connected.len() == MAX_PLAYERS,
        1 <= id <= client_places(max_clients),
        forall|other: int| 1 <= other < id ==> #[trigger] connected[other],
    ensures
        first_free(connected.update(id, false), max_clients) == Some(id),
{
    assert(is_first_free(connected.update(id, false), max_clients, id));
    lemma_first_free(connected.update(id, false), max_clients, id);
}

/// In input folded into one set, every player's last request stands: nothing that
/// a player asked for in the last set is lost, and where the last set is empty
/// what stood before still does.
pub proof fn lemma_last_request_stands(sets: Seq<Seq<Action>>, i: int)
    requires
        sets.len() >= 2,
        all_overlaid(sets.drop_last()) matches Some(earlier) && 0 <= i < earlier.len(),
    ensures
        all_overlaid(sets) matches Some(merged) && merged[i] == if i < sets.last().len() && !(
        sets.last()[i] is Idle) {
            sets.last()[i]
        } else {
            all_overlaid(sets.drop_last())->Some_0[i]
        },
{
}

/// As long as no set has input for the host, neither has what they are folded into.
pub proof fn lemma_host_place_stays_empty(sets: Seq<Seq<Action>>)
    requires
        sets.len() > 0,
        forall|k: int|
            0 <= k < sets.len() ==> (#[trigger] sets[k]).len() == MAX_PLAYERS && sets[k][0] is Idle,
    ensures
        all_overlaid(sets) matches Some(merged) && merged.len() == MAX_PLAYERS && merged[0] is Idle,
    decreases sets.len(),
{
    assert(sets.last() == sets[sets.len() - 1]);
    if sets.len() > 1 {
        assert forall|k: int| 0 <= k < sets.drop_last().len() implies (
        #[trigger] sets.drop_last()[k]).len() == MAX_PLAYERS && sets.drop_last()[k][0] is Idle by {
            assert(sets.drop_last()[k] == sets[k]);
        }
        lemma_host_place_stays_empty(sets.drop_last());
    } else {
        assert(sets.drop_last().len() == 0);
    }
}

/// What a connected client asks for is in the next input handed over, in that
/// player's place; and it is handed over once.
pub proof fn lemma_input_arrives(
    before: Shared,
    player_id: usize,
    action: Action,
    kept: Shared,
    taken: Seq<Action>,
    after: Shared,
    again: Seq<Action>,
    last: Shared,
)
    requires
        player_id < 4,
        before.connected@[player_id as int],
        action != Action::Idle,
        recorded(before, player_id, action, kept),
        handed_over(kept, taken, after),
        handed_over(after, again, last),
    ensures
        taken.len() == 4,
        taken[player_id as int] == action,
        forall|id: int|
            0 <= id < 4 && id != player_id ==> #[trigger] taken[id] == before.pending@[id],
        forall|id: int| 0 <= id < 4 ==> #[trigger] again[id] == Action::Idle,
        last.connected@ == before.connected@,
        last.departed@ == before.departed@,
{
    assert forall|id: int| 0 <= id < 4 implies #[trigger] again[id] == Action::Idle by {
        assert(after.pending@[id] is Idle);
    }
}

/// To ask for nothing takes nothing back, and who is not connected is not heard.
pub proof fn lemma_nothing_is_taken_back(
    before: Shared,
    player_id: usize,
    action: Action,
    after: Shared,
)
    requires
        recorded(before, player_id, action, after),
        action == Action::Idle || player_id >= 4 || !before.connected@[player_id as int],
    ensures
        after.pending@ == before.pending@,
        after.connected@ == before.connected@,
        after.departed@ == before.departed@,
{
}

/// Who has been connected and goes is named once, after those who went before. The
/// number is free and the input forgotten; nobody else notices.
pub proof fn lemma_leaving_is_noticed_once(
    before: Shared,
    player_id: usize,
    left: Shared,
    gone: Seq<usize>,
    after: Shared,
    again: Seq<usize>,
    last: Shared,
)
    requires
        player_id < 4,
        let_go(before, player_id, left),
        named(left, gone, after),
        named(after, again, last),
    ensures
        !left.connected@[player_id as int],
        left.pending@[player_id as int] == Action::Idle,
        forall|id: int|
            0 <= id < 4 && id != player_id ==> #[trigger] left.connected@[id]
                == before.connected@[id],
        forall|id: int|
            0 <= id < 4 && id != player_id ==> #[trigger] left.pending@[id] == before.pending@[id],
        before.connected@[player_id as int] ==> gone == before.departed@ + seq![player_id],
        !before.connected@[player_id as int] ==> gone == before.departed@,
        again.len() == 0,
        last.connected@ == left.connected@,
        last.pending@ == left.pending@,
{
    assert(before.departed@.push(player_id) =~= before.departed@ + seq![player_id]);
}

/// There is no player with a number past the last, so nobody goes.
pub proof fn lemma_nobody_has_that_number(before: Shared, player_id: usize, after: Shared)
    requires
        player_id >= 4,
        let_go(before, player_id, after),
    ensures
        after.connected@ == before.connected@,
        after.pending@ == before.pending@,
        after.departed@ == before.departed@,
{
}

/// Who knocks is let in as long as one of the places asked for, three at most, is
/// free, and gets the lowest number that is; else they are turned away. In no other
/// case is anybody let in or turned away, and nothing changes.
pub proof fn lemma_at_the_door(
    before: Shared,
    event: DoorEvent,
    max_clients: usize,
    step: DoorStep,
    after: Shared,
)
    requires
        answered(before, event, max_clients, step, after),
    ensures
        event is Knock ==> {
            let free = |id: int| 1 <= id <= 3 && id <= max_clients && !before.connected@[id];
            if free(1) {
                step == DoorStep::Admit(1) && after.connected@ == before.connected@.update(1, true)
            } else if free(2) {
                step == DoorStep::Admit(2) && after.connected@ == before.connected@.update(2, true)
            } else if free(3) {
                step == DoorStep::Admit(3) && after.connected@ == before.connected@.update(3, true)
            } else {
                step == DoorStep::TurnAway && after.connected@ == before.connected@
            }
        },
        after.pending@ == before.pending@,
        after.departed@ == before.departed@,
        event is Failed ==> step == DoorStep::Wait && after.connected@ == before.connected@,
        event is Closing ==> step == DoorStep::Stop && after.connected@ == before.connected@,
{
    lemma_lowest_free(before.connected@, max_clients);
}

/// The lowest free number of the three.
proof fn lemma_lowest_free(connected: Seq<bool>, max_clients: usize)
    ensures
        first_free(connected, max_clients as nat) == if max_clients >= 1 && !connected[1] {
            Some(1int)
        } else if max_clients >= 2 && !connected[2] {
            Some(2int)
        } else if max_clients >= 3 && !connected[3] {
            Some(3int)
        } else {
            None
        },
{
    let n = max_clients as nat;
    if max_clients >= 1 && !connected[1] {
        assert(is_first_free(connected, n, 1));
        lemma_first_free(connected, n, 1);
    } else if max_clients >= 2 && !connected[2] {
        assert(is_first_free(connected, n, 2));
        lemma_first_free(connected, n, 2);
    } else if max_clients >= 3 && !connected[3] {
        assert(is_first_free(connected, n, 3));
        lemma_first_free(connected, n, 3);
    } else if exists|id: int| is_first_free(connected, n, id) {
        let id = choose|id: int| is_first_free(connected, n, id);
        assert(is_first_free(connected, n, id));
        assert(!connected[id] && 1 <= id <= 3 && id <= max_clients);
    }
}

/// A number is given away under the same conditions as at the door.
pub proof fn lemma_numbers_are_given_in_order(
    before: Shared,
    max_clients: usize,
    slot: Option<usize>,
    after: Shared,
)
    requires
        claimed(before, max_clients, slot, after),
    ensures
        ({
            let free = |id: int| 1 <= id <= 3 && id <= max_clients && !before.connected@[id];
            slot == if free(1) {
                Some(1usize)
            } else if free(2) {
                Some(2usize)
            } else if free(3) {
                Some(3usize)
            } else {
                None
            }
        }),
        slot matches Some(id) ==> after.connected@ == before.connected@.update(id as int, true),
        slot is None ==> after.connected@ == before.connected@,
        after.pending@ == before.pending@,
        after.departed@ == before.departed@,
{
    lemma_lowest_free(before.connected@, max_clients);
}

/// Input is kept and the client listened to; a client who is lost is let go and
/// the others are told; one who could not be welcomed is let go without a word.
pub proof fn lemma_clients_are_attended_to(
    before: Shared,
    player_id: usize,
    event: ClientEvent,
    step: ClientStep,
    after: Shared,
)
    requires
        player_id < 4,
        attended(before, player_id, event, step, after),
    ensures
        step == ClientStep::Listen <==> event is Received,
        step == ClientStep::CloseAndAnnounce <==> event is Lost,
        step == ClientStep::Close <==> event is WelcomeFailed,
        !(event is Received) ==> !after.connected@[player_id as int]
            && after.pending@[player_id as int] == Action::Idle,
        !(event is Received) && before.connected@[player_id as int] ==> after.departed@
            == before.departed@ + seq![player_id],
        event is Received || !before.connected@[player_id as int] ==> after.departed@
            == before.departed@,
        event is Received ==> after.connected@ == before.connected@,
        event matches ClientEvent::Received(ClientMessage::Input(action)) ==> after.pending@[player_id as int]
            == if before.connected@[player_id as int] && action != Action::Idle {
            action
        } else {
            before.pending@[player_id as int]
        },
        forall|id: int|
            0 <= id < 4 && id != player_id ==> #[trigger] after.connected@[id]
                == before.connected@[id],
        forall|id: int|
            0 <= id < 4 && id != player_id ==> #[trigger] after.pending@[id] == before.pending@[id],
{
    assert(before.departed@.push(player_id) =~= before.departed@ + seq![player_id]);
}

/// Every snapshot there is gets sent; losing some stops nobody; there is no going
/// on once there will be no more or one could not be sent.
pub proof fn lemma_feeding(event: FeedEvent)
    ensures
        fed(event) == FeedStep::Send <==> event is Snapshot,
        fed(event) == FeedStep::Skip <==> event is Lagged,
        fed(event) == FeedStep::Stop <==> event is Closed || event is WriteFailed,
{
}

/// The places in use are those of the players who are connected: one more for each
/// who comes, one less for each who goes.
pub proof fn lemma_places_are_counted(connected: Seq<bool>, id: int)
    requires
        0 <= id < connected.len(),
    ensures
        places_in_use(connected.update(id, true)) == places_in_use(connected.update(id, false)) + 1,
        places_in_use(connected) <= connected.len(),
        (forall|k: int| 0 <= k < connected.len() ==> !(#[trigger] connected[k])) ==> places_in_use(
            connected,
        ) == 0,
    decreases connected.len(),
{
    let shorter = connected.drop_last();
    if id == connected.len() - 1 {
        assert(connected.update(id, true).drop_last() =~= shorter);
        assert(connected.update(id, false).drop_last() =~= shorter);
        if shorter.len() > 0 {
            lemma_places_are_counted(shorter, 0);
        } else {
            assert(places_in_use(shorter) == 0);
        }
    } else {
        assert(connected.update(id, true).drop_last() =~= shorter.update(id, true));
        assert(connected.update(id, false).drop_last() =~= shorter.update(id, false));
        lemma_places_are_counted(shorter, id);
    }
}

/// In input folded into one set, the last thing that a player asked for stands,
/// however many empty sets come after it; and who asked for nothing has nothing.
pub proof fn lemma_last_wish_counts(sets: Seq<Seq<Action>>, k: int, i: int)
    requires
        0 <= k < sets.len(),
        0 <= i < 4,
        forall|j: int| 0 <= j < sets.len() ==> (#[trigger] sets[j]).len() == 4,
        forall|j: int| k < j < sets.len() ==> (#[trigger] sets[j])[i] == Action::Idle,
        sets[k][i] != Action::Idle || k == 0,
    ensures
        all_overlaid(sets) matches Some(merged) && merged.len() == 4 && merged[i] == sets[k][i],
    decreases sets.len(),
{
    let shorter = sets.drop_last();
    assert(sets.last() == sets[sets.len() - 1]);
    assert(sets.last().len() == 4);
    if shorter.len() == 0 {
        assert(all_overlaid(shorter) is None);
    } else {
        assert forall|j: int| 0 <= j < shorter.len() implies (#[trigger] shorter[j]).len() == 4 by {
            assert(shorter[j] == sets[j]);
        }
        if k < sets.len() - 1 {
            assert forall|j: int| k < j < shorter.len() implies (#[trigger] shorter[j])[i]
                == Action::Idle by {
                assert(shorter[j] == sets[j]);
            }
            lemma_last_wish_counts(shorter, k, i);
            assert(sets[sets.len() - 1][i] == Action::Idle);
        } else {
            lemma_folding_keeps_the_size(shorter);
        }
    }
}

/// Folding input keeps the number of places.
proof fn lemma_folding_keeps_the_size(sets: Seq<Seq<Action>>)
    requires
        sets.len() > 0,
        forall|j: int| 0 <= j < sets.len() ==> (#[trigger] sets[j]).len() == 4,
    ensures
        all_overlaid(sets) matches Some(merged) && merged.len() == 4,
    decreases sets.len(),
{
    let shorter = sets.drop_last();
    assert(sets.last() == sets[sets.len() - 1]);
    if shorter.len() > 0 {
        assert forall|j: int| 0 <= j < shorter.len() implies (#[trigger] shorter[j]).len() == 4 by {
            assert(shorter[j] == sets[j]);
        }
        lemma_folding_keeps_the_size(shorter);
    } else {
        assert(all_overlaid(shorter) is None);
    }
}

/// At first the host is alone; each client who is let in makes one more player, and
/// each who goes one less.
pub proof fn lemma_the_host_is_counted(shared: Shared, id: int)
    requires
        0 <= id < 4,
    ensures
        untouched(shared) ==> players_present(shared.connected@) == 1,
        players_present(shared.connected@.update(id, true)) == players_present(
            shared.connected@.update(id, false),
        ) + 1,
        untouched(shared) ==> shared.pending@[id] == Action::Idle && !shared.connected@[id]
            && shared.departed@.len() == 0,
{
    lemma_places_are_counted(shared.connected@, id);
}

} // verus!
