//! What each kind of event does to a server, and what it leaves as it is.

use crate::dhcp::bookkeeping::{
    binds, has_lease, law_asking_keeps_what_has_not_run_out, law_confirming_changes_one_lease,
    law_confirming_keeps_other_offers_and_leases, law_reports_change_one_lease,
    law_the_first_lease_of_a_client_is_offered,
};
use crate::dhcp::laws::{
    has_binding, in_use_at, law_confirmed_leases_are_in_the_table,
    law_offers_are_free_addresses_of_the_pool,
};
use crate::dhcp::{Lease, LeaseOffer, ServiceState};
use crate::net::Ipv4Addr;
use crate::protocol::MacAddr;
use crate::search::{first_where, lemma_first_where};
use crate::server::laws::lemma_filter_keeps_distinct;
use crate::server::peer::message::MessageView;
use crate::server::peer::Id;
use crate::server::{
    higher_than, is_id, to_each, ActionView, ConnectAttempt, ElectionState, EventView, ServerState,
};
use crate::time::Timestamp;
use vstd::prelude::*;
use vstd::seq_lib::lemma_no_dup_in_concat;

verus! {

/// Whether an event opens an election: there is a new connection, the coordinator is lost, or a
/// server with a lower id holds an election or leads.
pub open spec fn opens_election(state: ServerState, event: EventView) -> bool {
    match event {
        EventView::EstablishedPeerConnection(id) => !state.peers.contains(id),
        EventView::PeerLost(id) => state.coordinator_id == Some(id),
        EventView::PeerMessage { sender_id, message } => sender_id < state.config.id && (message
            == MessageView::Election || message is Coordinator),
        _ => false,
    }
}

/// Whether an event makes the server take the lead, or take it anew: nobody has objected to its
/// election, or the peers of the coordinator have changed.
pub open spec fn takes_lead(state: ServerState, event: EventView) -> bool {
    match event {
        EventView::ElectionTimeout => state.election_state == ElectionState::WaitingForElection,
        EventView::IncomingPeerConnection(_) => state.election_state == ElectionState::Coordinator,
        EventView::PeerLost(_) => state.election_state == ElectionState::Coordinator,
        _ => false,
    }
}

/// An invitation to an election.
pub open spec fn invitation(id: Id) -> ActionView {
    ActionView::Send { to: id, message: MessageView::Election }
}

/// Whether an action announces a coordinator or gives a peer its pool.
pub open spec fn is_of_the_lead(action: ActionView) -> bool {
    match action {
        ActionView::Send { to, message } => message is Coordinator || message is SetPool,
        _ => false,
    }
}

/// An element of two sequences together is an element of one of them.
proof fn lemma_either<A>(a: Seq<A>, b: Seq<A>, x: A)
    ensures
        (a + b).contains(x) <==> a.contains(x) || b.contains(x),
{
    let all = a + b;
    if all.contains(x) {
        let k = choose|k: int| 0 <= k < all.len() && all[k] == x;
        if k < a.len() {
            assert(a[k] == x);
        } else {
            assert(b[k - a.len()] == x);
        }
    }
    if a.contains(x) {
        let k = choose|k: int| 0 <= k < a.len() && a[k] == x;
        assert(all[k] == x);
    }
    if b.contains(x) {
        let k = choose|k: int| 0 <= k < b.len() && b[k] == x;
        assert(all[a.len() + k] == x);
    }
}

/// The only element of a sequence of one.
proof fn lemma_single<A>(a: A, x: A)
    ensures
        seq![a].contains(x) <==> a == x,
{
    assert(seq![a][0] == a);
}

/// The invitations to an election.
proof fn lemma_invitations(state: ServerState, action: ActionView)
    ensures
        ({
            let actions = state.start_election().1;
            &&& actions.contains(action) <==> action == ActionView::StartElectionTimer || (exists|
                id: Id,
            |
                state.peers.contains(id) && id > state.config.id && action == #[trigger] invitation(
                    id,
                ))
            &&& actions.last() == ActionView::StartElectionTimer
            &&& actions.len() > 0
        }),
{
    let higher = higher_than(state.config.id);
    let invited = state.peers.filter(higher);
    let actions = state.start_election().1;
    assert(actions[invited.len() as int] == ActionView::StartElectionTimer);
    if exists|id: Id|
        state.peers.contains(id) && id > state.config.id && action == #[trigger] invitation(id) {
        let id = choose|id: Id|
            state.peers.contains(id) && id > state.config.id && action == #[trigger] invitation(id);
        let k = choose|k: int| 0 <= k < state.peers.len() && state.peers[k] == id;
        assert(higher(state.peers[k]));
        state.peers.lemma_filter_contains(higher, k);
        let i = choose|i: int| 0 <= i < invited.len() && invited[i] == id;
        assert(actions[i] == invitation(id));
    }
    if actions.contains(action) && action != ActionView::StartElectionTimer {
        let i = choose|i: int| 0 <= i < actions.len() && actions[i] == action;
        state.peers.lemma_filter_pred(higher, i);
        assert(invited.contains(invited[i]));
        state.peers.lemma_filter_contains_rev(higher, invited[i]);
        assert(action == invitation(invited[i]));
    }
}

/// What a server sends that takes the lead.
proof fn lemma_lead(state: ServerState, action: ActionView)
    ensures
        state.become_coordinator().1.contains(action) ==> is_of_the_lead(action)
            && state.peers.contains(action->Send_to),
        state.become_coordinator().1.len() == 2 * state.peers.len(),
{
    let actions = state.become_coordinator().1;
    if actions.contains(action) {
        let k = choose|k: int| 0 <= k < actions.len() && actions[k] == action;
        let n = state.peers.len();
        if k < n {
            assert(state.peers[k] == action->Send_to);
        } else {
            assert(state.peers[k - n] == action->Send_to);
        }
    }
}

/// Without the peer `id` all others are left.
proof fn lemma_without(state: ServerState, id: Id, other: Id)
    requires
        state.peers.no_duplicates(),
    ensures
        state.without(id).peers.contains(other) <==> state.peers.contains(other) && other != id,
        state.without(id).peers.no_duplicates(),
        state.without(id) == (ServerState { peers: state.without(id).peers, ..state }),
{
    lemma_first_where(state.peers, is_id(id));
    match first_where(state.peers, is_id(id)) {
        Some(i) => {
            assert(is_id(id)(state.peers[i]));
            let left = state.peers.remove(i);
            if left.contains(other) {
                let j = choose|j: int| 0 <= j < left.len() && left[j] == other;
                let k = if j < i {
                    j
                } else {
                    j + 1
                };
                assert(state.peers[k] == other);
            }
            if state.peers.contains(other) && other != id {
                let k = choose|k: int| 0 <= k < state.peers.len() && state.peers[k] == other;
                assert(left[if k < i {
                    k
                } else {
                    k - 1
                }] == other);
            }
        },
        None => {
            if state.peers.contains(id) {
                let j = choose|j: int| 0 <= j < state.peers.len() && state.peers[j] == id;
                assert(!is_id(id)(state.peers[j]));
            }
        },
    }
}

/// With another peer all are left, and that one.
proof fn lemma_with(peers: Seq<Id>, id: Id, other: Id)
    ensures
        peers.push(id).contains(other) <==> peers.contains(other) || other == id,
{
    let all = peers.push(id);
    assert(all[peers.len() as int] == id);
    if peers.contains(other) {
        let k = choose|k: int| 0 <= k < peers.len() && peers[k] == other;
        assert(all[k] == other);
    }
}

/// The peers of a server are those that have joined it or that it has connected to, without those
/// that were lost. No other event changes them, and none changes the configuration.
pub proof fn law_peers_come_and_go(state: ServerState, event: EventView, now: Timestamp, id: Id)
    requires
        state.wf(),
        state.admits(event),
    ensures
        ({
            let after = state.react(event, now).0;
            &&& after.peers.contains(id) <==> match event {
                EventView::IncomingPeerConnection(Some(new)) => state.peers.contains(id) || id
                    == new,
                EventView::EstablishedPeerConnection(new) => state.peers.contains(id) || id == new,
                EventView::PeerLost(gone) => state.peers.contains(id) && id != gone,
                _ => state.peers.contains(id),
            }
            &&& after.peers.no_duplicates()
            &&& after.config == state.config
            &&& after.last_connect_attempt == state.last_connect_attempt
        }),
{
    match event {
        EventView::IncomingPeerConnection(Some(new)) => lemma_with(state.peers, new, id),
        EventView::EstablishedPeerConnection(new) => lemma_with(state.peers, new, id),
        EventView::PeerLost(gone) => lemma_without(state, gone, id),
        _ => {},
    }
}

/// What comes of an event, in one list: what belongs to the connection, to the answer, to the
/// lead, and to an election.
proof fn lemma_actions(state: ServerState, event: EventView, now: Timestamp, action: ActionView)
    requires
        state.wf(),
        state.admits(event),
    ensures
        ({
            let (after, actions) = state.react(event, now);
            let elected = (ServerState { peers: after.peers, ..state }).start_election().1;
            let led = (ServerState { peers: after.peers, ..state }).become_coordinator().1;
            &&& actions.contains(action) ==> {
                ||| opens_election(state, event) && elected.contains(action)
                ||| takes_lead(state, event) && led.contains(action)
                ||| is_reply(state, event, action)
            }
            &&& opens_election(state, event) && elected.contains(action) ==> actions.contains(
                action,
            )
            &&& takes_lead(state, event) && led.contains(action) ==> actions.contains(action)
            &&& opens_election(state, event) ==> actions.len() > 0 && actions.last()
                == ActionView::StartElectionTimer
        }),
{
    match event {
        EventView::IncomingPeerConnection(joined) => {
            if joined is Some {
                let id = joined->Some_0;
                let added = ServerState { peers: state.peers.push(id), ..state };
                let table = ActionView::Send {
                    to: id,
                    message: MessageView::LeaseTable(state.service.leases),
                };
                let greeting = if state.service.leases.len() > 0 {
                    seq![ActionView::Keep(id), table]
                } else {
                    seq![ActionView::Keep(id)]
                };
                lemma_either(greeting, added.refresh().1, action);
                lemma_with(state.peers, id, id);
            }
        },
        EventView::EstablishedPeerConnection(id) => {
            let added = ServerState { peers: state.peers.push(id), ..state };
            lemma_either(seq![ActionView::Keep(id)], added.start_election().1, action);
            lemma_single(ActionView::Keep(id), action);
            lemma_single(ActionView::Discard(id), action);
            lemma_invitations(added, action);
        },
        EventView::PeerLost(id) => {
            lemma_without(state, id, id);
            let gone = state.without(id);
            let (refreshed, lead) = gone.refresh();
            let close = seq![ActionView::Close(id)];
            lemma_single(ActionView::Close(id), action);
            lemma_either(close, lead, action);
            lemma_either(close + lead, refreshed.start_election().1, action);
            lemma_invitations(refreshed, action);
            assert(refreshed.start_election().1 == gone.start_election().1);
        },
        EventView::PeerMessage { sender_id, message } => {
            if message == MessageView::Election && sender_id < state.config.id {
                let okay = ActionView::Send { to: sender_id, message: MessageView::Okay };
                lemma_single(okay, action);
                lemma_either(seq![okay], state.start_election().1, action);
                lemma_invitations(state, action);
            }
            if message is Coordinator {
                lemma_invitations(state, action);
            }
        },
        EventView::LeaseRequest { mac_address } => {},
        EventView::ConfirmRequest { mac_address, ip } => {
            let (service, outcome) = state.service.commit(mac_address, ip, now);
            if outcome is Ok {
                let reports = to_each(state.peers, MessageView::Lease(outcome->Ok_0));
                lemma_either(seq![ActionView::Confirm(true)], reports, action);
                if reports.contains(action) {
                    let k = choose|k: int| 0 <= k < reports.len() && reports[k] == action;
                    assert(state.peers[k] == action->Send_to);
                }
            }
        },
        _ => {},
    }
}

/// Whether an action answers whoever the event comes from, or reports a lease to a peer.
pub open spec fn is_reply(state: ServerState, event: EventView, action: ActionView) -> bool {
    match action {
        ActionView::Send { to, message } => match message {
            MessageView::LeaseTable(leases) => event == EventView::IncomingPeerConnection(Some(to))
                && leases == state.service.leases,
            MessageView::Okay => to < state.config.id && event == (EventView::PeerMessage {
                sender_id: to,
                message: MessageView::Election,
            }),
            MessageView::Lease(_) => event is ConfirmRequest && state.peers.contains(to),
            _ => false,
        },
        ActionView::StartElectionTimer => false,
        ActionView::Keep(id) => event == EventView::IncomingPeerConnection(Some(id)) || (event
            == EventView::EstablishedPeerConnection(id) && !state.peers.contains(id)),
        ActionView::Discard(id) => event == EventView::EstablishedPeerConnection(id)
            && state.peers.contains(id),
        ActionView::Close(id) => event == EventView::PeerLost(id),
        ActionView::Offer(_) => event is LeaseRequest,
        ActionView::Confirm(_) => event is ConfirmRequest,
    }
}

/// When an election opens, the invitations go to exactly those of the peers that are left whose
/// ids are higher than the server's own, and the timer is started. Nothing else starts the timer
/// or sends an invitation.
pub proof fn law_every_election_invites_the_higher_ids(
    state: ServerState,
    event: EventView,
    now: Timestamp,
    id: Id,
)
    requires
        state.wf(),
        state.admits(event),
    ensures
        ({
            let (after, actions) = state.react(event, now);
            &&& actions.contains(
                ActionView::Send { to: id, message: MessageView::Election },
            ) <==> opens_election(state, event) && after.peers.contains(id) && id
                > state.config.id
            &&& actions.contains(ActionView::StartElectionTimer) <==> opens_election(state, event)
            &&& opens_election(state, event) ==> actions.last() == ActionView::StartElectionTimer
        }),
{
    let (after, actions) = state.react(event, now);
    let there = ServerState { peers: after.peers, ..state };
    law_peers_come_and_go(state, event, now, id);
    lemma_actions(state, event, now, invitation(id));
    lemma_actions(state, event, now, ActionView::StartElectionTimer);
    lemma_invitations(there, invitation(id));
    lemma_invitations(there, ActionView::StartElectionTimer);
    lemma_lead(there, invitation(id));
    lemma_lead(there, ActionView::StartElectionTimer);
    if exists|other: Id|
        there.peers.contains(other) && other > there.config.id && invitation(id)
            == #[trigger] invitation(other) {
        let other = choose|other: Id|
            there.peers.contains(other) && other > there.config.id && invitation(id)
                == #[trigger] invitation(other);
        assert(other == id);
    }
}

/// The part that a server has in elections: it waits while an election is open, leads when it
/// takes the lead, and follows when a higher id objects or leads. Nothing else changes it.
pub proof fn law_the_part_in_elections(state: ServerState, event: EventView, now: Timestamp)
    requires
        state.wf(),
        state.admits(event),
    ensures
        state.react(event, now).0.election_state == (if opens_election(state, event) {
            ElectionState::WaitingForElection
        } else if takes_lead(state, event) {
            ElectionState::Coordinator
        } else {
            match event {
                EventView::PeerMessage { sender_id, message } => match message {
                    MessageView::Coordinator { .. } => ElectionState::Follower,
                    MessageView::Okay => if state.election_state
                        == ElectionState::WaitingForElection {
                        ElectionState::Follower
                    } else {
                        state.election_state
                    },
                    _ => state.election_state,
                },
                _ => state.election_state,
            }
        }),
{
    if let EventView::PeerLost(id) = event {
        lemma_without(state, id, id);
    }
}

/// Who leads: the one that says so last, or the server itself when it takes the lead. Nothing
/// else changes it; a coordinator that is lost stays on record until there is another one.
pub proof fn law_who_leads(state: ServerState, event: EventView, now: Timestamp)
    requires
        state.wf(),
        state.admits(event),
    ensures
        state.react(event, now).0.coordinator_id == (if takes_lead(state, event) {
            Some(state.config.id)
        } else {
            match event {
                EventView::PeerMessage { sender_id, message } => if message is Coordinator {
                    Some(sender_id)
                } else {
                    state.coordinator_id
                },
                _ => state.coordinator_id,
            }
        }),
{
    if let EventView::PeerLost(id) = event {
        lemma_without(state, id, id);
    }
}

/// Whether there is a majority: a server that takes the lead is in contact with more than half of
/// the cluster, or else as the coordinator says. Nothing else changes it.
pub proof fn law_what_makes_a_majority(state: ServerState, event: EventView, now: Timestamp)
    requires
        state.wf(),
        state.admits(event),
    ensures
        ({
            let after = state.react(event, now).0;
            after.majority == (if takes_lead(state, event) {
                2 * (after.peers.len() + 1) > state.config.peers@.len() + 1
            } else {
                match event {
                    EventView::PeerMessage { sender_id, message } => match message {
                        MessageView::Coordinator { majority } => majority,
                        _ => state.majority,
                    },
                    _ => state.majority,
                }
            })
        }),
{
    if let EventView::PeerLost(id) = event {
        lemma_without(state, id, id);
    }
}

/// Which pool a server serves: the first share when it takes the lead, or else what it is told.
/// Nothing else changes it.
pub proof fn law_which_pool_is_served(state: ServerState, event: EventView, now: Timestamp)
    requires
        state.wf(),
        state.admits(event),
        now.wf(),
    ensures
        ({
            let after = state.react(event, now).0;
            after.service.pool == (if takes_lead(state, event) {
                state.config.dhcp_pool.part((after.peers.len() + 1) as int, 0)
            } else {
                match event {
                    EventView::PeerMessage { sender_id, message } => match message {
                        MessageView::SetPool(pool) => pool,
                        _ => state.service.pool,
                    },
                    _ => state.service.pool,
                }
            })
        }),
{
    match event {
        EventView::PeerLost(id) => lemma_without(state, id, id),
        EventView::LeaseRequest { mac_address } => lemma_asking(state.service, mac_address, now),
        EventView::ConfirmRequest { mac_address, ip } => law_confirming_changes_one_lease(
            state.service,
            mac_address,
            ip,
            now,
        ),
        _ => {},
    }
}

proof fn lemma_asking(service: ServiceState, mac: MacAddr, now: Timestamp)
    ensures
        service.discover(mac, now).0.pool == service.pool,
        service.discover(mac, now).0.lease_time == service.lease_time,
{
}

/// A server that takes the lead tells each of its peers who leads and whether there is a majority,
/// and gives the `i`-th of them its share. No other event makes it do so.
pub proof fn law_the_lead_is_told_to_each_peer(
    state: ServerState,
    event: EventView,
    now: Timestamp,
    i: int,
)
    requires
        state.wf(),
        state.admits(event),
    ensures
        ({
            let (after, actions) = state.react(event, now);
            let n = after.peers.len();
            &&& takes_lead(state, event) && 0 <= i < n ==> {
                &&& actions.contains(
                    ActionView::Send {
                        to: after.peers[i],
                        message: MessageView::Coordinator { majority: after.majority },
                    },
                )
                &&& actions.contains(
                    ActionView::Send {
                        to: after.peers[i],
                        message: MessageView::SetPool(
                            state.config.dhcp_pool.part((n + 1) as int, i + 1),
                        ),
                    },
                )
            }
            &&& !takes_lead(state, event) && 0 <= i < actions.len() ==> !is_of_the_lead(actions[i])
        }),
{
    let (after, actions) = state.react(event, now);
    let n = after.peers.len();
    let there = ServerState { peers: after.peers, ..state };
    let led = there.become_coordinator().1;
    if let EventView::PeerLost(id) = event {
        lemma_without(state, id, id);
    }
    if takes_lead(state, event) && 0 <= i < n {
        assert(led.contains(led[i]));
        assert(led.contains(led[n + i]));
        lemma_actions(state, event, now, led[i]);
        lemma_actions(state, event, now, led[n + i]);
    }
    if !takes_lead(state, event) && 0 <= i < actions.len() {
        assert(actions.contains(actions[i]));
        lemma_actions(state, event, now, actions[i]);
        lemma_invitations(there, actions[i]);
    }
}

/// A server sends messages only to peers that it is connected to.
pub proof fn law_messages_go_to_peers(
    state: ServerState,
    event: EventView,
    now: Timestamp,
    to: Id,
    message: MessageView,
)
    requires
        state.wf(),
        state.admits(event),
        state.react(event, now).1.contains(ActionView::Send { to, message }),
    ensures
        state.react(event, now).0.peers.contains(to),
{
    let (after, actions) = state.react(event, now);
    let there = ServerState { peers: after.peers, ..state };
    let action = ActionView::Send { to, message };
    law_peers_come_and_go(state, event, now, to);
    lemma_actions(state, event, now, action);
    lemma_invitations(there, action);
    lemma_lead(there, action);
}

/// What comes of a connection: one that a peer opened is kept, one that the server opened is kept
/// unless there is one to that peer already, and one that is lost is closed. No other event
/// concerns connections.
pub proof fn law_what_comes_of_connections(
    state: ServerState,
    event: EventView,
    now: Timestamp,
    id: Id,
)
    requires
        state.wf(),
        state.admits(event),
    ensures
        ({
            let actions = state.react(event, now).1;
            &&& actions.contains(ActionView::Keep(id)) <==> event
                == EventView::IncomingPeerConnection(Some(id)) || (event
                == EventView::EstablishedPeerConnection(id) && !state.peers.contains(id))
            &&& actions.contains(ActionView::Discard(id)) <==> event
                == EventView::EstablishedPeerConnection(id) && state.peers.contains(id)
            &&& actions.contains(ActionView::Close(id)) <==> event == EventView::PeerLost(id)
            &&& actions.contains(ActionView::Keep(id)) ==> actions[0] == ActionView::Keep(id)
        }),
{
    let (after, actions) = state.react(event, now);
    let there = ServerState { peers: after.peers, ..state };
    lemma_actions(state, event, now, ActionView::Keep(id));
    lemma_actions(state, event, now, ActionView::Discard(id));
    lemma_actions(state, event, now, ActionView::Close(id));
    lemma_invitations(there, ActionView::Keep(id));
    lemma_invitations(there, ActionView::Discard(id));
    lemma_invitations(there, ActionView::Close(id));
    lemma_lead(there, ActionView::Keep(id));
    lemma_lead(there, ActionView::Discard(id));
    lemma_lead(there, ActionView::Close(id));
    if event == EventView::IncomingPeerConnection(Some(id)) || event
        == EventView::EstablishedPeerConnection(id) || event == EventView::PeerLost(id) {
        assert(actions.len() > 0);
        assert(actions.contains(actions[0]));
    }
}

/// A peer that joins is told of the leases, if there are any, and nobody else is.
pub proof fn law_who_is_told_of_all_leases(
    state: ServerState,
    event: EventView,
    now: Timestamp,
    to: Id,
    leases: Seq<Lease>,
)
    requires
        state.wf(),
        state.admits(event),
    ensures
        state.react(event, now).1.contains(
            ActionView::Send { to, message: MessageView::LeaseTable(leases) },
        ) <==> event == EventView::IncomingPeerConnection(Some(to)) && leases.len() > 0 && leases
            == state.service.leases,
{
    let (after, actions) = state.react(event, now);
    let there = ServerState { peers: after.peers, ..state };
    let action = ActionView::Send { to, message: MessageView::LeaseTable(leases) };
    lemma_actions(state, event, now, action);
    lemma_invitations(there, action);
    lemma_lead(there, action);
    if event == EventView::IncomingPeerConnection(Some(to)) {
        let added = ServerState { peers: state.peers.push(to), ..state };
        if state.service.leases.len() > 0 {
            let table = ActionView::Send {
                to,
                message: MessageView::LeaseTable(state.service.leases),
            };
            assert(actions[1] == table);
        } else {
            lemma_either(seq![ActionView::Keep(to)], added.refresh().1, action);
            lemma_single(ActionView::Keep(to), action);
            lemma_lead(added, action);
        }
    }
}

/// An objection goes to a server with a lower id that holds an election, and to nobody else.
pub proof fn law_who_is_objected_to(state: ServerState, event: EventView, now: Timestamp, to: Id)
    requires
        state.wf(),
        state.admits(event),
    ensures
        state.react(event, now).1.contains(
            ActionView::Send { to, message: MessageView::Okay },
        ) <==> to < state.config.id && event == (EventView::PeerMessage {
            sender_id: to,
            message: MessageView::Election,
        }),
{
    let (after, actions) = state.react(event, now);
    let there = ServerState { peers: after.peers, ..state };
    let action = ActionView::Send { to, message: MessageView::Okay };
    lemma_actions(state, event, now, action);
    lemma_invitations(there, action);
    lemma_lead(there, action);
    if to < state.config.id && event == (EventView::PeerMessage {
        sender_id: to,
        message: MessageView::Election,
    }) {
        assert(actions[0] == action);
    }
}

/// Dividing the pool anew, or being told another share, changes neither the lease table nor the
/// offers. Only clients and reports of leases do, and only clients change the offers.
pub proof fn law_what_changes_leases_and_offers(
    state: ServerState,
    event: EventView,
    now: Timestamp,
)
    requires
        state.wf(),
        state.admits(event),
    ensures
        ({
            let after = state.react(event, now).0;
            let asked = state.majority && (event is LeaseRequest || event is ConfirmRequest);
            let told = match event {
                EventView::PeerMessage { sender_id, message } => message is Lease || message
                    is LeaseTable,
                _ => false,
            };
            &&& !asked ==> after.service.pending == state.service.pending
            &&& !asked && !told ==> after.service.leases == state.service.leases
            &&& after.service.lease_time == state.service.lease_time
        }),
{
    if let EventView::PeerLost(id) = event {
        lemma_without(state, id, id);
    }
}

/// A lease table that a peer sends is taken over iff it is larger, and then as it is.
pub proof fn law_the_larger_table_is_kept(
    state: ServerState,
    sender_id: Id,
    leases: Seq<Lease>,
    now: Timestamp,
)
    ensures
        ({
            let (after, actions) = state.react(
                EventView::PeerMessage { sender_id, message: MessageView::LeaseTable(leases) },
                now,
            );
            &&& after.service.leases == (if leases.len() > state.service.leases.len() {
                leases
            } else {
                state.service.leases
            })
            &&& after == (ServerState {
                service: ServiceState { leases: after.service.leases, ..state.service },
                ..state
            })
            &&& actions.len() == 0
        }),
{
}

/// A lease that a peer reports renews the one that binds the same address to the same client, or
/// is added. Nothing else changes, and nobody is told.
pub proof fn law_reports_are_taken_over(
    state: ServerState,
    sender_id: Id,
    lease: Lease,
    now: Timestamp,
)
    ensures
        ({
            let (after, actions) = state.react(
                EventView::PeerMessage { sender_id, message: MessageView::Lease(lease) },
                now,
            );
            let known = has_binding(
                state.service.leases,
                lease.hardware_address,
                lease.address,
            );
            &&& !known ==> after.service.leases == state.service.leases.push(lease)
            &&& known ==> exists|i: int|
                0 <= i < state.service.leases.len() && #[trigger] after.service.leases
                    == state.service.leases.update(i, lease)
                    && state.service.leases[i].hardware_address == lease.hardware_address
                    && state.service.leases[i].address == lease.address
            &&& after == (ServerState {
                service: ServiceState { leases: after.service.leases, ..state.service },
                ..state
            })
            &&& actions.len() == 0
        }),
{
    law_reports_change_one_lease(state.service, lease);
    let after = state.react(
        EventView::PeerMessage { sender_id, message: MessageView::Lease(lease) },
        now,
    ).0;
    if has_binding(state.service.leases, lease.hardware_address, lease.address) {
        let leases = state.service.leases;
        let i = choose|i: int|
            0 <= i < leases.len() && #[trigger] state.service.with_lease(lease).leases
                == leases.update(i, lease) && binds(
                leases[i],
                lease.hardware_address,
                lease.address,
            ) && forall|j: int|
                0 <= j < i ==> !binds(
                    #[trigger] leases[j],
                    lease.hardware_address,
                    lease.address,
                );
        assert(after.service.leases == leases.update(i, lease));
    }
}

/// Messages that ask for nothing change nothing: a heartbeat, what belongs in a handshake, an
/// election of a higher id, and an objection that comes too late.
pub proof fn law_messages_without_consequences(
    state: ServerState,
    sender_id: Id,
    message: MessageView,
    now: Timestamp,
)
    requires
        match message {
            MessageView::Heartbeat => true,
            MessageView::Join(_) => true,
            MessageView::JoinAck(_) => true,
            MessageView::Election => sender_id >= state.config.id,
            MessageView::Okay => state.election_state != ElectionState::WaitingForElection,
            _ => false,
        },
    ensures
        state.react(EventView::PeerMessage { sender_id, message }, now) == (
            state,
            Seq::<ActionView>::empty(),
        ),
{
}

/// With a majority, a client that has a lease in the table is answered with one offer: of the
/// first lease of that client, wherever its address lies, with the prefix length of the network.
/// Nothing changes.
pub proof fn law_clients_are_offered_the_lease_they_have(
    state: ServerState,
    mac_address: MacAddr,
    now: Timestamp,
    i: int,
)
    requires
        state.majority,
        0 <= i < state.service.leases.len(),
        state.service.leases[i].hardware_address == mac_address,
        forall|j: int|
            0 <= j < i ==> (#[trigger] state.service.leases[j]).hardware_address != mac_address,
    ensures
        state.react(EventView::LeaseRequest { mac_address }, now) == (
            state,
            seq![
                ActionView::Offer(
                    LeaseOffer {
                        lease: state.service.leases[i],
                        subnet_mask: state.config.prefix_length,
                    },
                ),
            ],
        ),
{
    law_the_first_lease_of_a_client_is_offered(state.service, mac_address, now, i);
}

/// With a majority, a client without a lease is answered with one offer, of a free address of the
/// server's share, iff there is one left. The offer is set aside.
pub proof fn law_clients_without_a_lease_are_offered_a_free_address(
    state: ServerState,
    mac_address: MacAddr,
    now: Timestamp,
)
    requires
        state.wf(),
        now.wf(),
        state.majority,
        !has_lease(state.service.leases, mac_address),
    ensures
        ({
            let (after, actions) = state.react(EventView::LeaseRequest { mac_address }, now);
            let left = exists|addr: Ipv4Addr|
                state.service.pool.start <= addr.bits < state.service.pool.end && !(
                #[trigger] in_use_at(state.service.leases, addr, now)) && !in_use_at(
                    state.service.pending,
                    addr,
                    now,
                );
            &&& left <==> actions.len() == 1
            &&& !left <==> actions.len() == 0
            &&& left ==> {
                &&& actions[0] is Offer
                &&& actions[0]->Offer_0.subnet_mask == state.config.prefix_length
                &&& actions[0]->Offer_0.lease.hardware_address == mac_address
                &&& state.service.pool.start <= actions[0]->Offer_0.lease.address.bits
                    < state.service.pool.end
                &&& !in_use_at(state.service.leases, actions[0]->Offer_0.lease.address, now)
                &&& !in_use_at(state.service.pending, actions[0]->Offer_0.lease.address, now)
                &&& actions[0]->Offer_0.lease.expiry_timestamp.nanos == now.nanos
                    + state.service.lease_time.nanos
                &&& after.service.pending.contains(actions[0]->Offer_0.lease)
            }
            &&& after == (ServerState { service: after.service, ..state })
        }),
{
    let service = state.service;
    assert forall|i: int| 0 <= i < service.leases.len() implies (
    #[trigger] service.leases[i]).hardware_address != mac_address by {}
    law_offers_are_free_addresses_of_the_pool(service, mac_address, now);
    law_asking_keeps_what_has_not_run_out(service, mac_address, now);
    let (after, offer) = service.discover(mac_address, now);
    match offer {
        Some(lease) => {
            assert(!in_use_at(service.leases, lease.address, now));
            assert(after.pending.last() == lease);
            assert(after.pending.contains(lease));
        },
        None => {
            assert forall|addr: Ipv4Addr|
                service.pool.start <= addr.bits < service.pool.end implies #[trigger] in_use_at(
                service.leases,
                addr,
                now,
            ) || in_use_at(service.pending, addr, now) by {
                assert(service.pool.contains(addr));
            }
        },
    }
}

/// With a majority, a request for a lease that was offered or granted is confirmed, and each peer
/// is told of it, once; a request for any other lease is denied, and nobody is told. Nothing but
/// the leases and the offers changes.
pub proof fn law_known_leases_are_confirmed_and_reported(
    state: ServerState,
    mac_address: MacAddr,
    ip: Ipv4Addr,
    now: Timestamp,
)
    requires
        state.wf(),
        now.wf(),
        state.majority,
    ensures
        ({
            let (after, actions) = state.react(EventView::ConfirmRequest { mac_address, ip }, now);
            let lease = Lease {
                hardware_address: mac_address,
                address: ip,
                expiry_timestamp: Timestamp {
                    nanos: (now.nanos + state.service.lease_time.nanos) as i128,
                },
            };
            &&& if has_binding(state.service.pending, mac_address, ip) || has_binding(
                state.service.leases,
                mac_address,
                ip,
            ) {
                &&& actions.len() == state.peers.len() + 1
                &&& actions[0] == ActionView::Confirm(true)
                &&& forall|i: int|
                    0 <= i < state.peers.len() ==> #[trigger] actions[i + 1] == (ActionView::Send {
                        to: state.peers[i],
                        message: MessageView::Lease(lease),
                    })
                &&& after.service.leases.contains(lease)
            } else {
                &&& actions == seq![ActionView::Confirm(false)]
                &&& after == state
            }
            &&& after == (ServerState { service: after.service, ..state })
        }),
{
    law_confirming_changes_one_lease(state.service, mac_address, ip, now);
    let (after, actions) = state.react(EventView::ConfirmRequest { mac_address, ip }, now);
    let outcome = state.service.commit(mac_address, ip, now).1;
    if outcome is Ok {
        law_confirmed_leases_are_in_the_table(state.service, mac_address, ip, now);
    }
}

/// Confirming a lease keeps the offers and the leases of all others.
pub proof fn law_confirmations_keep_what_others_have(
    state: ServerState,
    mac_address: MacAddr,
    ip: Ipv4Addr,
    now: Timestamp,
    other: Lease,
)
    requires
        state.wf(),
        now.wf(),
        other.hardware_address != mac_address || other.address != ip,
    ensures
        ({
            let after = state.react(EventView::ConfirmRequest { mac_address, ip }, now).0;
            &&& after.service.pending.contains(other) <==> state.service.pending.contains(other)
            &&& after.service.leases.contains(other) <==> state.service.leases.contains(other)
        }),
{
    law_confirming_keeps_other_offers_and_leases(state.service, mac_address, ip, now, other);
}

/// Of the configured peers, those are connected to that the server is not in contact with and
/// whose ids are lower than its own, each of them once.
pub proof fn law_which_peers_are_connected_to(state: ServerState, n: nat, i: usize)
    requires
        n <= state.config.peers@.len(),
        state.config.peers@.len() <= usize::MAX,
    ensures
        state.wanted_peers(n).contains(i) <==> i < n && !state.peers.contains(
            state.config.peers@[i as int].id,
        ) && state.config.id > state.config.peers@[i as int].id,
        forall|a: int, b: int|
            0 <= a < b < state.wanted_peers(n).len() ==> state.wanted_peers(n)[a]
                < state.wanted_peers(n)[b],
        forall|a: int| 0 <= a < state.wanted_peers(n).len() ==> state.wanted_peers(n)[a] < n,
    decreases n,
{
    if n > 0 {
        let m = (n - 1) as nat;
        law_which_peers_are_connected_to(state, m, i);
        let front = state.wanted_peers(m);
        if state.wants_peer(n - 1) {
            let all = front.push((n - 1) as usize);
            assert(all[front.len() as int] == (n - 1) as usize);
            if front.contains(i) {
                let k = choose|k: int| 0 <= k < front.len() && front[k] == i;
                assert(all[k] == i);
            }
            if all.contains(i) && i != (n - 1) as usize {
                let k = choose|k: int| 0 <= k < all.len() && all[k] == i;
                assert(front[k] == i);
            }
        }
    }
}

/// Connecting to peers is tried at once, and then again each time that more than the heartbeat
/// timeout has passed.
pub proof fn law_when_peers_are_connected_to(state: ServerState, now: Timestamp)
    ensures
        state.connect_due(now) <==> match state.last_connect_attempt {
            ConnectAttempt::Never => true,
            ConnectAttempt::Running => false,
            ConnectAttempt::Finished(at) => now.nanos > at.nanos
                + state.config.heartbeat_timeout.nanos,
        },
{
}

/// What a server is not in for: a peer that joins twice, an election of a lower id that it is not
/// connected to, an objection that does not come from a higher id, a pool that ends before it
/// starts, and more peers than can be counted.
pub proof fn law_what_a_server_is_not_in_for(state: ServerState, event: EventView)
    ensures
        state.admits(event) <==> match event {
            EventView::IncomingPeerConnection(None) => true,
            EventView::IncomingPeerConnection(Some(id)) => !state.peers.contains(id)
                && state.peers.len() < 4_294_967_294,
            EventView::EstablishedPeerConnection(_) => state.peers.len() < 4_294_967_294,
            EventView::PeerMessage { sender_id, message } => match message {
                MessageView::Election => sender_id >= state.config.id || state.peers.contains(
                    sender_id,
                ),
                MessageView::Okay => sender_id > state.config.id,
                MessageView::SetPool(pool) => pool.start <= pool.end,
                _ => true,
            },
            _ => true,
        },
{
}

/// A server starts alone: it knows of no coordinator, peer, lease or offer, has no majority, and
/// serves the whole pool.
pub proof fn law_a_server_starts_alone(config: crate::config::Config)
    ensures
        ({
            let state = ServerState::init(config);
            &&& state.config == config
            &&& state.coordinator_id is None
            &&& state.peers.len() == 0
            &&& state.election_state == ElectionState::Follower
            &&& !state.majority
            &&& state.last_connect_attempt == ConnectAttempt::Never
            &&& state.service.pool == config.dhcp_pool
            &&& state.service.lease_time == config.lease_time
            &&& state.service.leases.len() == 0
            &&& state.service.pending.len() == 0
            &&& state.service.next.bits == config.dhcp_pool.start
        }),
{
}

/// Nothing is done twice for one event. The connection to a peer that is lost is closed before
/// anything else is done.
pub proof fn law_nothing_is_done_twice(state: ServerState, event: EventView, now: Timestamp)
    requires
        state.wf(),
        state.admits(event),
    ensures
        state.react(event, now).1.no_duplicates(),
        event matches EventView::PeerLost(id) ==> state.react(event, now).1[0]
            == ActionView::Close(id),
{
    match event {
        EventView::IncomingPeerConnection(joined) => {
            lemma_lead_is_distinct(state);
            if joined is Some {
                let id = joined->Some_0;
                let added = ServerState { peers: state.peers.push(id), ..state };
                lemma_lead_is_distinct(added);
                lemma_refresh_is_of_the_lead(added);
                let greeting = if state.service.leases.len() > 0 {
                    seq![
                        ActionView::Keep(id),
                        ActionView::Send {
                            to: id,
                            message: MessageView::LeaseTable(state.service.leases),
                        },
                    ]
                } else {
                    seq![ActionView::Keep(id)]
                };
                lemma_no_dup_in_concat(greeting, added.refresh().1);
            }
        },
        EventView::EstablishedPeerConnection(id) => {
            let added = ServerState { peers: state.peers.push(id), ..state };
            if !state.peers.contains(id) {
                lemma_election_is_distinct(added);
                lemma_no_dup_in_concat(seq![ActionView::Keep(id)], added.start_election().1);
            }
        },
        EventView::PeerLost(id) => {
            lemma_without(state, id, id);
            let gone = state.without(id);
            let (refreshed, lead) = gone.refresh();
            let close = seq![ActionView::Close(id)];
            lemma_lead_is_distinct(gone);
            lemma_refresh_is_of_the_lead(gone);
            lemma_election_is_distinct(refreshed);
            lemma_no_dup_in_concat(close, lead);
            lemma_no_dup_in_concat(close + lead, refreshed.start_election().1);
        },
        EventView::ElectionTimeout => lemma_lead_is_distinct(state),
        EventView::PeerMessage { sender_id, message } => {
            lemma_election_is_distinct(state);
            let okay = ActionView::Send { to: sender_id, message: MessageView::Okay };
            lemma_no_dup_in_concat(seq![okay], state.start_election().1);
        },
        EventView::LeaseRequest { mac_address } => {},
        EventView::ConfirmRequest { mac_address, ip } => {
            let outcome = state.service.commit(mac_address, ip, now).1;
            if outcome is Ok {
                let reports = to_each(state.peers, MessageView::Lease(outcome->Ok_0));
                assert forall|i: int, j: int| 0 <= i < j < reports.len() implies reports[i]
                    != reports[j] by {
                    assert(state.peers[i] != state.peers[j]);
                }
                lemma_no_dup_in_concat(seq![ActionView::Confirm(true)], reports);
            }
        },
    }
}

proof fn lemma_lead_is_distinct(state: ServerState)
    requires
        state.peers.no_duplicates(),
    ensures
        state.become_coordinator().1.no_duplicates(),
{
    let actions = state.become_coordinator().1;
    let n = state.peers.len();
    assert forall|i: int, j: int| 0 <= i < j < actions.len() implies actions[i] != actions[j] by {
        if j < n {
            assert(state.peers[i] != state.peers[j]);
        } else if i >= n {
            assert(state.peers[i - n] != state.peers[j - n]);
        }
    }
}

proof fn lemma_refresh_is_of_the_lead(state: ServerState)
    ensures
        forall|i: int| 0 <= i < state.refresh().1.len() ==> is_of_the_lead(
            #[trigger] state.refresh().1[i],
        ),
{
    let actions = state.refresh().1;
    assert forall|i: int| 0 <= i < actions.len() implies is_of_the_lead(
        #[trigger] actions[i],
    ) by {
        assert(actions.contains(actions[i]));
        lemma_lead(state, actions[i]);
    }
}

proof fn lemma_election_is_distinct(state: ServerState)
    requires
        state.peers.no_duplicates(),
    ensures
        state.start_election().1.no_duplicates(),
        forall|i: int|
            0 <= i < state.start_election().1.len() ==> (#[trigger] state.start_election().1[i])
                == ActionView::StartElectionTimer || (state.start_election().1[i] is Send
                && state.start_election().1[i]->Send_message == MessageView::Election),
{
    let higher = higher_than(state.config.id);
    let invited = state.peers.filter(higher);
    let actions = state.start_election().1;
    lemma_filter_keeps_distinct(state.peers, higher);
    assert forall|i: int, j: int| 0 <= i < j < actions.len() implies actions[i] != actions[j] by {
        if j < invited.len() {
            assert(invited[i] != invited[j]);
        }
    }
}

} // verus!
