//! What holds of the servers of a cluster, whatever happens to them.

use crate::dhcp::laws::{
    has_binding, law_confirmed_leases_are_in_the_table, law_only_known_leases_are_confirmed,
    law_operations_keep_the_service_well_formed, law_parts_are_adjacent, law_parts_are_disjoint,
    law_parts_cover, law_reported_leases_are_in_the_table,
};
use crate::dhcp::{binding, Lease};
use crate::net::Ipv4Addr;
use crate::protocol::MacAddr;
use crate::search::{first_where, lemma_first_where};
use crate::server::peer::message::MessageView;
use crate::server::peer::Id;
use crate::server::{
    higher_than, is_id, is_majority, ActionView, ElectionState, EventView, ServerState,
};
use crate::time::Timestamp;
use vstd::prelude::*;

verus! {

/// Two groups of servers of one cluster that have no server in common are not both a majority.
pub proof fn law_no_two_majorities(peers: nat, other_peers: nat, configured: nat)
    requires
        (peers + 1) + (other_peers + 1) <= configured + 1,
    ensures
        !(is_majority(peers, configured) && is_majority(other_peers, configured)),
{
}

/// Losing less than half of a cluster leaves a majority.
pub proof fn law_majority_survives_a_minority(lost: nat, configured: nat)
    requires
        2 * lost < configured + 1,
    ensures
        is_majority((configured - lost) as nat, configured),
{
}

/// Without a majority no client is answered, and nothing changes.
pub proof fn law_no_service_without_a_majority(
    state: ServerState,
    mac: MacAddr,
    ip: Ipv4Addr,
    now: Timestamp,
)
    requires
        !state.majority,
    ensures
        state.react(EventView::LeaseRequest { mac_address: mac }, now) == (
            state,
            Seq::<ActionView>::empty(),
        ),
        state.react(EventView::ConfirmRequest { mac_address: mac, ip }, now) == (
            state,
            Seq::<ActionView>::empty(),
        ),
{
}

/// Whatever event comes, the server stays well formed.
pub proof fn law_events_keep_the_server_well_formed(
    state: ServerState,
    event: EventView,
    now: Timestamp,
)
    requires
        state.wf(),
        state.admits(event),
        now.wf(),
    ensures
        state.react(event, now).0.wf(),
{
    law_parts_are_adjacent(state.config.dhcp_pool, (state.peers.len() + 1) as int, 0);
    match event {
        EventView::IncomingPeerConnection(joined) => {
            if joined is Some {
                lemma_share_is_a_range(
                    ServerState { peers: state.peers.push(joined->Some_0), ..state },
                );
            }
        },
        EventView::PeerLost(id) => {
            lemma_first_where(state.peers, is_id(id));
            lemma_share_is_a_range(state.without(id));
        },
        EventView::PeerMessage { sender_id, message } => {},
        EventView::LeaseRequest { mac_address } => {
            law_operations_keep_the_service_well_formed(
                state.service,
                mac_address,
                arbitrary(),
                arbitrary(),
                state.config.dhcp_pool,
                now,
            );
        },
        EventView::ConfirmRequest { mac_address, ip } => {
            law_operations_keep_the_service_well_formed(
                state.service,
                mac_address,
                ip,
                arbitrary(),
                state.config.dhcp_pool,
                now,
            );
        },
        _ => {},
    }
}

proof fn lemma_share_is_a_range(state: ServerState)
    requires
        state.config.wf(),
    ensures
        state.share(0).wf(),
{
    law_parts_are_adjacent(state.config.dhcp_pool, (state.peers.len() + 1) as int, 0);
}

/// A coordinator and its peers serve all addresses of the cluster, and no address is served by
/// two of them.
pub proof fn law_the_coordinator_divides_the_pool(state: ServerState, addr: Ipv4Addr)
    requires
        state.config.wf(),
    ensures
        ({
            let (after, actions) = state.become_coordinator();
            let n = state.peers.len();
            // What the servers are told
            &&& after.service.pool == state.share(0)
            &&& forall|i: int|
                0 <= i < n ==> #[trigger] actions[n + i] == (ActionView::Send {
                    to: state.peers[i],
                    message: MessageView::SetPool(state.share(i + 1)),
                })
            // And what that amounts to
            &&& state.config.dhcp_pool.contains(addr) <==> exists|i: int|
                0 <= i <= n && (#[trigger] state.share(i)).contains(addr)
            &&& forall|i: int, j: int|
                0 <= i < j <= n ==> !((#[trigger] state.share(i)).contains(addr) && (
                #[trigger] state.share(j)).contains(addr))
        }),
{
    let n = state.peers.len();
    let parts = (n + 1) as int;
    let range = state.config.dhcp_pool;
    let (after, actions) = state.become_coordinator();
    law_parts_cover(range, parts, addr);
    if range.contains(addr) {
        let i = choose|i: int| 0 <= i < parts && (#[trigger] range.part(parts, i)).contains(addr);
        assert(state.share(i).contains(addr));
    }
    if exists|i: int| 0 <= i <= n && (#[trigger] state.share(i)).contains(addr) {
        let i = choose|i: int| 0 <= i <= n && (#[trigger] state.share(i)).contains(addr);
        assert(range.part(parts, i).contains(addr));
    }
    assert forall|i: int, j: int| 0 <= i < j <= n implies !((#[trigger] state.share(i)).contains(
        addr,
    ) && (#[trigger] state.share(j)).contains(addr)) by {
        law_parts_are_disjoint(range, parts, i, j, addr);
    }
}

/// A coordinator tells each of its peers who leads, and whether there is a majority.
pub proof fn law_the_coordinator_is_announced(state: ServerState, i: int)
    requires
        0 <= i < state.peers.len(),
    ensures
        state.become_coordinator().1[i] == (ActionView::Send {
            to: state.peers[i],
            message: MessageView::Coordinator {
                majority: is_majority(state.peers.len(), state.config.peers@.len()),
            },
        }),
        state.become_coordinator().0.coordinator_id == Some(state.config.id),
        state.become_coordinator().0.majority == is_majority(
            state.peers.len(),
            state.config.peers@.len(),
        ),
{
}

/// An election goes to the peers with a higher id, to each of them once, and to no other peer.
pub proof fn law_elections_go_to_higher_ids(state: ServerState, id: Id)
    requires
        state.wf(),
    ensures
        ({
            let actions = state.start_election().1;
            let invitation = ActionView::Send { to: id, message: MessageView::Election };
            &&& actions.last() == ActionView::StartElectionTimer
            &&& actions.contains(invitation) <==> state.peers.contains(id) && id > state.config.id
            &&& actions.no_duplicates()
        }),
{
    let higher = higher_than(state.config.id);
    let invited = state.peers.filter(higher);
    let actions = state.start_election().1;
    let invitation = ActionView::Send { to: id, message: MessageView::Election };
    if state.peers.contains(id) && id > state.config.id {
        let k = choose|k: int| 0 <= k < state.peers.len() && state.peers[k] == id;
        state.peers.lemma_filter_contains(higher, k);
        let i = choose|i: int| 0 <= i < invited.len() && invited[i] == id;
        assert(actions[i] == invitation);
    }
    if actions.contains(invitation) {
        let i = choose|i: int| 0 <= i < actions.len() && actions[i] == invitation;
        assert(invited[i] == id);
        state.peers.lemma_filter_pred(higher, i);
        assert(invited.contains(id));
        state.peers.lemma_filter_contains_rev(higher, id);
    }
    lemma_filter_keeps_distinct(state.peers, higher);
    assert forall|i: int, j: int| 0 <= i < j < actions.len() implies actions[i] != actions[j] by {
        if j < invited.len() {
            assert(invited[i] != invited[j]);
        }
    }
}

/// What is left of distinct ids is distinct.
pub proof fn lemma_filter_keeps_distinct(ids: Seq<Id>, pred: spec_fn(Id) -> bool)
    requires
        ids.no_duplicates(),
    ensures
        ids.filter(pred).no_duplicates(),
    decreases ids.len(),
{
    reveal(Seq::filter);
    if ids.len() > 0 {
        let front = ids.drop_last();
        lemma_filter_keeps_distinct(front, pred);
        if front.filter(pred).contains(ids.last()) {
            front.lemma_filter_contains_rev(pred, ids.last());
            let i = choose|i: int| 0 <= i < front.len() && front[i] == ids.last();
            assert(ids[i] == ids[ids.len() - 1]);
        }
    }
}

/// A server whose election nobody objects to leads the cluster when the time is over.
pub proof fn law_an_undisputed_election_is_won(state: ServerState)
    ensures
        ({
            let elected = state.start_election().0.finish_election().0;
            &&& elected.election_state == ElectionState::Coordinator
            &&& elected.coordinator_id == Some(state.config.id)
        }),
{
}

/// A server whose election a peer objects to follows, and does nothing when the time is over.
pub proof fn law_an_objection_ends_an_election(state: ServerState)
    ensures
        ({
            let outdone = state.start_election().0.outdone();
            &&& outdone.election_state == ElectionState::Follower
            &&& outdone.finish_election() == (outdone, Seq::<ActionView>::empty())
        }),
{
}

/// Of two servers, the one with the higher id objects to an election of the other, and then holds
/// one itself. The one with the lower id does not react to an election of the other.
pub proof fn law_the_higher_id_prevails(lower: ServerState, higher: ServerState, now: Timestamp)
    requires
        lower.config.id < higher.config.id,
    ensures
        ({
            let (after, actions) = higher.react(
                EventView::PeerMessage {
                    sender_id: lower.config.id,
                    message: MessageView::Election,
                },
                now,
            );
            &&& actions[0] == (ActionView::Send {
                to: lower.config.id,
                message: MessageView::Okay,
            })
            &&& after.election_state == ElectionState::WaitingForElection
        }),
        lower.react(
            EventView::PeerMessage { sender_id: higher.config.id, message: MessageView::Election },
            now,
        ) == (lower, Seq::<ActionView>::empty()),
        lower.admits(
            EventView::PeerMessage { sender_id: higher.config.id, message: MessageView::Okay },
        ),
{
}

/// A coordinator is recognized, together with what it says of the majority. If its id is lower,
/// an election is held against it.
pub proof fn law_coordinators_are_recognized(
    state: ServerState,
    sender_id: Id,
    majority: bool,
    now: Timestamp,
)
    ensures
        ({
            let after = state.react(
                EventView::PeerMessage {
                    sender_id,
                    message: MessageView::Coordinator { majority },
                },
                now,
            ).0;
            &&& after.coordinator_id == Some(sender_id)
            &&& after.majority == majority
            &&& after.election_state == if sender_id < state.config.id {
                ElectionState::WaitingForElection
            } else {
                ElectionState::Follower
            }
        }),
{
}

/// When the connection to the coordinator breaks, an election is held.
pub proof fn law_a_lost_coordinator_is_replaced(state: ServerState, id: Id, now: Timestamp)
    requires
        state.wf(),
        state.coordinator_id == Some(id),
        id != state.config.id,
    ensures
        ({
            let (after, actions) = state.react(EventView::PeerLost(id), now);
            &&& after.election_state == ElectionState::WaitingForElection
            &&& !after.peers.contains(id)
            &&& actions.last() == ActionView::StartElectionTimer
        }),
{
    lemma_first_where(state.peers, is_id(id));
    let gone = state.without(id);
    match first_where(state.peers, is_id(id)) {
        Some(i) => {
            if gone.peers.contains(id) {
                let j = choose|j: int| 0 <= j < gone.peers.len() && gone.peers[j] == id;
                let k = if j < i {
                    j
                } else {
                    j + 1
                };
                assert(state.peers[k] == state.peers[i]);
            }
        },
        None => {
            if gone.peers.contains(id) {
                let j = choose|j: int| 0 <= j < gone.peers.len() && gone.peers[j] == id;
                assert(!is_id(id)(state.peers[j]));
            }
        },
    }
}

/// A connection that is there already is kept, and the new one is closed.
pub proof fn law_no_second_connection(state: ServerState, id: Id, now: Timestamp)
    requires
        state.peers.contains(id),
    ensures
        state.react(EventView::EstablishedPeerConnection(id), now) == (
            state,
            seq![ActionView::Discard(id)],
        ),
{
}

/// Of two servers that are not connected and know of each other, one opens a connection, and only
/// one.
pub proof fn law_one_of_two_servers_connects(one: ServerState, other: ServerState, i: int, j: int)
    requires
        one.config.id != other.config.id,
        0 <= i < one.config.peers@.len(),
        0 <= j < other.config.peers@.len(),
        one.config.peers@[i].id == other.config.id,
        other.config.peers@[j].id == one.config.id,
        !one.peers.contains(other.config.id),
        !other.peers.contains(one.config.id),
    ensures
        one.wants_peer(i) != other.wants_peer(j),
{
}

/// A lease that a server confirms is reported to each of its peers, and stands in the lease table
/// of each peer that gets the report.
pub proof fn law_leases_are_shared(
    state: ServerState,
    mac: MacAddr,
    ip: Ipv4Addr,
    now: Timestamp,
    peer: ServerState,
    later: Timestamp,
)
    requires
        state.wf(),
        now.wf(),
        state.majority,
        state.peers.contains(peer.config.id),
        state.service.commit(mac, ip, now).1 is Ok,
    ensures
        ({
            let lease = state.service.commit(mac, ip, now).1->Ok_0;
            let (after, actions) = state.react(
                EventView::ConfirmRequest { mac_address: mac, ip },
                now,
            );
            let report = MessageView::Lease(lease);
            &&& actions[0] == ActionView::Confirm(true)
            &&& actions.contains(ActionView::Send { to: peer.config.id, message: report })
            &&& after.service.leases.contains(lease)
            &&& peer.react(
                EventView::PeerMessage { sender_id: state.config.id, message: report },
                later,
            ).0.service.leases.contains(lease)
        }),
{
    let lease = state.service.commit(mac, ip, now).1->Ok_0;
    let actions = state.react(EventView::ConfirmRequest { mac_address: mac, ip }, now).1;
    law_confirmed_leases_are_in_the_table(state.service, mac, ip, now);
    law_reported_leases_are_in_the_table(peer.service, lease);
    let i = choose|i: int| 0 <= i < state.peers.len() && state.peers[i] == peer.config.id;
    assert(actions[i + 1] == (ActionView::Send {
        to: peer.config.id,
        message: MessageView::Lease(lease),
    }));
}

/// Two servers with the same lease table have the same one again after one of them has confirmed
/// a lease and the other has got the report of it. The lease must not be on offer and in the
/// table at once.
pub proof fn law_lease_tables_stay_consistent(
    state: ServerState,
    mac: MacAddr,
    ip: Ipv4Addr,
    now: Timestamp,
    peer: ServerState,
    later: Timestamp,
)
    requires
        state.majority,
        state.service.leases == peer.service.leases,
        !(has_binding(state.service.pending, mac, ip) && has_binding(
            state.service.leases,
            mac,
            ip,
        )),
        state.service.commit(mac, ip, now).1 is Ok,
    ensures
        ({
            let lease = state.service.commit(mac, ip, now).1->Ok_0;
            let after = state.react(EventView::ConfirmRequest { mac_address: mac, ip }, now).0;
            let informed = peer.react(
                EventView::PeerMessage {
                    sender_id: state.config.id,
                    message: MessageView::Lease(lease),
                },
                later,
            ).0;
            after.service.leases == informed.service.leases
        }),
{
    let leases = state.service.leases;
    lemma_first_where(state.service.pending, binding(mac, ip));
    lemma_first_where(leases, binding(mac, ip));
    if let Some(i) = first_where(state.service.pending, binding(mac, ip)) {
        assert(has_binding(state.service.pending, mac, ip));
        assert(first_where(leases, binding(mac, ip)) is None);
    }
}

/// A lease that one server has granted can be renewed at another one that has got the report of
/// it.
pub proof fn law_leases_can_be_renewed_anywhere(
    state: ServerState,
    sender_id: Id,
    lease: Lease,
    reported: Timestamp,
    now: Timestamp,
)
    requires
        state.majority,
    ensures
        ({
            let informed = state.react(
                EventView::PeerMessage { sender_id, message: MessageView::Lease(lease) },
                reported,
            ).0;
            let (after, actions) = informed.react(
                EventView::ConfirmRequest {
                    mac_address: lease.hardware_address,
                    ip: lease.address,
                },
                now,
            );
            actions[0] == ActionView::Confirm(true)
        }),
{
    let informed = state.react(
        EventView::PeerMessage { sender_id, message: MessageView::Lease(lease) },
        reported,
    ).0;
    law_reported_leases_are_in_the_table(state.service, lease);
    let leases = informed.service.leases;
    let i = choose|i: int| 0 <= i < leases.len() && leases[i] == lease;
    assert(leases[i].hardware_address == lease.hardware_address);
    assert(has_binding(leases, lease.hardware_address, lease.address));
    law_only_known_leases_are_confirmed(
        informed.service,
        lease.hardware_address,
        lease.address,
        now,
    );
}

/// A request to confirm a lease that is not known is denied. Nothing changes, and no peer is
/// told.
pub proof fn law_unknown_leases_are_denied(
    state: ServerState,
    mac: MacAddr,
    ip: Ipv4Addr,
    now: Timestamp,
)
    requires
        state.majority,
        !has_binding(state.service.pending, mac, ip),
        !has_binding(state.service.leases, mac, ip),
    ensures
        state.react(EventView::ConfirmRequest { mac_address: mac, ip }, now) == (
            state,
            seq![ActionView::Confirm(false)],
        ),
{
    law_only_known_leases_are_confirmed(state.service, mac, ip, now);
}

/// A peer that joins is told of all leases, and if it knew of fewer, it knows these afterwards.
pub proof fn law_a_joining_peer_learns_the_leases(
    state: ServerState,
    peer: ServerState,
    now: Timestamp,
)
    requires
        peer.service.leases.len() < state.service.leases.len(),
    ensures
        ({
            let actions = state.react(
                EventView::IncomingPeerConnection(Some(peer.config.id)),
                now,
            ).1;
            let table = MessageView::LeaseTable(state.service.leases);
            &&& actions[1] == (ActionView::Send { to: peer.config.id, message: table })
            &&& peer.react(
                EventView::PeerMessage { sender_id: state.config.id, message: table },
                now,
            ).0.service.leases == state.service.leases
        }),
{
}

} // verus!
