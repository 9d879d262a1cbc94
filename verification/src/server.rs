//! The distributed DHCP server.
//!
//! A [`Server`] holds the state of one node of the cluster. Other threads report events to it,
//! [`Server::handle_event`] works out what follows from each, and what is to be done outside comes
//! back as a list of [`Action`]s.

pub mod client;
pub mod events;
pub mod journal;
pub mod laws;
pub mod peer;
pub mod status;

use crate::config::Config;
use crate::dhcp::{Ipv4Range, Lease, LeaseOffer, Service, ServiceState};
use crate::net::Ipv4Addr;
use crate::protocol::MacAddr;
use crate::search::{first_where, lemma_first_where_is, lemma_first_where_none};
use crate::time::Timestamp;
use peer::message::{Message, MessageView};
use peer::{HandshakeError, Id, JoinSuccess, Peer};
use vstd::prelude::*;

verus! {

/// Something that happened outside, and that the server has to react to.
#[derive(Debug)]
pub enum Event {
    /// A peer opened a connection. If the handshake succeeded, this is the peer's id.
    IncomingPeerConnection(Option<Id>),
    /// A connection to a peer was opened.
    EstablishedPeerConnection(JoinSuccess),
    /// The connection to a peer broke.
    PeerLost(Id),
    /// The time to object to an election is over.
    ElectionTimeout,
    /// A peer sent a message.
    PeerMessage { sender_id: Id, message: Message },
    /// A client asks for a lease.
    LeaseRequest { mac_address: MacAddr },
    /// A client asks to confirm or renew a lease.
    ConfirmRequest { mac_address: MacAddr, ip: Ipv4Addr },
}

/// What an [`Event`] says.
pub enum EventView {
    IncomingPeerConnection(Option<Id>),
    EstablishedPeerConnection(Id),
    PeerLost(Id),
    ElectionTimeout,
    PeerMessage { sender_id: Id, message: MessageView },
    LeaseRequest { mac_address: MacAddr },
    ConfirmRequest { mac_address: MacAddr, ip: Ipv4Addr },
}

impl View for Event {
    type V = EventView;

    open spec fn view(&self) -> EventView {
        match self {
            Event::IncomingPeerConnection(joined) => EventView::IncomingPeerConnection(*joined),
            Event::EstablishedPeerConnection(success) => EventView::EstablishedPeerConnection(
                success.peer_id,
            ),
            Event::PeerLost(id) => EventView::PeerLost(*id),
            Event::ElectionTimeout => EventView::ElectionTimeout,
            Event::PeerMessage { sender_id, message } => EventView::PeerMessage {
                sender_id: *sender_id,
                message: message@,
            },
            Event::LeaseRequest { mac_address } => EventView::LeaseRequest {
                mac_address: *mac_address,
            },
            Event::ConfirmRequest { mac_address, ip } => EventView::ConfirmRequest {
                mac_address: *mac_address,
                ip: *ip,
            },
        }
    }
}

/// Something to be done outside.
#[derive(Debug, PartialEq, Eq)]
pub enum Action {
    /// Send a message to a peer.
    Send { to: Id, message: Message },
    /// Report [`Event::ElectionTimeout`] after the heartbeat timeout.
    StartElectionTimer,
    /// Keep the connection that the event reports, as the one to this peer.
    Keep(Id),
    /// Close the connection that the event reports: there is one to this peer already.
    Discard(Id),
    /// Close the connection to this peer.
    Close(Id),
    /// Offer a lease to the client that asked for one.
    Offer(LeaseOffer),
    /// Tell the client whether its lease is confirmed.
    Confirm(bool),
}

/// What an [`Action`] says.
pub enum ActionView {
    Send { to: Id, message: MessageView },
    StartElectionTimer,
    Keep(Id),
    Discard(Id),
    Close(Id),
    Offer(LeaseOffer),
    Confirm(bool),
}

impl View for Action {
    type V = ActionView;

    open spec fn view(&self) -> ActionView {
        match self {
            Action::Send { to, message } => ActionView::Send { to: *to, message: message@ },
            Action::StartElectionTimer => ActionView::StartElectionTimer,
            Action::Keep(id) => ActionView::Keep(*id),
            Action::Discard(id) => ActionView::Discard(*id),
            Action::Close(id) => ActionView::Close(*id),
            Action::Offer(offer) => ActionView::Offer(*offer),
            Action::Confirm(confirmed) => ActionView::Confirm(*confirmed),
        }
    }
}

/// What the actions of a list say.
pub open spec fn views(actions: Seq<Action>) -> Seq<ActionView> {
    actions.map_values(|a: Action| a@)
}

/// The part that a server has in an election.
#[derive(Debug, Clone, Copy, PartialEq, Eq, Structural)]
pub enum ElectionState {
    WaitingForElection,
    Coordinator,
    Follower,
}

/// Keeps track of the last attempt to connect to peers, so that there are not too many.
#[derive(Debug, Clone, Copy, PartialEq, Eq, Structural)]
pub enum ConnectAttempt {
    Never,
    Running,
    Finished(Timestamp),
}

/// Whether a server with connections to `peers` peers and `configured` peers in its configuration
/// is in contact with more than half of the cluster, itself included.
pub open spec fn is_majority(peers: nat, configured: nat) -> bool {
    peers + 1 > (configured + 1) / 2
}

/// Whether a server with connections to `peers` of its `configured` peers is in contact with more
/// than half of the cluster.
fn has_majority(peers: usize, configured: usize) -> (majority: bool)
    ensures
        majority == is_majority(peers as nat, configured as nat),
{
    let connected: u128 = peers as u128 + 1;
    let total: u128 = configured as u128 + 1;
    connected > total / 2
}

/// The message `message`, to each of `peers`.
pub open spec fn to_each(peers: Seq<Id>, message: MessageView) -> Seq<ActionView> {
    peers.map_values(|to: Id| ActionView::Send { to, message })
}

/// The ids that are higher than `id`.
pub open spec fn higher_than(id: Id) -> spec_fn(Id) -> bool {
    |other: Id| other > id
}

/// The id `id`.
pub open spec fn is_id(id: Id) -> spec_fn(Id) -> bool {
    |other: Id| other == id
}

/// The state of a [`Server`].
pub struct ServerState {
    pub config: Config,
    pub coordinator_id: Option<Id>,
    pub service: ServiceState,
    pub peers: Seq<Id>,
    pub election_state: ElectionState,
    pub majority: bool,
    pub last_connect_attempt: ConnectAttempt,
}

impl ServerState {
    /// No peer is connected twice, and a server that has won an election knows itself as the
    /// coordinator.
    pub open spec fn wf(self) -> bool {
        &&& self.config.wf()
        &&& self.service.wf()
        &&& self.peers.no_duplicates()
        &&& self.peers.len() < u32::MAX
        &&& self.election_state == ElectionState::Coordinator ==> self.coordinator_id == Some(
            self.config.id,
        )
    }

    /// A server that has just started.
    pub open spec fn init(config: Config) -> Self {
        ServerState {
            config,
            coordinator_id: None,
            service: ServiceState::init(config.dhcp_pool, config.lease_time, Seq::empty()),
            peers: Seq::empty(),
            election_state: ElectionState::Follower,
            majority: false,
            last_connect_attempt: ConnectAttempt::Never,
        }
    }

    /// Whether it is time to try and connect to peers again.
    pub open spec fn connect_due(self, now: Timestamp) -> bool {
        match self.last_connect_attempt {
            ConnectAttempt::Never => true,
            ConnectAttempt::Running => false,
            ConnectAttempt::Finished(at) => match now.spec_since(at) {
                Some(elapsed) => elapsed.nanos > self.config.heartbeat_timeout.nanos,
                None => false,
            },
        }
    }

    /// Whether to connect to the `i`-th configured peer: there is no connection to it, and this
    /// server is the one with the higher id, which is the one that opens connections.
    pub open spec fn wants_peer(self, i: int) -> bool {
        !self.peers.contains(self.config.peers@[i].id) && self.config.id > self.config.peers@[i].id
    }

    /// Which of the first `n` configured peers to connect to.
    pub open spec fn wanted_peers(self, n: nat) -> Seq<usize>
        decreases n,
    {
        if n == 0 {
            Seq::empty()
        } else {
            let front = self.wanted_peers((n - 1) as nat);
            if self.wants_peer(n - 1) {
                front.push((n - 1) as usize)
            } else {
                front
            }
        }
    }

    /// Invite the peers with higher ids to an election, and wait for objections.
    pub open spec fn start_election(self) -> (Self, Seq<ActionView>) {
        (
            ServerState { election_state: ElectionState::WaitingForElection, ..self },
            to_each(self.peers.filter(higher_than(self.config.id)), MessageView::Election).push(
                ActionView::StartElectionTimer,
            ),
        )
    }

    /// The pool of the coordinator, for `i` 0, or else the one of its `i`-th peer.
    pub open spec fn share(self, i: int) -> Ipv4Range {
        self.config.dhcp_pool.part((self.peers.len() + 1) as int, i)
    }

    /// The messages that give each peer its pool.
    pub open spec fn shares(self) -> Seq<ActionView> {
        Seq::new(
            self.peers.len(),
            |i: int|
                ActionView::Send {
                    to: self.peers[i],
                    message: MessageView::SetPool(self.share(i + 1)),
                },
        )
    }

    /// Lead the cluster: tell all peers so, and divide the addresses among them and this server.
    pub open spec fn become_coordinator(self) -> (Self, Seq<ActionView>) {
        let majority = is_majority(self.peers.len(), self.config.peers@.len());
        (
            ServerState {
                election_state: ElectionState::Coordinator,
                coordinator_id: Some(self.config.id),
                majority,
                service: self.service.with_pool(self.share(0)),
                ..self
            },
            to_each(self.peers, MessageView::Coordinator { majority }) + self.shares(),
        )
    }

    /// After the peers have changed: a coordinator divides the addresses anew.
    pub open spec fn refresh(self) -> (Self, Seq<ActionView>) {
        if self.election_state == ElectionState::Coordinator {
            self.become_coordinator()
        } else {
            (self, Seq::empty())
        }
    }

    /// The end of a handshake that a peer began. A peer that joined is told of the leases.
    pub open spec fn answered(self, joined: Option<Id>) -> (Self, Seq<ActionView>) {
        match joined {
            Some(id) => {
                let added = ServerState { peers: self.peers.push(id), ..self };
                let greeting = if self.service.leases.len() > 0 {
                    seq![
                        ActionView::Keep(id),
                        ActionView::Send {
                            to: id,
                            message: MessageView::LeaseTable(self.service.leases),
                        },
                    ]
                } else {
                    seq![ActionView::Keep(id)]
                };
                let (after, actions) = added.refresh();
                (after, greeting + actions)
            },
            None => self.refresh(),
        }
    }

    /// A connection that this server opened: the cluster has changed, so there is an election.
    pub open spec fn connected(self, id: Id) -> (Self, Seq<ActionView>) {
        if self.peers.contains(id) {
            (self, seq![ActionView::Discard(id)])
        } else {
            let (after, actions) = ServerState {
                peers: self.peers.push(id),
                ..self
            }.start_election();
            (after, seq![ActionView::Keep(id)] + actions)
        }
    }

    /// The state without the peer `id`.
    pub open spec fn without(self, id: Id) -> Self {
        match first_where(self.peers, is_id(id)) {
            Some(i) => ServerState { peers: self.peers.remove(i), ..self },
            None => self,
        }
    }

    /// A peer is gone. If it was the coordinator, there is an election.
    pub open spec fn lost(self, id: Id) -> (Self, Seq<ActionView>) {
        let (refreshed, actions) = self.without(id).refresh();
        let so_far = seq![ActionView::Close(id)] + actions;
        if refreshed.coordinator_id == Some(id) {
            let (after, more) = refreshed.start_election();
            (after, so_far + more)
        } else {
            (refreshed, so_far)
        }
    }

    /// The time to object to an election is over: without an objection it is won.
    pub open spec fn finish_election(self) -> (Self, Seq<ActionView>) {
        if self.election_state == ElectionState::WaitingForElection {
            self.become_coordinator()
        } else {
            (self, Seq::empty())
        }
    }

    /// A peer with a lower id that starts an election is outdone.
    pub open spec fn invited(self, sender_id: Id) -> (Self, Seq<ActionView>) {
        if sender_id < self.config.id {
            let (after, actions) = self.start_election();
            (
                after,
                seq![ActionView::Send { to: sender_id, message: MessageView::Okay }] + actions,
            )
        } else {
            (self, Seq::empty())
        }
    }

    /// A peer with a higher id objects to the election of this server.
    pub open spec fn outdone(self) -> Self {
        if self.election_state == ElectionState::WaitingForElection {
            ServerState { election_state: ElectionState::Follower, ..self }
        } else {
            self
        }
    }

    /// A peer has won an election. It is recognized, but if its id is lower, challenged.
    pub open spec fn recognize(self, sender_id: Id, majority: bool) -> (Self, Seq<ActionView>) {
        let recognized = ServerState {
            coordinator_id: Some(sender_id),
            election_state: ElectionState::Follower,
            majority,
            ..self
        };
        if sender_id < self.config.id {
            recognized.start_election()
        } else {
            (recognized, Seq::empty())
        }
    }

    /// The lease table of a peer replaces a smaller one.
    pub open spec fn with_table(self, leases: Seq<Lease>) -> Self {
        if self.service.leases.len() < leases.len() {
            ServerState { service: ServiceState { leases, ..self.service }, ..self }
        } else {
            self
        }
    }

    pub open spec fn peer_message(self, sender_id: Id, message: MessageView) -> (
        Self,
        Seq<ActionView>,
    ) {
        match message {
            MessageView::Heartbeat => (self, Seq::empty()),
            MessageView::Election => self.invited(sender_id),
            MessageView::Okay => (self.outdone(), Seq::empty()),
            MessageView::Coordinator { majority } => self.recognize(sender_id, majority),
            MessageView::Lease(lease) => (
                ServerState { service: self.service.with_lease(lease), ..self },
                Seq::empty(),
            ),
            MessageView::LeaseTable(leases) => (self.with_table(leases), Seq::empty()),
            MessageView::SetPool(pool) => (
                ServerState { service: self.service.with_pool(pool), ..self },
                Seq::empty(),
            ),
            // These belong in a handshake
            MessageView::Join(_) => (self, Seq::empty()),
            MessageView::JoinAck(_) => (self, Seq::empty()),
        }
    }

    /// A client asks for a lease. Without a majority it gets no answer.
    pub open spec fn lease_request(self, mac: MacAddr, now: Timestamp) -> (Self, Seq<ActionView>) {
        if !self.majority {
            (self, Seq::empty())
        } else {
            let (service, lease) = self.service.discover(mac, now);
            (
                ServerState { service, ..self },
                match lease {
                    Some(lease) => seq![
                        ActionView::Offer(
                            LeaseOffer { lease, subnet_mask: self.config.prefix_length },
                        ),
                    ],
                    None => Seq::empty(),
                },
            )
        }
    }

    /// A client asks to confirm a lease. Without a majority it gets no answer. All peers are told
    /// of a lease that is confirmed.
    pub open spec fn confirm_request(self, mac: MacAddr, ip: Ipv4Addr, now: Timestamp) -> (
        Self,
        Seq<ActionView>,
    ) {
        if !self.majority {
            (self, Seq::empty())
        } else {
            let (service, outcome) = self.service.commit(mac, ip, now);
            (
                ServerState { service, ..self },
                match outcome {
                    Ok(lease) => seq![ActionView::Confirm(true)] + to_each(
                        self.peers,
                        MessageView::Lease(lease),
                    ),
                    Err(_) => seq![ActionView::Confirm(false)],
                },
            )
        }
    }

    /// What follows from an event.
    pub open spec fn react(self, event: EventView, now: Timestamp) -> (Self, Seq<ActionView>) {
        match event {
            EventView::IncomingPeerConnection(joined) => self.answered(joined),
            EventView::EstablishedPeerConnection(id) => self.connected(id),
            EventView::PeerLost(id) => self.lost(id),
            EventView::ElectionTimeout => self.finish_election(),
            EventView::PeerMessage { sender_id, message } => self.peer_message(sender_id, message),
            EventView::LeaseRequest { mac_address } => self.lease_request(mac_address, now),
            EventView::ConfirmRequest { mac_address, ip } => self.confirm_request(
                mac_address,
                ip,
                now,
            ),
        }
    }

    /// Whether an event is one that the server can be in for: a peer joins only once, only
    /// connected peers with a lower id need an answer to their election, only peers with a higher
    /// id object to an election, and a pool does not end before it starts.
    pub open spec fn admits(self, event: EventView) -> bool {
        match event {
            EventView::IncomingPeerConnection(joined) => joined matches Some(id)
                ==> !self.peers.contains(id) && self.peers.len() + 1 < u32::MAX,
            EventView::EstablishedPeerConnection(_) => self.peers.len() + 1 < u32::MAX,
            EventView::PeerMessage { sender_id, message } => match message {
                MessageView::Election => sender_id < self.config.id ==> self.peers.contains(
                    sender_id,
                ),
                MessageView::Okay => sender_id > self.config.id,
                MessageView::SetPool(pool) => pool.wf(),
                _ => true,
            },
            _ => true,
        }
    }
}

/// The distributed DHCP server.
#[derive(Debug)]
pub struct Server {
    pub config: Config,
    pub coordinator_id: Option<Id>,
    pub dhcp_service: Service,
    pub peers: Vec<Id>,
    pub election_state: ElectionState,
    pub majority: bool,
    pub last_connect_attempt: ConnectAttempt,
}

impl View for Server {
    type V = ServerState;

    open spec fn view(&self) -> ServerState {
        ServerState {
            config: self.config,
            coordinator_id: self.coordinator_id,
            service: self.dhcp_service@,
            peers: self.peers@,
            election_state: self.election_state,
            majority: self.majority,
            last_connect_attempt: self.last_connect_attempt,
        }
    }
}

/// Puts the message `message` to `to` at the end of the list.
fn push_send(actions: &mut Vec<Action>, to: Id, message: Message)
    ensures
        views(final(actions)@) == views(old(actions)@).push(
            ActionView::Send { to, message: message@ },
        ),
{
    actions.push(Action::Send { to, message });
    assert(views(actions@) =~= views(old(actions)@).push(ActionView::Send { to, message: message@ })
    );
}

/// The position of `id` in `ids`.
fn position_of_id(ids: &Vec<Id>, id: Id) -> (pos: Option<usize>)
    ensures
        match pos {
            Some(i) => first_where(ids@, is_id(id)) == Some(i as int) && i < ids@.len()
                && ids@.contains(id),
            None => first_where(ids@, is_id(id)) is None && !ids@.contains(id),
        },
{
    let mut i: usize = 0;
    while i < ids.len()
        invariant
            i <= ids@.len(),
            forall|j: int| 0 <= j < i ==> !is_id(id)(#[trigger] ids@[j]),
        decreases ids@.len() - i,
    {
        if ids[i] == id {
            proof {
                lemma_first_where_is(ids@, is_id(id), i as int);
                assert(ids@[i as int] == id);
            }
            return Some(i);
        }
        i = i + 1;
    }
    proof {
        lemma_first_where_none(ids@, is_id(id));
        assert(!ids@.contains(id)) by {
            if ids@.contains(id) {
                let j = choose|j: int| 0 <= j < ids@.len() && ids@[j] == id;
                assert(!is_id(id)(ids@[j]));
            }
        }
    }
    None
}

/// What concerns all peers.
#[derive(Clone, Copy)]
enum News {
    /// This server is the coordinator.
    Coordinator { majority: bool },
    /// A lease was granted or renewed.
    Lease(Lease),
}

impl View for News {
    type V = MessageView;

    closed spec fn view(&self) -> MessageView {
        match self {
            News::Coordinator { majority } => MessageView::Coordinator { majority: *majority },
            News::Lease(lease) => MessageView::Lease(*lease),
        }
    }
}

impl News {
    fn to_message(self) -> (message: Message)
        ensures
            message@ == self@,
    {
        match self {
            News::Coordinator { majority } => Message::Coordinator { majority },
            News::Lease(lease) => Message::Lease(lease),
        }
    }
}

impl Server {
    pub open spec fn wf(self) -> bool {
        self@.wf()
    }

    /// A server that knows of no peer, no lease and no coordinator.
    pub fn start(config: Config) -> (server: Self)
        requires
            config.wf(),
        ensures
            server@ == ServerState::init(config),
            server.wf(),
    {
        let dhcp_service = Service::new(config.dhcp_pool, config.lease_time);
        let server = Server {
            config,
            coordinator_id: None,
            dhcp_service,
            peers: Vec::new(),
            election_state: ElectionState::Follower,
            majority: false,
            last_connect_attempt: ConnectAttempt::Never,
        };
        assert(server@.peers =~= Seq::empty());
        server
    }

    fn start_election(&mut self, actions: &mut Vec<Action>)
        requires
            old(self).wf(),
        ensures
            final(self)@ == old(self)@.start_election().0,
            views(final(actions)@) == views(old(actions)@) + old(self)@.start_election().1,
            final(self).wf(),
    {
        self.election_state = ElectionState::WaitingForElection;
        let ghost higher = higher_than(self.config.id);
        let mut i: usize = 0;
        assert(self.peers@.take(0) =~= Seq::empty());
        reveal(Seq::filter);
        assert(views(actions@) =~= views(old(actions)@) + to_each(
            self.peers@.take(0).filter(higher),
            MessageView::Election,
        ));
        while i < self.peers.len()
            invariant
                i <= self.peers@.len(),
                higher == higher_than(self.config.id),
                views(actions@) == views(old(actions)@) + to_each(
                    self.peers@.take(i as int).filter(higher),
                    MessageView::Election,
                ),
            decreases self.peers@.len() - i,
        {
            let peer_id: Id = self.peers[i];
            let ghost invited = self.peers@.take(i as int).filter(higher);
            proof {
                assert(self.peers@.take(i + 1) =~= self.peers@.take(i as int).push(peer_id));
                self.peers@.take(i as int).lemma_filter_push(peer_id, higher);
            }
            if peer_id > self.config.id {
                push_send(actions, peer_id, Message::Election);
                assert(to_each(invited.push(peer_id), MessageView::Election) =~= to_each(
                    invited,
                    MessageView::Election,
                ).push(ActionView::Send { to: peer_id, message: MessageView::Election }));
                assert(views(actions@) =~= views(old(actions)@) + to_each(
                    invited.push(peer_id),
                    MessageView::Election,
                ));
            }
            i = i + 1;
        }
        assert(self.peers@.take(i as int) =~= self.peers@);
        let ghost before = views(actions@);
        actions.push(Action::StartElectionTimer);
        assert(views(actions@) =~= before.push(ActionView::StartElectionTimer));
        assert(views(actions@) =~= views(old(actions)@) + old(self)@.start_election().1);
    }

    /// Sends what concerns all peers to each of them.
    fn send_to_each(&self, news: News, actions: &mut Vec<Action>)
        ensures
            views(final(actions)@) == views(old(actions)@) + to_each(self.peers@, news@),
    {
        let mut i: usize = 0;
        assert(views(actions@) =~= views(old(actions)@) + to_each(self.peers@.take(0), news@));
        while i < self.peers.len()
            invariant
                i <= self.peers@.len(),
                views(actions@) == views(old(actions)@) + to_each(self.peers@.take(i as int), news@),
            decreases self.peers@.len() - i,
        {
            push_send(actions, self.peers[i], news.to_message());
            assert(views(actions@) =~= views(old(actions)@) + to_each(
                self.peers@.take(i + 1),
                news@,
            ));
            i = i + 1;
        }
        assert(self.peers@.take(i as int) =~= self.peers@);
    }

    fn become_coordinator(&mut self, actions: &mut Vec<Action>)
        requires
            old(self)@.config.wf(),
            old(self)@.service.wf(),
            old(self)@.peers.no_duplicates(),
            old(self)@.peers.len() < u32::MAX,
        ensures
            final(self)@ == old(self)@.become_coordinator().0,
            views(final(actions)@) == views(old(actions)@) + old(self)@.become_coordinator().1,
            final(self).wf(),
    {
        self.election_state = ElectionState::Coordinator;
        self.coordinator_id = Some(self.config.id);
        self.majority = has_majority(self.peers.len(), self.config.peers.len());
        self.send_to_each(News::Coordinator { majority: self.majority }, actions);
        let ghost announced = views(actions@);

        // +1 to account for the coordinator
        let parts: u32 = self.peers.len() as u32 + 1;
        let pools = self.config.dhcp_pool.divide(parts);

        // Set own pool
        self.dhcp_service.set_pool(pools[0]);

        let ghost shares = self@.shares();
        let mut i: usize = 0;
        assert(views(actions@) =~= announced + shares.take(0));
        while i < self.peers.len()
            invariant
                i <= self.peers@.len(),
                parts == self.peers@.len() + 1,
                pools@.len() == parts,
                forall|j: int|
                    0 <= j < parts ==> #[trigger] pools@[j] == self.config.dhcp_pool.part(
                        parts as int,
                        j,
                    ),
                shares == self@.shares(),
                views(actions@) == announced + shares.take(i as int),
            decreases self.peers@.len() - i,
        {
            push_send(actions, self.peers[i], Message::SetPool(pools[i + 1]));
            assert(views(actions@) =~= announced + shares.take(i + 1));
            i = i + 1;
        }
        assert(shares.take(i as int) =~= shares);
        assert(shares =~= old(self)@.shares());
        assert(views(actions@) =~= views(old(actions)@) + old(self)@.become_coordinator().1);
    }

    /// A coordinator divides the addresses anew.
    fn refresh(&mut self, actions: &mut Vec<Action>)
        requires
            old(self).wf(),
        ensures
            final(self)@ == old(self)@.refresh().0,
            views(final(actions)@) == views(old(actions)@) + old(self)@.refresh().1,
            final(self).wf(),
    {
        if self.election_state == ElectionState::Coordinator {
            self.become_coordinator(actions);
        } else {
            assert(views(actions@) =~= views(old(actions)@) + Seq::empty());
        }
    }

    /// What to answer to the first message of a peer that opened a connection, and the id of that
    /// peer.
    pub fn answer_handshake(&self, message: Message) -> (reply: Result<
        (Id, Message),
        HandshakeError,
    >)
        ensures
            reply == Peer::handshake_answer(self.config.id, message),
    {
        match message {
            Message::Join(peer_id) => Ok((peer_id, Message::JoinAck(self.config.id))),
            message => Err(HandshakeError::NoJoin(message)),
        }
    }

    /// Adds a peer, unless there is a connection to it already.
    fn add_peer(&mut self, peer_id: Id) -> (added: bool)
        requires
            old(self).wf(),
            old(self)@.peers.len() + 1 < u32::MAX,
        ensures
            added == !old(self)@.peers.contains(peer_id),
            final(self)@ == (if added {
                ServerState { peers: old(self)@.peers.push(peer_id), ..old(self)@ }
            } else {
                old(self)@
            }),
            final(self).wf(),
    {
        // This should prevent us from having simultaneous connections open
        if position_of_id(&self.peers, peer_id).is_some() {
            return false;
        }
        self.peers.push(peer_id);
        true
    }

    fn handle_incoming_peer(&mut self, joined: Option<Id>, actions: &mut Vec<Action>)
        requires
            old(self).wf(),
            old(self)@.admits(EventView::IncomingPeerConnection(joined)),
        ensures
            final(self)@ == old(self)@.answered(joined).0,
            views(final(actions)@) == views(old(actions)@) + old(self)@.answered(joined).1,
            final(self).wf(),
    {
        if let Some(peer_id) = joined {
            self.add_peer(peer_id);
            actions.push(Action::Keep(peer_id));
            assert(views(actions@) =~= views(old(actions)@).push(ActionView::Keep(peer_id)));
            if !self.dhcp_service.leases.is_empty() {
                let leases = vstd::slice::slice_to_vec(self.dhcp_service.leases.as_slice());
                push_send(actions, peer_id, Message::LeaseTable(leases));
            }
        }
        // New peer joined, we want to inform it of the coordinator and reallocate the DHCP pool
        self.refresh(actions);
        assert(views(actions@) =~= views(old(actions)@) + old(self)@.answered(joined).1);
    }

    fn handle_established_peer(&mut self, peer_id: Id, actions: &mut Vec<Action>)
        requires
            old(self).wf(),
            old(self)@.peers.len() + 1 < u32::MAX,
        ensures
            final(self)@ == old(self)@.connected(peer_id).0,
            views(final(actions)@) == views(old(actions)@) + old(self)@.connected(peer_id).1,
            final(self).wf(),
    {
        if self.add_peer(peer_id) {
            actions.push(Action::Keep(peer_id));
            assert(views(actions@) =~= views(old(actions)@).push(ActionView::Keep(peer_id)));
            // Need to initiate election, cluster changed
            self.start_election(actions);
        } else {
            actions.push(Action::Discard(peer_id));
        }
        assert(views(actions@) =~= views(old(actions)@) + old(self)@.connected(peer_id).1);
    }

    fn remove_peer(&mut self, peer_id: Id, actions: &mut Vec<Action>)
        requires
            old(self).wf(),
        ensures
            final(self)@ == old(self)@.lost(peer_id).0,
            views(final(actions)@) == views(old(actions)@) + old(self)@.lost(peer_id).1,
            final(self).wf(),
    {
        if let Some(i) = position_of_id(&self.peers, peer_id) {
            self.peers.remove(i);
        }
        assert(self@ == old(self)@.without(peer_id));
        actions.push(Action::Close(peer_id));
        assert(views(actions@) =~= views(old(actions)@).push(ActionView::Close(peer_id)));

        // Peer left, we want to confirm the coordinator and reallocate the DHCP pool
        self.refresh(actions);

        let was_coordinator = match self.coordinator_id {
            Some(id) => id == peer_id,
            None => false,
        };
        if was_coordinator {
            self.start_election(actions);
        }
        assert(views(actions@) =~= views(old(actions)@) + old(self)@.lost(peer_id).1);
    }

    /// Become leader and tell all peers so, if nothing has reset the server to a follower.
    fn finish_election(&mut self, actions: &mut Vec<Action>)
        requires
            old(self).wf(),
        ensures
            final(self)@ == old(self)@.finish_election().0,
            views(final(actions)@) == views(old(actions)@) + old(self)@.finish_election().1,
            final(self).wf(),
    {
        match self.election_state {
            ElectionState::WaitingForElection => {
                self.become_coordinator(actions);
            },
            ElectionState::Coordinator => {},
            ElectionState::Follower => {},
        }
        assert(views(actions@) =~= views(old(actions)@) + old(self)@.finish_election().1);
    }

    fn handle_election(&mut self, sender_id: Id, actions: &mut Vec<Action>)
        requires
            old(self).wf(),
        ensures
            final(self)@ == old(self)@.invited(sender_id).0,
            views(final(actions)@) == views(old(actions)@) + old(self)@.invited(sender_id).1,
            final(self).wf(),
    {
        if sender_id < self.config.id {
            push_send(actions, sender_id, Message::Okay);
            self.start_election(actions);
        }
        assert(views(actions@) =~= views(old(actions)@) + old(self)@.invited(sender_id).1);
    }

    fn handle_okay(&mut self)
        requires
            old(self).wf(),
        ensures
            final(self)@ == old(self)@.outdone(),
            final(self).wf(),
    {
        if self.election_state == ElectionState::WaitingForElection {
            self.election_state = ElectionState::Follower;
        }
    }

    fn handle_coordinator(&mut self, sender_id: Id, majority: bool, actions: &mut Vec<Action>)
        requires
            old(self).wf(),
        ensures
            final(self)@ == old(self)@.recognize(sender_id, majority).0,
            views(final(actions)@) == views(old(actions)@) + old(self)@.recognize(
                sender_id,
                majority,
            ).1,
            final(self).wf(),
    {
        self.coordinator_id = Some(sender_id);
        self.election_state = ElectionState::Follower;
        self.majority = majority;
        if sender_id < self.config.id {
            self.start_election(actions);
        }
        assert(views(actions@) =~= views(old(actions)@) + old(self)@.recognize(
            sender_id,
            majority,
        ).1);
    }

    fn handle_lease_table(&mut self, leases: Vec<Lease>)
        requires
            old(self).wf(),
        ensures
            final(self)@ == old(self)@.with_table(leases@),
            final(self).wf(),
    {
        if self.dhcp_service.leases.len() < leases.len() {
            self.dhcp_service.leases = leases;
        }
    }

    fn handle_peer_message(&mut self, sender_id: Id, message: Message, actions: &mut Vec<Action>)
        requires
            old(self).wf(),
            old(self)@.admits(EventView::PeerMessage { sender_id, message: message@ }),
        ensures
            final(self)@ == old(self)@.peer_message(sender_id, message@).0,
            views(final(actions)@) == views(old(actions)@) + old(self)@.peer_message(
                sender_id,
                message@,
            ).1,
            final(self).wf(),
    {
        let ghost said = message@;
        match message {
            Message::Heartbeat => {},
            Message::Election => self.handle_election(sender_id, actions),
            Message::Okay => self.handle_okay(),
            Message::Coordinator { majority } => self.handle_coordinator(
                sender_id,
                majority,
                actions,
            ),
            Message::Lease(lease) => self.dhcp_service.add_lease(lease),
            Message::LeaseTable(leases) => self.handle_lease_table(leases),
            Message::SetPool(pool) => self.dhcp_service.set_pool(pool),
            Message::Join(_) => {},
            Message::JoinAck(_) => {},
        }
        assert(views(actions@) =~= views(old(actions)@) + old(self)@.peer_message(
            sender_id,
            said,
        ).1);
    }

    fn handle_lease_request(
        &mut self,
        mac_address: MacAddr,
        now: Timestamp,
        actions: &mut Vec<Action>,
    )
        requires
            old(self).wf(),
            now.wf(),
        ensures
            final(self)@ == old(self)@.lease_request(mac_address, now).0,
            views(final(actions)@) == views(old(actions)@) + old(self)@.lease_request(
                mac_address,
                now,
            ).1,
            final(self).wf(),
    {
        if self.majority {
            if let Some(lease) = self.dhcp_service.discover_lease_at(mac_address, now) {
                let offer = LeaseOffer { lease, subnet_mask: self.config.prefix_length };
                actions.push(Action::Offer(offer));
            }
        }
        assert(views(actions@) =~= views(old(actions)@) + old(self)@.lease_request(
            mac_address,
            now,
        ).1);
    }

    fn handle_confirm_request(
        &mut self,
        mac_address: MacAddr,
        ip: Ipv4Addr,
        now: Timestamp,
        actions: &mut Vec<Action>,
    )
        requires
            old(self).wf(),
            now.wf(),
        ensures
            final(self)@ == old(self)@.confirm_request(mac_address, ip, now).0,
            views(final(actions)@) == views(old(actions)@) + old(self)@.confirm_request(
                mac_address,
                ip,
                now,
            ).1,
            final(self).wf(),
    {
        if self.majority {
            match self.dhcp_service.commit_lease_at(mac_address, ip, now) {
                Ok(lease) => {
                    actions.push(Action::Confirm(true));
                    assert(views(actions@) =~= views(old(actions)@).push(
                        ActionView::Confirm(true),
                    ));
                    self.send_to_each(News::Lease(lease), actions);
                },
                Err(_) => {
                    actions.push(Action::Confirm(false));
                },
            }
        }
        assert(views(actions@) =~= views(old(actions)@) + old(self)@.confirm_request(
            mac_address,
            ip,
            now,
        ).1);
    }

    /// Works out what follows from an event at the time `now`.
    pub fn handle_event(&mut self, event: Event, now: Timestamp) -> (actions: Vec<Action>)
        requires
            old(self).wf(),
            old(self)@.admits(event@),
            now.wf(),
        ensures
            (final(self)@, views(actions@)) == old(self)@.react(event@, now),
            final(self).wf(),
    {
        let ghost reported = event@;
        let mut actions: Vec<Action> = Vec::new();
        assert(views(actions@) =~= Seq::empty());
        match event {
            Event::IncomingPeerConnection(joined) => self.handle_incoming_peer(
                joined,
                &mut actions,
            ),
            Event::EstablishedPeerConnection(success) => self.handle_established_peer(
                success.peer_id,
                &mut actions,
            ),
            Event::PeerLost(peer_id) => self.remove_peer(peer_id, &mut actions),
            Event::ElectionTimeout => self.finish_election(&mut actions),
            Event::PeerMessage { sender_id, message } => self.handle_peer_message(
                sender_id,
                message,
                &mut actions,
            ),
            Event::LeaseRequest { mac_address } => self.handle_lease_request(
                mac_address,
                now,
                &mut actions,
            ),
            Event::ConfirmRequest { mac_address, ip } => self.handle_confirm_request(
                mac_address,
                ip,
                now,
                &mut actions,
            ),
        }
        assert(views(actions@) =~= old(self)@.react(reported, now).1);
        actions
    }

    /// Whether it is time to try and connect to peers again.
    pub fn is_connect_due(&self, now: Timestamp) -> (due: bool)
        ensures
            due == self@.connect_due(now),
    {
        match self.last_connect_attempt {
            ConnectAttempt::Never => true,
            ConnectAttempt::Running => false,
            ConnectAttempt::Finished(at) => match now.duration_since(at) {
                Some(elapsed) => elapsed.nanos > self.config.heartbeat_timeout.nanos,
                None => false,
            },
        }
    }

    /// Which configured peers to connect to now, by their position in the configuration.
    pub fn attempt_connect(&mut self, now: Timestamp) -> (targets: Vec<usize>)
        requires
            old(self).wf(),
        ensures
            final(self)@ == (ServerState {
                last_connect_attempt: ConnectAttempt::Finished(now),
                ..old(self)@
            }),
            targets@ == old(self)@.wanted_peers(old(self)@.config.peers@.len()),
            final(self).wf(),
    {
        self.last_connect_attempt = ConnectAttempt::Running;
        let mut targets: Vec<usize> = Vec::new();
        let mut i: usize = 0;
        while i < self.config.peers.len()
            invariant
                i <= self.config.peers@.len(),
                self@ == (ServerState {
                    last_connect_attempt: ConnectAttempt::Running,
                    ..old(self)@
                }),
                targets@ == old(self)@.wanted_peers(i as nat),
            decreases self.config.peers@.len() - i,
        {
            // Only start connections with peers we don't have a connection with
            // Always have the higher ID start connections to avoid race conditions with concurrent
            // handshakes
            let peer_id: Id = self.config.peers[i].id;
            if position_of_id(&self.peers, peer_id).is_none() && self.config.id > peer_id {
                targets.push(i);
            }
            i = i + 1;
        }
        self.last_connect_attempt = ConnectAttempt::Finished(now);
        targets
    }

    /// Whether the server can be in for `event`.
    pub fn is_admitted(&self, event: &Event) -> (admitted: bool)
        ensures
            admitted == self@.admits(event@),
    {
        match event {
            Event::IncomingPeerConnection(Some(peer_id)) => position_of_id(
                &self.peers,
                *peer_id,
            ).is_none() && self.peers.len() < u32::MAX as usize - 1,
            Event::EstablishedPeerConnection(_) => self.peers.len() < u32::MAX as usize - 1,
            Event::PeerMessage { sender_id, message } => match message {
                Message::Election => *sender_id >= self.config.id || position_of_id(
                    &self.peers,
                    *sender_id,
                ).is_some(),
                Message::Okay => *sender_id > self.config.id,
                Message::SetPool(pool) => pool.start <= pool.end,
                _ => true,
            },
            _ => true,
        }
    }
}

} // verus!
