//! What a server says about the events that it reacts to.

use crate::console::Level;
use crate::dhcp::{CommitError, Ipv4Range};
use crate::net::Ipv4Addr;
use crate::protocol::MacAddr;
use crate::server::peer::message::{Message, MessageView};
use crate::server::peer::Id;
use crate::server::{
    has_majority, is_majority, position_of_id, ElectionState, Event, EventView, Server,
    ServerState,
};
use crate::text::{decimal, push_decimal};
use crate::time::Timestamp;
use vstd::prelude::*;

verus! {

/// A message to whoever runs the server.
#[derive(Debug, PartialEq, Eq)]
pub struct Entry {
    pub level: Level,
    pub text: String,
}

/// What an [`Entry`] says.
pub struct EntryView {
    pub level: Level,
    pub text: Seq<char>,
}

impl View for Entry {
    type V = EntryView;

    open spec fn view(&self) -> EntryView {
        EntryView { level: self.level, text: self.text@ }
    }
}

/// What several entries say.
pub open spec fn entry_views(entries: Seq<Entry>) -> Seq<EntryView> {
    entries.map_values(|entry: Entry| entry@)
}

pub open spec fn debug(text: Seq<char>) -> EntryView {
    EntryView { level: Level::Debug, text }
}

pub open spec fn info(text: Seq<char>) -> EntryView {
    EntryView { level: Level::Info, text }
}

pub open spec fn warning(text: Seq<char>) -> EntryView {
    EntryView { level: Level::Warning, text }
}

pub open spec fn error(text: Seq<char>) -> EntryView {
    EntryView { level: Level::Error, text }
}

/// A majority is reached or lost.
pub open spec fn majority_entries(before: bool, after: bool) -> Seq<EntryView> {
    if before == after {
        Seq::empty()
    } else if after {
        seq![info("Reached majority"@)]
    } else {
        seq![info("Lost majority"@)]
    }
}

/// Another pool is served.
pub open spec fn pool_entry(pool: Ipv4Range) -> EntryView {
    info("Set pool to "@ + pool.text())
}

impl ServerState {
    /// What a server says that leads the cluster with so many peers.
    pub open spec fn coordinator_entries(self, peers: nat) -> Seq<EntryView> {
        majority_entries(self.majority, is_majority(peers, self.config.peers@.len())).push(
            pool_entry(self.config.dhcp_pool.part((peers + 1) as int, 0)),
        )
    }

    /// What a server says when it has so many peers now.
    pub open spec fn refresh_entries(self, peers: nat) -> Seq<EntryView> {
        if self.election_state == ElectionState::Coordinator {
            self.coordinator_entries(peers)
        } else {
            Seq::empty()
        }
    }

    /// What a server says about a message of a peer.
    pub open spec fn message_entries(self, sender_id: Id, message: MessageView) -> Seq<EntryView> {
        let sender = decimal(sender_id as nat);
        match message {
            MessageView::Heartbeat => seq![debug("Received heartbeat from "@ + sender)],
            MessageView::Election => {
                let invited = seq![info("Peer "@ + sender + " invited Election"@)];
                if sender_id < self.config.id {
                    invited.push(info("Received Election from lower id"@))
                } else {
                    invited
                }
            },
            MessageView::Okay => seq![
                info("Peer "@ + sender + ": Okay, "@),
                info(
                    if self.election_state == ElectionState::WaitingForElection {
                        "Stepping down to Follower"@
                    } else {
                        "Already stepped down"@
                    },
                ),
            ],
            MessageView::Coordinator { majority } => seq![
                info("Recognizing "@ + sender + " as Coordinator"@),
            ] + majority_entries(self.majority, majority),
            MessageView::Lease(_) => Seq::empty(),
            MessageView::LeaseTable(leases) => if self.service.leases.len() < leases.len() {
                seq![debug("Updating leases"@)]
            } else {
                Seq::empty()
            },
            MessageView::SetPool(pool) => seq![pool_entry(pool)],
            MessageView::Join(id) => seq![
                warning(
                    "Server received unexpected Join("@ + decimal(id as nat) + ") from peer "@
                        + sender,
                ),
            ],
            MessageView::JoinAck(id) => seq![
                warning(
                    "Server received unexpected JoinAck("@ + decimal(id as nat) + ") from peer "@
                        + sender,
                ),
            ],
        }
    }

    /// What a server says about an event.
    pub open spec fn journal(self, event: EventView) -> Seq<EntryView> {
        let peers = self.peers.len();
        match event {
            EventView::IncomingPeerConnection(Some(id)) => seq![
                info("Peer "@ + decimal(id as nat) + " joined"@),
                debug("Added peer "@ + decimal(id as nat)),
            ] + self.refresh_entries(peers + 1),
            EventView::IncomingPeerConnection(None) => self.refresh_entries(peers),
            EventView::EstablishedPeerConnection(id) => seq![
                if self.peers.contains(id) {
                    debug(
                        "Tried to add peer "@ + decimal(id as nat)
                            + ", but already had a connection"@,
                    )
                } else {
                    debug("Added peer "@ + decimal(id as nat))
                },
            ],
            EventView::PeerLost(id) => self.refresh_entries(self.without(id).peers.len()),
            EventView::ElectionTimeout => match self.election_state {
                ElectionState::WaitingForElection => self.coordinator_entries(peers),
                ElectionState::Coordinator => seq![
                    info("Already Coordinator when election ended"@),
                ],
                ElectionState::Follower => seq![info("Received OK during election"@)],
            },
            EventView::PeerMessage { sender_id, message } => self.message_entries(
                sender_id,
                message,
            ),
            EventView::LeaseRequest { .. } => Seq::empty(),
            EventView::ConfirmRequest { mac_address, ip } => if self.majority
                && !self.service.knows(mac_address, ip) {
                seq![
                    warning("Can't confirm lease"@),
                    error(
                        (CommitError::LeaseNotFound { mac_addr: mac_address, ip_addr: ip }).text(),
                    ),
                ]
            } else {
                Seq::empty()
            },
        }
    }
}

/// Puts an entry at the end.
fn push_entry(entries: &mut Vec<Entry>, level: Level, text: String)
    ensures
        entry_views(final(entries)@) == entry_views(old(entries)@).push(
            EntryView { level, text: text@ },
        ),
{
    entries.push(Entry { level, text });
    assert(entry_views(entries@) =~= entry_views(old(entries)@).push(
        EntryView { level, text: text@ },
    ));
}

/// An id between two texts.
fn around(before: &str, id: Id, after: &str) -> (text: String)
    ensures
        text@ == before@ + decimal(id as nat) + after@,
{
    let mut text = String::new();
    text.append(before);
    push_decimal(&mut text, id as u64);
    text.append(after);
    assert(text@ =~= before@ + decimal(id as nat) + after@);
    text
}

/// A text with an id at its end.
fn ending(before: &str, id: Id) -> (text: String)
    ensures
        text@ == before@ + decimal(id as nat),
{
    let mut text = String::new();
    text.append(before);
    push_decimal(&mut text, id as u64);
    assert(text@ =~= before@ + decimal(id as nat));
    text
}

/// Puts down that a majority is reached or lost.
fn push_majority(entries: &mut Vec<Entry>, before: bool, after: bool)
    ensures
        entry_views(final(entries)@) == entry_views(old(entries)@) + majority_entries(
            before,
            after,
        ),
{
    if before != after {
        let text = if after {
            "Reached majority"
        } else {
            "Lost majority"
        };
        push_entry(entries, Level::Info, text.to_owned());
    }
    assert(entry_views(entries@) =~= entry_views(old(entries)@) + majority_entries(before, after));
}

/// Puts down that another pool is served.
fn push_pool(entries: &mut Vec<Entry>, pool: &Ipv4Range)
    ensures
        entry_views(final(entries)@) == entry_views(old(entries)@).push(pool_entry(*pool)),
{
    let mut text = String::new();
    text.append("Set pool to ");
    pool.push_text(&mut text);
    assert(text@ =~= "Set pool to "@ + pool.text());
    push_entry(entries, Level::Info, text);
}

/// Puts down a message that belongs in a handshake.
fn push_unexpected(entries: &mut Vec<Entry>, name: &str, id: Id, sender_id: Id)
    ensures
        entry_views(final(entries)@) == entry_views(old(entries)@).push(
            warning(
                name@ + decimal(id as nat) + ") from peer "@ + decimal(sender_id as nat),
            ),
        ),
{
    let mut text = around(name, id, ") from peer ");
    push_decimal(&mut text, sender_id as u64);
    push_entry(entries, Level::Warning, text);
}

impl Server {
    fn push_coordinator_entries(&self, peers: usize, entries: &mut Vec<Entry>)
        requires
            self@.config.wf(),
            peers < u32::MAX,
        ensures
            entry_views(final(entries)@) == entry_views(old(entries)@) + self@.coordinator_entries(
                peers as nat,
            ),
    {
        let majority = has_majority(peers, self.config.peers.len());
        push_majority(entries, self.majority, majority);
        let pools = self.config.dhcp_pool.divide(peers as u32 + 1);
        push_pool(entries, &pools[0]);
        assert(entry_views(entries@) =~= entry_views(old(entries)@) + self@.coordinator_entries(
            peers as nat,
        ));
    }

    fn push_refresh_entries(&self, peers: usize, entries: &mut Vec<Entry>)
        requires
            self@.config.wf(),
            peers < u32::MAX,
        ensures
            entry_views(final(entries)@) == entry_views(old(entries)@) + self@.refresh_entries(
                peers as nat,
            ),
    {
        if self.election_state == ElectionState::Coordinator {
            self.push_coordinator_entries(peers, entries);
        }
        assert(entry_views(entries@) =~= entry_views(old(entries)@) + self@.refresh_entries(
            peers as nat,
        ));
    }

    fn push_message_entries(&self, sender_id: Id, message: &Message, entries: &mut Vec<Entry>)
        ensures
            entry_views(final(entries)@) == entry_views(old(entries)@) + self@.message_entries(
                sender_id,
                message@,
            ),
    {
        match message {
            Message::Heartbeat => push_entry(
                entries,
                Level::Debug,
                ending("Received heartbeat from ", sender_id),
            ),
            Message::Election => {
                push_entry(entries, Level::Info, around("Peer ", sender_id, " invited Election"));
                if sender_id < self.config.id {
                    push_entry(
                        entries,
                        Level::Info,
                        "Received Election from lower id".to_owned(),
                    );
                }
            },
            Message::Okay => {
                push_entry(entries, Level::Info, around("Peer ", sender_id, ": Okay, "));
                let text = if self.election_state == ElectionState::WaitingForElection {
                    "Stepping down to Follower"
                } else {
                    "Already stepped down"
                };
                push_entry(entries, Level::Info, text.to_owned());
            },
            Message::Coordinator { majority } => {
                push_entry(
                    entries,
                    Level::Info,
                    around("Recognizing ", sender_id, " as Coordinator"),
                );
                push_majority(entries, self.majority, *majority);
            },
            Message::Lease(_) => {},
            Message::LeaseTable(leases) => {
                if self.dhcp_service.leases.len() < leases.len() {
                    push_entry(entries, Level::Debug, "Updating leases".to_owned());
                }
            },
            Message::SetPool(pool) => push_pool(entries, pool),
            Message::Join(id) => push_unexpected(
                entries,
                "Server received unexpected Join(",
                *id,
                sender_id,
            ),
            Message::JoinAck(id) => push_unexpected(
                entries,
                "Server received unexpected JoinAck(",
                *id,
                sender_id,
            ),
        }
        assert(entry_views(entries@) =~= entry_views(old(entries)@) + self@.message_entries(
            sender_id,
            message@,
        ));
    }

    /// What there is to say about an event that the server is about to react to.
    pub fn messages(&self, event: &Event) -> (entries: Vec<Entry>)
        requires
            self.wf(),
            self@.admits(event@),
        ensures
            entry_views(entries@) == self@.journal(event@),
    {
        let mut entries: Vec<Entry> = Vec::new();
        assert(entry_views(entries@) =~= Seq::empty());
        let peers: usize = self.peers.len();
        match event {
            Event::IncomingPeerConnection(Some(id)) => {
                push_entry(&mut entries, Level::Info, around("Peer ", *id, " joined"));
                push_entry(&mut entries, Level::Debug, ending("Added peer ", *id));
                self.push_refresh_entries(peers + 1, &mut entries);
            },
            Event::IncomingPeerConnection(None) => self.push_refresh_entries(peers, &mut entries),
            Event::EstablishedPeerConnection(success) => {
                if position_of_id(&self.peers, success.peer_id).is_some() {
                    push_entry(
                        &mut entries,
                        Level::Debug,
                        around(
                            "Tried to add peer ",
                            success.peer_id,
                            ", but already had a connection",
                        ),
                    );
                } else {
                    push_entry(&mut entries, Level::Debug, ending("Added peer ", success.peer_id));
                }
            },
            Event::PeerLost(id) => {
                let left: usize = if position_of_id(&self.peers, *id).is_some() {
                    peers - 1
                } else {
                    peers
                };
                self.push_refresh_entries(left, &mut entries);
            },
            Event::ElectionTimeout => match self.election_state {
                ElectionState::WaitingForElection => self.push_coordinator_entries(
                    peers,
                    &mut entries,
                ),
                ElectionState::Coordinator => push_entry(
                    &mut entries,
                    Level::Info,
                    "Already Coordinator when election ended".to_owned(),
                ),
                ElectionState::Follower => push_entry(
                    &mut entries,
                    Level::Info,
                    "Received OK during election".to_owned(),
                ),
            },
            Event::PeerMessage { sender_id, message } => self.push_message_entries(
                *sender_id,
                message,
                &mut entries,
            ),
            Event::LeaseRequest { .. } => {},
            Event::ConfirmRequest { mac_address, ip } => {
                if self.majority && !self.dhcp_service.knows(*mac_address, *ip) {
                    let e = CommitError::LeaseNotFound { mac_addr: *mac_address, ip_addr: *ip };
                    push_entry(&mut entries, Level::Warning, "Can't confirm lease".to_owned());
                    push_entry(&mut entries, Level::Error, e.to_text());
                }
            },
        }
        assert(entry_views(entries@) =~= self@.journal(event@));
        entries
    }
}

/// Whoever runs the server is told when a majority is reached or lost.
pub proof fn law_majority_changes_are_told(state: ServerState, event: EventView, now: Timestamp)
    requires
        state.wf(),
        state.admits(event),
    ensures
        ({
            let after = state.react(event, now).0;
            after.majority != state.majority ==> state.journal(event).contains(
                info(
                    if after.majority {
                        "Reached majority"@
                    } else {
                        "Lost majority"@
                    },
                ),
            )
        }),
{
    let after = state.react(event, now).0;
    let journal = state.journal(event);
    if after.majority != state.majority {
        match event {
            EventView::IncomingPeerConnection(joined) => {
                if joined is Some {
                    assert(journal[2] == majority_entries(state.majority, after.majority)[0]);
                } else {
                    assert(journal[0] == majority_entries(state.majority, after.majority)[0]);
                }
            },
            EventView::PeerMessage { sender_id, message } => {
                assert(journal[1] == majority_entries(state.majority, after.majority)[0]);
            },
            _ => {
                assert(journal[0] == majority_entries(state.majority, after.majority)[0]);
            },
        }
    }
}

/// Whoever runs the server is told when it serves another pool.
pub proof fn law_new_pools_are_told(state: ServerState, event: EventView, now: Timestamp)
    requires
        state.wf(),
        state.admits(event),
    ensures
        ({
            let after = state.react(event, now).0;
            after.service.pool != state.service.pool ==> state.journal(event).contains(
                pool_entry(after.service.pool),
            )
        }),
{
    let after = state.react(event, now).0;
    let journal = state.journal(event);
    if after.service.pool != state.service.pool {
        assert(journal.last() == pool_entry(after.service.pool));
    }
}

/// Whoever runs the server is told of each lease that it denies, and of no other one.
pub proof fn law_denials_are_told(
    state: ServerState,
    mac_address: MacAddr,
    ip: Ipv4Addr,
    now: Timestamp,
)
    requires
        state.majority,
    ensures
        ({
            let journal = state.journal(EventView::ConfirmRequest { mac_address, ip });
            match state.service.commit(mac_address, ip, now).1 {
                Ok(_) => journal.len() == 0,
                Err(e) => journal == seq![warning("Can't confirm lease"@), error(e.text())],
            }
        }),
{
}

/// What is told of connections: a peer that joins, a peer that is added, and one that there is a
/// connection to already.
pub proof fn law_connections_are_told(state: ServerState, id: Id)
    ensures
        ({
            let joined = state.journal(EventView::IncomingPeerConnection(Some(id)));
            let opened = state.journal(EventView::EstablishedPeerConnection(id));
            &&& joined[0].text == "Peer "@ + decimal(id as nat) + " joined"@
            &&& joined[0].level == Level::Info
            &&& joined[1].text == "Added peer "@ + decimal(id as nat)
            &&& joined[1].level == Level::Debug
            &&& opened.len() == 1
            &&& opened[0].level == Level::Debug
            &&& opened[0].text == (if state.peers.contains(id) {
                "Tried to add peer "@ + decimal(id as nat) + ", but already had a connection"@
            } else {
                "Added peer "@ + decimal(id as nat)
            })
        }),
{
}

/// An invitation to an election is told, and that it comes from a lower id, if it does.
pub proof fn law_invitations_are_told(state: ServerState, sender_id: Id)
    ensures
        ({
            let told = state.journal(
                EventView::PeerMessage { sender_id, message: MessageView::Election },
            );
            &&& told[0].text == "Peer "@ + decimal(sender_id as nat) + " invited Election"@
            &&& sender_id < state.config.id ==> told.len() == 2 && told[1].text
                == "Received Election from lower id"@
            &&& sender_id >= state.config.id ==> told.len() == 1
        }),
{
}

/// An objection to an election is told, and whether the server steps down for it.
pub proof fn law_objections_are_told(state: ServerState, sender_id: Id)
    ensures
        ({
            let told = state.journal(
                EventView::PeerMessage { sender_id, message: MessageView::Okay },
            );
            &&& told.len() == 2
            &&& told[0].text == "Peer "@ + decimal(sender_id as nat) + ": Okay, "@
            &&& told[1].text == (if state.election_state == ElectionState::WaitingForElection {
                "Stepping down to Follower"@
            } else {
                "Already stepped down"@
            })
        }),
{
}

/// It is told who is recognized as the coordinator.
pub proof fn law_coordinators_are_told(state: ServerState, sender_id: Id, majority: bool)
    ensures
        state.journal(
            EventView::PeerMessage { sender_id, message: MessageView::Coordinator { majority } },
        )[0].text == "Recognizing "@ + decimal(sender_id as nat) + " as Coordinator"@,
{
}

} // verus!
