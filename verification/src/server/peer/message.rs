//! The protocol between the servers of a cluster.
//!
//! The servers pass messages, and send what concerns all to each of their peers.

use crate::dhcp::{Ipv4Range, Lease};
use crate::server::peer::Id;
use vstd::prelude::*;

verus! {

/// A message from one server to another.
#[derive(Debug, PartialEq, Eq)]
pub enum Message {
    /// The first message of the server that opens a connection, with its id.
    Join(Id),
    /// The answer to a `Join`, with the id of the server that answers.
    JoinAck(Id),
    /// Sent when there was nothing else to send for a while.
    Heartbeat,
    /// Starts an election; it goes to the servers with higher ids.
    Election,
    /// The answer to an `Election`: the sender stays in the race.
    Okay,
    /// The sender has won the election.
    Coordinator { majority: bool },
    /// A lease was granted or renewed.
    Lease(Lease),
    /// All leases that the sender knows of.
    LeaseTable(Vec<Lease>),
    /// From which addresses to make offers.
    SetPool(Ipv4Range),
}

/// What a [`Message`] says.
pub enum MessageView {
    Join(Id),
    JoinAck(Id),
    Heartbeat,
    Election,
    Okay,
    Coordinator { majority: bool },
    Lease(Lease),
    LeaseTable(Seq<Lease>),
    SetPool(Ipv4Range),
}

impl View for Message {
    type V = MessageView;

    open spec fn view(&self) -> MessageView {
        match self {
            Message::Join(id) => MessageView::Join(*id),
            Message::JoinAck(id) => MessageView::JoinAck(*id),
            Message::Heartbeat => MessageView::Heartbeat,
            Message::Election => MessageView::Election,
            Message::Okay => MessageView::Okay,
            Message::Coordinator { majority } => MessageView::Coordinator { majority: *majority },
            Message::Lease(lease) => MessageView::Lease(*lease),
            Message::LeaseTable(leases) => MessageView::LeaseTable(leases@),
            Message::SetPool(pool) => MessageView::SetPool(*pool),
        }
    }
}

} // verus!
