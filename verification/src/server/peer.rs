//! Connections to the other servers of the cluster.
//!
//! A connection begins with a handshake: the server that opened it sends [`Message::Join`], the
//! other one answers with [`Message::JoinAck`]. After that one thread receives and another one
//! sends.

pub mod message;

use crate::config;
use crate::time::{Duration, MAX_NANOS};
use message::Message;
use vstd::prelude::*;

verus! {

/// Identifies a server of the cluster.
pub type Id = u32;

/// After how many missed heartbeats a peer is given up.
pub const MISSED_HEARTBEATS: u128 = 3;

/// Why a handshake with a peer failed.
#[derive(Debug, PartialEq, Eq)]
pub enum HandshakeError {
    /// The peer answered with something else than a `JoinAck`.
    NoJoinAck(Message),
    /// The peer began with something else than a `Join`.
    NoJoin(Message),
    /// No connection could be made.
    Connect { peer_id: Id },
    /// The peer's name stands for no address.
    Unreachable { peer_id: Id, name: String },
    /// The peer has another id than the one in the configuration.
    IdMismatch { expected: Id, received: Id },
}

/// A handshake with a peer succeeded.
#[derive(Debug, PartialEq, Eq)]
pub struct JoinSuccess {
    pub peer_id: Id,
}

/// What to do next to reach a peer.
#[derive(Debug, PartialEq, Eq)]
pub enum ConnectStep {
    /// Open a connection to the address at this position.
    Dial(usize),
    /// Start the handshake on the connection.
    Handshake,
    /// Give up.
    Failed(HandshakeError),
}

/// What the sending thread waited for.
#[derive(Debug, PartialEq, Eq)]
pub enum Outgoing {
    /// There is a message to send.
    Message(Message),
    /// There was none for as long as the heartbeat timeout.
    Timeout,
    /// The connection is to be closed.
    Disconnected,
}

/// The position at which trying the addresses ends: the first one from `from` on that `works`, if
/// there is one.
pub open spec fn dialed(from: int, addresses: int, works: spec_fn(int) -> bool) -> Option<int>
    decreases addresses - from,
{
    if from >= addresses {
        None
    } else if works(from) {
        Some(from)
    } else {
        dialed(from + 1, addresses, works)
    }
}

/// A peer.
#[derive(Debug, Clone, Copy, PartialEq, Eq, Structural)]
pub struct Peer {
    pub id: Id,
}

impl Peer {
    /// How to begin to reach a peer whose name stands for so many addresses.
    pub fn connect(peer: &config::Peer, addresses: usize) -> (step: ConnectStep)
        ensures
            step == (if addresses == 0 {
                ConnectStep::Failed(
                    HandshakeError::Unreachable { peer_id: peer.id, name: peer.host },
                )
            } else {
                ConnectStep::Dial(0)
            }),
    {
        if addresses == 0 {
            ConnectStep::Failed(
                HandshakeError::Unreachable { peer_id: peer.id, name: peer.host.clone() },
            )
        } else {
            ConnectStep::Dial(0)
        }
    }

    /// How to go on after the address at the position `tried` was dialed.
    pub open spec fn spec_after_dial(
        peer_id: Id,
        addresses: int,
        tried: int,
        connected: bool,
    ) -> ConnectStep {
        if connected {
            ConnectStep::Handshake
        } else if tried + 1 < addresses {
            ConnectStep::Dial((tried + 1) as usize)
        } else {
            ConnectStep::Failed(HandshakeError::Connect { peer_id })
        }
    }

    /// How to go on after the address at the position `tried` was dialed.
    pub fn after_dial(peer: &config::Peer, addresses: usize, tried: usize, connected: bool) -> (step:
        ConnectStep)
        requires
            tried < addresses,
        ensures
            step == Self::spec_after_dial(peer.id, addresses as int, tried as int, connected),
    {
        if connected {
            ConnectStep::Handshake
        } else if tried + 1 < addresses {
            ConnectStep::Dial(tried + 1)
        } else {
            ConnectStep::Failed(HandshakeError::Connect { peer_id: peer.id })
        }
    }

    /// The first message on a connection that the server with the id `own_id` opened.
    pub fn join(own_id: Id) -> (message: Message)
        ensures
            message == Message::Join(own_id),
    {
        Message::Join(own_id)
    }

    /// What the server with the id `own_id` answers to the first message of a peer that opened a
    /// connection, and the id of that peer.
    pub open spec fn handshake_answer(own_id: Id, message: Message) -> Result<
        (Id, Message),
        HandshakeError,
    > {
        match message {
            Message::Join(peer_id) => Ok((peer_id, Message::JoinAck(own_id))),
            message => Err(HandshakeError::NoJoin(message)),
        }
    }

    /// The outcome of a handshake with the peer `expected_id` that answered with `reply`.
    pub open spec fn handshake_outcome(expected_id: Id, reply: Message) -> Result<
        JoinSuccess,
        HandshakeError,
    > {
        match reply {
            Message::JoinAck(peer_id) => if peer_id == expected_id {
                Ok(JoinSuccess { peer_id })
            } else {
                Err(HandshakeError::IdMismatch { expected: expected_id, received: peer_id })
            },
            message => Err(HandshakeError::NoJoinAck(message)),
        }
    }

    /// The outcome of a handshake with the peer `expected_id` that answered with `reply`.
    pub fn start_handshake(expected_id: Id, reply: Message) -> (outcome: Result<
        JoinSuccess,
        HandshakeError,
    >)
        ensures
            outcome == Self::handshake_outcome(expected_id, reply),
    {
        match reply {
            Message::JoinAck(peer_id) => {
                if peer_id == expected_id {
                    Ok(JoinSuccess { peer_id })
                } else {
                    Err(HandshakeError::IdMismatch { expected: expected_id, received: peer_id })
                }
            },
            message => Err(HandshakeError::NoJoinAck(message)),
        }
    }

    /// How long to wait for a message of a peer.
    pub fn read_timeout(heartbeat_timeout: Duration) -> (timeout: Duration)
        requires
            heartbeat_timeout.nanos * MISSED_HEARTBEATS <= MAX_NANOS,
        ensures
            timeout.nanos == heartbeat_timeout.nanos * MISSED_HEARTBEATS,
            timeout.wf(),
    {
        Duration { nanos: heartbeat_timeout.nanos * MISSED_HEARTBEATS }
    }

    /// Whether a message has its place on a connection whose handshake is over.
    pub open spec fn is_after_handshake(message: Message) -> bool {
        !(message is Join) && !(message is JoinAck)
    }

    /// What to pass on of a message that was received, and whether to receive more. The
    /// connection ends with a message that belongs in a handshake, or when it is `terminated`.
    pub fn read_step(message: Message, terminated: bool) -> (step: (Option<Message>, bool))
        ensures
            step == (if Self::is_after_handshake(message) {
                (Some(message), !terminated)
            } else {
                (None, false)
            }),
    {
        match message {
            Message::Join(_) => (None, false),
            Message::JoinAck(_) => (None, false),
            message => (Some(message), !terminated),
        }
    }

    /// What to send, unless the connection is to be closed: a heartbeat where there is nothing
    /// else.
    pub fn write_step(outgoing: Outgoing) -> (message: Option<Message>)
        ensures
            message == (match outgoing {
                Outgoing::Message(message) => Some(message),
                Outgoing::Timeout => Some(Message::Heartbeat),
                Outgoing::Disconnected => None,
            }),
    {
        match outgoing {
            Outgoing::Message(message) => Some(message),
            Outgoing::Timeout => Some(Message::Heartbeat),
            Outgoing::Disconnected => None,
        }
    }
}

/// In a handshake each of the two servers learns the id of the other one. It succeeds iff the one
/// that answers is the one that was expected.
pub proof fn law_handshakes_exchange_ids(own_id: Id, expected_id: Id, peer_id: Id)
    ensures
        ({
            let answer = Peer::handshake_answer(peer_id, Message::Join(own_id));
            let outcome = Peer::handshake_outcome(expected_id, answer->Ok_0.1);
            &&& answer is Ok
            &&& answer->Ok_0.0 == own_id
            &&& outcome == (if expected_id == peer_id {
                Ok(JoinSuccess { peer_id })
            } else {
                Err(HandshakeError::IdMismatch { expected: expected_id, received: peer_id })
            })
        }),
{
}

/// Trying the addresses of a peer one after the other ends at the first that works, and fails
/// only if none does.
pub proof fn law_the_first_address_that_works_is_used(
    peer_id: Id,
    addresses: int,
    tried: int,
    works: spec_fn(int) -> bool,
)
    requires
        0 <= tried < addresses <= usize::MAX,
    ensures
        match Peer::spec_after_dial(peer_id, addresses, tried, works(tried)) {
            ConnectStep::Dial(next) => dialed(tried, addresses, works) == dialed(
                next as int,
                addresses,
                works,
            ),
            ConnectStep::Handshake => dialed(tried, addresses, works) == Some(tried),
            ConnectStep::Failed(error) => dialed(tried, addresses, works) is None && error
                == HandshakeError::Connect { peer_id },
        },
{
    reveal_with_fuel(dialed, 2);
}

/// A connection must begin with a handshake: any other first message is refused, and so is any
/// other answer.
pub proof fn law_handshakes_come_first(own_id: Id, expected_id: Id, message: Message)
    ensures
        !(message is Join) ==> Peer::handshake_answer(own_id, message) == Err::<
            (Id, Message),
            HandshakeError,
        >(HandshakeError::NoJoin(message)),
        !(message is JoinAck) ==> Peer::handshake_outcome(expected_id, message) == Err::<
            JoinSuccess,
            HandshakeError,
        >(HandshakeError::NoJoinAck(message)),
{
}

/// After the handshake every message has its place but those of a handshake.
pub proof fn law_what_belongs_after_the_handshake(id: Id, message: Message)
    ensures
        !Peer::is_after_handshake(Message::Join(id)),
        !Peer::is_after_handshake(Message::JoinAck(id)),
        Peer::is_after_handshake(message) <==> match message {
            Message::Join(_) => false,
            Message::JoinAck(_) => false,
            _ => true,
        },
{
}

} // verus!
