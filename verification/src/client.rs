//! The command line client.

pub mod command;
pub mod config;
pub mod execution;
pub mod laws;
pub mod leases;
pub mod query;
pub mod random;
pub mod shell;

use crate::net::Ipv4Addr;
use crate::protocol::{DhcpClientMessage, DhcpOffer, DhcpServerMessage, MacAddr};
use vstd::prelude::*;

verus! {

/// Why the conversation with a server failed.
#[derive(Debug, Clone, Copy, PartialEq, Eq, Structural)]
pub enum CommunicationError {
    /// Nothing could be received.
    ReceiveMessage,
    /// Nothing could be sent.
    SendMessage,
    /// The server answered out of turn.
    UnexpectedMessage(DhcpServerMessage),
}

/// The message that asks a server for a lease.
pub fn discover(mac_address: MacAddr) -> (message: DhcpClientMessage)
    ensures
        message == (DhcpClientMessage::Discover { mac_address }),
{
    DhcpClientMessage::Discover { mac_address }
}

/// The offer in the answer to [`discover`], if the server makes one.
pub open spec fn offer_in(response: DhcpServerMessage) -> Result<
    Option<DhcpOffer>,
    CommunicationError,
> {
    match response {
        DhcpServerMessage::Offer(offer) => Ok(Some(offer)),
        DhcpServerMessage::Ack => Err(CommunicationError::UnexpectedMessage(response)),
        DhcpServerMessage::Nack => Ok(None),
    }
}

/// What the answer to [`discover`] amounts to.
pub fn get_offer(response: DhcpServerMessage) -> (offer: Result<
    Option<DhcpOffer>,
    CommunicationError,
>)
    ensures
        offer == offer_in(response),
{
    match response {
        DhcpServerMessage::Offer(offer) => Ok(Some(offer)),
        DhcpServerMessage::Ack => Err(CommunicationError::UnexpectedMessage(response)),
        DhcpServerMessage::Nack => Ok(None),
    }
}

/// The message that asks a server to confirm a lease.
pub fn request(mac_address: MacAddr, ip: Ipv4Addr) -> (message: DhcpClientMessage)
    ensures
        message == (DhcpClientMessage::Request { mac_address, ip }),
{
    DhcpClientMessage::Request { mac_address, ip }
}

/// Whether the answer to [`request`] confirms the lease.
pub open spec fn ack_in(response: DhcpServerMessage) -> Result<bool, CommunicationError> {
    match response {
        DhcpServerMessage::Offer(_) => Err(CommunicationError::UnexpectedMessage(response)),
        DhcpServerMessage::Ack => Ok(true),
        DhcpServerMessage::Nack => Ok(false),
    }
}

/// What the answer to [`request`] amounts to.
pub fn get_ack(response: DhcpServerMessage) -> (acked: Result<bool, CommunicationError>)
    ensures
        acked == ack_in(response),
{
    match response {
        DhcpServerMessage::Offer(_) => Err(CommunicationError::UnexpectedMessage(response)),
        DhcpServerMessage::Ack => Ok(true),
        DhcpServerMessage::Nack => Ok(false),
    }
}

/// The first `n` of an error and of what caused it, one in a line.
pub open spec fn error_lines(chain: Seq<String>, n: nat) -> Seq<char>
    decreases n,
{
    if n == 0 {
        Seq::empty()
    } else if n == 1 {
        "\x1b[93m"@ + chain[0]@ + "\x1b[0m\n"@
    } else {
        error_lines(chain, (n - 1) as nat) + "Caused by: \x1b[35m"@ + chain[n - 1]@
            + "\x1b[0m\n"@
    }
}

/// An error and what caused it, in order, as a person reads them.
pub fn error_text(chain: &Vec<String>) -> (text: String)
    ensures
        text@ == error_lines(chain@, chain@.len()),
{
    let mut text = String::new();
    let mut i: usize = 0;
    assert(text@ =~= error_lines(chain@, 0));
    while i < chain.len()
        invariant
            i <= chain@.len(),
            text@ == error_lines(chain@, i as nat),
        decreases chain@.len() - i,
    {
        if i == 0 {
            text.append("\x1b[93m");
        } else {
            text.append("Caused by: \x1b[35m");
        }
        text.append(chain[i].as_str());
        text.append("\x1b[0m\n");
        assert(text@ =~= error_lines(chain@, (i + 1) as nat));
        i = i + 1;
    }
    text
}

} // verus!
