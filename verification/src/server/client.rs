//! Serving a client.
//!
//! A client either asks for a lease and then requests what it is offered, or requests a lease
//! that it had before. A [`Session`] keeps track of how far a client has come.

use crate::net::Ipv4Addr;
use crate::protocol::{DhcpClientMessage, DhcpOffer, DhcpServerMessage, MacAddr};
use vstd::prelude::*;

verus! {

/// How far a client has come.
#[derive(Debug, Clone, Copy, PartialEq, Eq, Structural)]
pub enum Session {
    /// The client has not said anything yet.
    Started,
    /// The client asked for a lease; the server looks for one.
    AwaitingOffer,
    /// The client is being sent an offer.
    SendingOffer,
    /// The client has an offer and may request it.
    AwaitingRequest,
    /// The client requested what it was offered; the server is to confirm it.
    AwaitingConfirmation,
    /// The client began with a request; the server is to confirm it.
    AwaitingRenewal,
    /// There is no more to do.
    Closed,
}

/// What happened in a session.
#[derive(Debug, Clone, Copy, PartialEq, Eq)]
pub enum ClientEvent {
    /// The client sent a message.
    Received(DhcpClientMessage),
    /// Nothing could be received from the client.
    ReceiveFailed,
    /// The server has a lease for the client.
    Offered(DhcpOffer),
    /// The server does not offer a lease.
    NotOffered,
    /// The offer was sent.
    Sent,
    /// The offer could not be sent.
    SendFailed,
    /// The server has confirmed the lease, or denied it.
    Confirmed(bool),
    /// The server does not say.
    NotConfirmed,
}

/// What to do next in a session.
#[derive(Debug, Clone, Copy, PartialEq, Eq)]
pub enum ClientAction {
    /// Ask the server for a lease.
    RequestLease { mac_address: MacAddr },
    /// Send the offer.
    SendOffer(DhcpOffer),
    /// Wait for a message of the client.
    Receive,
    /// Ask the server to confirm a lease.
    RequestConfirmation { mac_address: MacAddr, ip: Ipv4Addr },
    /// Send the client a last message, and end the session.
    Finish(DhcpServerMessage),
    /// End the session without another word.
    Abandon,
}

impl Session {
    /// Where an event leads, and what to do then. An event that does not belong there ends the
    /// session.
    pub open spec fn spec_step(self, event: ClientEvent) -> (Session, ClientAction) {
        match (self, event) {
            // A client begins with what it wants
            (
                Session::Started,
                ClientEvent::Received(DhcpClientMessage::Discover { mac_address }),
            ) => (Session::AwaitingOffer, ClientAction::RequestLease { mac_address }),
            (
                Session::Started,
                ClientEvent::Received(DhcpClientMessage::Request { mac_address, ip }),
            ) => (Session::AwaitingRenewal, ClientAction::RequestConfirmation { mac_address, ip }),
            // An offer is passed on
            (Session::AwaitingOffer, ClientEvent::Offered(offer)) => (
                Session::SendingOffer,
                ClientAction::SendOffer(offer),
            ),
            (Session::AwaitingOffer, ClientEvent::NotOffered) => (
                Session::Closed,
                ClientAction::Finish(DhcpServerMessage::Nack),
            ),
            (Session::SendingOffer, ClientEvent::Sent) => (
                Session::AwaitingRequest,
                ClientAction::Receive,
            ),
            // The client is to request what it was offered
            (
                Session::AwaitingRequest,
                ClientEvent::Received(DhcpClientMessage::Request { mac_address, ip }),
            ) => (
                Session::AwaitingConfirmation,
                ClientAction::RequestConfirmation { mac_address, ip },
            ),
            // And is told what became of the request
            (Session::AwaitingConfirmation, ClientEvent::Confirmed(confirmed)) => (
                Session::Closed,
                ClientAction::Finish(
                    if confirmed {
                        DhcpServerMessage::Ack
                    } else {
                        DhcpServerMessage::Nack
                    },
                ),
            ),
            (Session::AwaitingRenewal, ClientEvent::Confirmed(confirmed)) => (
                Session::Closed,
                ClientAction::Finish(
                    if confirmed {
                        DhcpServerMessage::Ack
                    } else {
                        DhcpServerMessage::Nack
                    },
                ),
            ),
            (Session::AwaitingRenewal, ClientEvent::NotConfirmed) => (
                Session::Closed,
                ClientAction::Finish(DhcpServerMessage::Nack),
            ),
            _ => (Session::Closed, ClientAction::Abandon),
        }
    }

    /// How to go on after an event.
    pub fn step(&mut self, event: ClientEvent) -> (action: ClientAction)
        ensures
            (*final(self), action) == old(self).spec_step(event),
    {
        match *self {
            Session::Started => serve_client(self, event),
            Session::AwaitingOffer => handle_discover(self, event),
            Session::SendingOffer => handle_discover(self, event),
            Session::AwaitingRequest => handle_discover(self, event),
            Session::AwaitingConfirmation => handle_discover(self, event),
            Session::AwaitingRenewal => handle_renew(self, event),
            Session::Closed => ClientAction::Abandon,
        }
    }

    /// An upper bound of the events that are still to come.
    pub open spec fn rank(self) -> nat {
        match self {
            Session::Started => 5,
            Session::AwaitingOffer => 4,
            Session::SendingOffer => 3,
            Session::AwaitingRequest => 2,
            Session::AwaitingConfirmation => 1,
            Session::AwaitingRenewal => 1,
            Session::Closed => 0,
        }
    }
}

/// The first message of a client.
fn serve_client(session: &mut Session, event: ClientEvent) -> (action: ClientAction)
    requires
        *old(session) == Session::Started,
    ensures
        (*final(session), action) == old(session).spec_step(event),
{
    match event {
        ClientEvent::Received(DhcpClientMessage::Discover { mac_address }) => {
            *session = Session::AwaitingOffer;
            ClientAction::RequestLease { mac_address }
        },
        ClientEvent::Received(DhcpClientMessage::Request { mac_address, ip }) => {
            *session = Session::AwaitingRenewal;
            ClientAction::RequestConfirmation { mac_address, ip }
        },
        _ => {
            *session = Session::Closed;
            ClientAction::Abandon
        },
    }
}

/// The answer to a request.
fn answer(confirmed: bool) -> (message: DhcpServerMessage)
    ensures
        message == (if confirmed {
            DhcpServerMessage::Ack
        } else {
            DhcpServerMessage::Nack
        }),
{
    if confirmed {
        DhcpServerMessage::Ack
    } else {
        DhcpServerMessage::Nack
    }
}

/// The way from a question for a lease to its confirmation.
fn handle_discover(session: &mut Session, event: ClientEvent) -> (action: ClientAction)
    requires
        *old(session) == Session::AwaitingOffer || *old(session) == Session::SendingOffer || *old(
            session,
        ) == Session::AwaitingRequest || *old(session) == Session::AwaitingConfirmation,
    ensures
        (*final(session), action) == old(session).spec_step(event),
{
    match (*session, event) {
        // Wait for the server to process DHCP discover
        (Session::AwaitingOffer, ClientEvent::NotOffered) => {
            *session = Session::Closed;
            ClientAction::Finish(DhcpServerMessage::Nack)
        },
        // Send the server's offer to the client
        (Session::AwaitingOffer, ClientEvent::Offered(offer)) => {
            *session = Session::SendingOffer;
            ClientAction::SendOffer(offer)
        },
        // Listen for client's confirmation
        (Session::SendingOffer, ClientEvent::Sent) => {
            *session = Session::AwaitingRequest;
            ClientAction::Receive
        },
        (
            Session::AwaitingRequest,
            ClientEvent::Received(DhcpClientMessage::Request { mac_address, ip }),
        ) => {
            *session = Session::AwaitingConfirmation;
            ClientAction::RequestConfirmation { mac_address, ip }
        },
        // Wait for processing DHCP commit
        (Session::AwaitingConfirmation, ClientEvent::Confirmed(confirmed)) => {
            *session = Session::Closed;
            ClientAction::Finish(answer(confirmed))
        },
        _ => {
            *session = Session::Closed;
            ClientAction::Abandon
        },
    }
}

/// The way from a request for a lease that the client had before to its confirmation.
fn handle_renew(session: &mut Session, event: ClientEvent) -> (action: ClientAction)
    requires
        *old(session) == Session::AwaitingRenewal,
    ensures
        (*final(session), action) == old(session).spec_step(event),
{
    *session = Session::Closed;
    match event {
        ClientEvent::Confirmed(confirmed) => ClientAction::Finish(answer(confirmed)),
        ClientEvent::NotConfirmed => ClientAction::Finish(DhcpServerMessage::Nack),
        _ => ClientAction::Abandon,
    }
}

/// Every event brings a session closer to its end, so that it ends after at most five events.
pub proof fn law_sessions_end(session: Session, event: ClientEvent)
    ensures
        session.spec_step(event).0.rank() < session.rank() || (session == Session::Closed
            && session.spec_step(event) == (Session::Closed, ClientAction::Abandon)),
{
}

/// A client is told that its lease is confirmed only when the server has confirmed it.
pub proof fn law_only_confirmed_leases_are_acknowledged(session: Session, event: ClientEvent)
    ensures
        session.spec_step(event).1 == ClientAction::Finish(DhcpServerMessage::Ack) ==> event
            == ClientEvent::Confirmed(true),
{
}

/// A client that asks for a lease and gets no offer from the server is refused.
pub proof fn law_a_client_without_an_offer_is_refused(mac_address: MacAddr)
    ensures
        Session::Started.spec_step(
            ClientEvent::Received(DhcpClientMessage::Discover { mac_address }),
        ).0.spec_step(ClientEvent::NotOffered) == (
            Session::Closed,
            ClientAction::Finish(DhcpServerMessage::Nack),
        ),
{
}

/// A client that asks for a lease, is sent the offer, requests it and has it confirmed is told so.
pub proof fn law_a_client_gets_what_it_is_offered(
    mac_address: MacAddr,
    offer: DhcpOffer,
    confirmed: bool,
)
    ensures
        ({
            let asked = Session::Started.spec_step(
                ClientEvent::Received(DhcpClientMessage::Discover { mac_address }),
            );
            let offered = asked.0.spec_step(ClientEvent::Offered(offer));
            let sent = offered.0.spec_step(ClientEvent::Sent);
            let requested = sent.0.spec_step(
                ClientEvent::Received(DhcpClientMessage::Request { mac_address, ip: offer.ip }),
            );
            let finished = requested.0.spec_step(ClientEvent::Confirmed(confirmed));
            &&& asked.1 == ClientAction::RequestLease { mac_address }
            &&& offered.1 == ClientAction::SendOffer(offer)
            &&& sent.1 == ClientAction::Receive
            &&& requested.1 == ClientAction::RequestConfirmation { mac_address, ip: offer.ip }
            &&& finished.1 == ClientAction::Finish(
                if confirmed {
                    DhcpServerMessage::Ack
                } else {
                    DhcpServerMessage::Nack
                },
            )
        }),
{
}

/// A request to renew a lease is refused unless the server confirms it.
pub proof fn law_renewals_are_answered(mac_address: MacAddr, ip: Ipv4Addr, event: ClientEvent)
    requires
        event is Confirmed || event is NotConfirmed,
    ensures
        ({
            let asked = Session::Started.spec_step(
                ClientEvent::Received(DhcpClientMessage::Request { mac_address, ip }),
            );
            &&& asked.1 == ClientAction::RequestConfirmation { mac_address, ip }
            &&& asked.0.spec_step(event).1 == ClientAction::Finish(
                if event == ClientEvent::Confirmed(true) {
                    DhcpServerMessage::Ack
                } else {
                    DhcpServerMessage::Nack
                },
            )
        }),
{
}

/// What a client requests is passed on to the server as it is, whether the client begins with it
/// or was offered a lease before.
pub proof fn law_requests_are_passed_on(mac_address: MacAddr, ip: Ipv4Addr)
    ensures
        Session::Started.spec_step(
            ClientEvent::Received(DhcpClientMessage::Discover { mac_address }),
        ) == (Session::AwaitingOffer, ClientAction::RequestLease { mac_address }),
        Session::Started.spec_step(
            ClientEvent::Received(DhcpClientMessage::Request { mac_address, ip }),
        ) == (Session::AwaitingRenewal, ClientAction::RequestConfirmation { mac_address, ip }),
        Session::AwaitingRequest.spec_step(
            ClientEvent::Received(DhcpClientMessage::Request { mac_address, ip }),
        ) == (Session::AwaitingConfirmation, ClientAction::RequestConfirmation { mac_address, ip }),
{
}

/// What the server says is passed on to the client as it is. A client that began with a request
/// is refused where the server does not say; one that was offered a lease is told nothing then.
pub proof fn law_answers_are_passed_on(offer: DhcpOffer)
    ensures
        Session::AwaitingOffer.spec_step(ClientEvent::Offered(offer)) == (
            Session::SendingOffer,
            ClientAction::SendOffer(offer),
        ),
        Session::AwaitingOffer.spec_step(ClientEvent::NotOffered) == (
            Session::Closed,
            ClientAction::Finish(DhcpServerMessage::Nack),
        ),
        Session::SendingOffer.spec_step(ClientEvent::Sent) == (
            Session::AwaitingRequest,
            ClientAction::Receive,
        ),
        Session::AwaitingConfirmation.spec_step(ClientEvent::Confirmed(true)) == (
            Session::Closed,
            ClientAction::Finish(DhcpServerMessage::Ack),
        ),
        Session::AwaitingConfirmation.spec_step(ClientEvent::Confirmed(false)) == (
            Session::Closed,
            ClientAction::Finish(DhcpServerMessage::Nack),
        ),
        Session::AwaitingConfirmation.spec_step(ClientEvent::NotConfirmed) == (
            Session::Closed,
            ClientAction::Abandon,
        ),
        Session::AwaitingRenewal.spec_step(ClientEvent::NotConfirmed) == (
            Session::Closed,
            ClientAction::Finish(DhcpServerMessage::Nack),
        ),
{
}

/// A session ends without another word when the client cannot be heard or reached, or when it asks
/// for a lease where it should request what it was offered.
pub proof fn law_sessions_are_abandoned(session: Session, mac_address: MacAddr)
    ensures
        session.spec_step(ClientEvent::ReceiveFailed) == (Session::Closed, ClientAction::Abandon),
        session.spec_step(ClientEvent::SendFailed) == (Session::Closed, ClientAction::Abandon),
        Session::AwaitingRequest.spec_step(
            ClientEvent::Received(DhcpClientMessage::Discover { mac_address }),
        ) == (Session::Closed, ClientAction::Abandon),
{
}

} // verus!
