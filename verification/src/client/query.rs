//! Asking one server for a lease, or to renew one.
//!
//! The name of a server may stand for several addresses. An [`Attempt`] goes through them until
//! it knows what the server says, or that there is none to be reached.

use crate::client::{ack_in, discover, get_ack, get_offer, offer_in, request, CommunicationError};
use crate::protocol::{DhcpClientMessage, DhcpOffer, DhcpServerMessage, MacAddr};
use vstd::prelude::*;

verus! {

/// Why no lease was obtained.
#[derive(Debug, Clone, Copy, PartialEq, Eq, Structural)]
pub enum QueryError {
    /// The name of the server could not be resolved.
    NameResolution,
    /// The timeouts of the connection could not be set.
    SetSocketTimeout,
    /// No connection could be established.
    Connect,
    /// The name of the server stands for no address at all.
    UnreachableServer,
    /// The conversation with the server failed.
    Communication(CommunicationError),
    /// The server does not confirm the lease.
    RequestNack,
    /// The server does not offer a lease.
    DiscoverNack,
}

/// What came of looking up the name of a server.
#[derive(Debug, Clone, Copy, PartialEq, Eq, Structural)]
pub enum Lookup {
    /// There are addresses, maybe none.
    Resolved,
    /// The name is not one that can be looked up, such as one without a port number.
    InvalidInput,
    /// The name could not be resolved.
    Failed,
}

/// How to go on after looking up the name of a server.
#[derive(Debug, Clone, Copy, PartialEq, Eq, Structural)]
pub enum LookupStep {
    /// Take the addresses.
    Take,
    /// Look the name up again, together with the default port number.
    UseDefaultPort,
    /// Give up.
    Fail(QueryError),
}

/// How to go on after looking up the name of a server, as it is at first, and then, if
/// `with_default_port`, together with the default port number.
pub fn get_addresses(lookup: Lookup, with_default_port: bool) -> (step: LookupStep)
    ensures
        step == LookupStep::Take <==> lookup == Lookup::Resolved,
        step == LookupStep::UseDefaultPort <==> lookup == Lookup::InvalidInput
            && !with_default_port,
        step == LookupStep::Fail(QueryError::NameResolution) <==> lookup == Lookup::Failed
            || lookup == Lookup::InvalidInput && with_default_port,
{
    match lookup {
        Lookup::Resolved => LookupStep::Take,
        // If the server name did not contain port number, try with default port number
        Lookup::InvalidInput => if with_default_port {
            LookupStep::Fail(QueryError::NameResolution)
        } else {
            LookupStep::UseDefaultPort
        },
        Lookup::Failed => LookupStep::Fail(QueryError::NameResolution),
    }
}

/// What is wanted of the server.
#[derive(Debug, Clone, Copy, PartialEq, Eq)]
pub enum Errand {
    /// A lease for this client.
    Query(MacAddr),
    /// This lease of this client for another while.
    Renew(MacAddr, DhcpOffer),
}

impl Errand {
    /// The client that the lease is for.
    pub open spec fn spec_client(self) -> MacAddr {
        match self {
            Errand::Query(mac_address) => mac_address,
            Errand::Renew(mac_address, _) => mac_address,
        }
    }

    fn client(self) -> (mac_address: MacAddr)
        ensures
            mac_address == self.spec_client(),
    {
        match self {
            Errand::Query(mac_address) => mac_address,
            Errand::Renew(mac_address, _) => mac_address,
        }
    }
}

/// How far an attempt has come.
#[derive(Debug, Clone, Copy, PartialEq, Eq, Structural)]
pub enum Stage {
    /// It waits for a connection.
    Connecting,
    /// It waits for an offer.
    Discovering,
    /// It waits for a lease to be confirmed.
    Requesting(DhcpOffer),
    /// It is over.
    Finished,
}

/// What happened in an attempt.
#[derive(Debug, Clone, Copy, PartialEq, Eq)]
pub enum QueryEvent {
    /// There is a connection, or why there is none.
    Dialed(Result<(), QueryError>),
    /// The message was sent and this is the answer, or why there is none.
    Answered(Result<DhcpServerMessage, CommunicationError>),
}

/// What to do next in an attempt.
#[derive(Debug, Clone, Copy, PartialEq, Eq)]
pub enum QueryAction {
    /// Connect to the address at this position.
    Dial(usize),
    /// Send a message and wait for the answer.
    Send(DhcpClientMessage),
    /// This came of it.
    Finish(Result<DhcpOffer, QueryError>),
}

/// An attempt to obtain a lease of a server.
#[derive(Debug, Clone, Copy, PartialEq, Eq)]
pub struct Attempt {
    pub errand: Errand,
    /// How many addresses the name of the server stands for.
    pub addresses: usize,
    /// The position of the address that is tried.
    pub current: usize,
    pub stage: Stage,
}

impl Attempt {
    pub open spec fn wf(self) -> bool {
        self.stage != Stage::Finished ==> self.current < self.addresses
    }

    /// Whether the event is one that can happen at this stage.
    pub open spec fn expects(self, event: QueryEvent) -> bool {
        match event {
            QueryEvent::Dialed(_) => self.stage == Stage::Connecting,
            QueryEvent::Answered(_) => self.stage == Stage::Discovering || self.stage
                is Requesting,
        }
    }

    pub open spec fn spec_start(errand: Errand, addresses: usize) -> (Attempt, QueryAction) {
        let attempt = Attempt { errand, addresses, current: 0, stage: Stage::Connecting };
        if addresses == 0 {
            attempt.finished(Err(QueryError::UnreachableServer))
        } else {
            (attempt, QueryAction::Dial(0))
        }
    }

    pub open spec fn finished(self, outcome: Result<DhcpOffer, QueryError>) -> (
        Attempt,
        QueryAction,
    ) {
        (Attempt { stage: Stage::Finished, ..self }, QueryAction::Finish(outcome))
    }

    /// The next address is tried, unless this was the last one.
    pub open spec fn next_address(self, error: CommunicationError) -> (Attempt, QueryAction) {
        if self.current + 1 < self.addresses {
            let next = (self.current + 1) as usize;
            (
                Attempt { current: next, stage: Stage::Connecting, ..self },
                QueryAction::Dial(next),
            )
        } else {
            self.finished(Err(QueryError::Communication(error)))
        }
    }

    /// A lease is requested.
    pub open spec fn requested(self, lease: DhcpOffer) -> (Attempt, QueryAction) {
        (
            Attempt { stage: Stage::Requesting(lease), ..self },
            QueryAction::Send(
                DhcpClientMessage::Request {
                    mac_address: self.errand.spec_client(),
                    ip: lease.ip,
                },
            ),
        )
    }

    /// Where an event leads, and what to do then.
    pub open spec fn spec_step(self, event: QueryEvent) -> (Attempt, QueryAction) {
        match event {
            // The first address that cannot be connected to ends the attempt
            QueryEvent::Dialed(Err(e)) => self.finished(Err(e)),
            QueryEvent::Dialed(Ok(_)) => match self.errand {
                Errand::Query(mac_address) => (
                    Attempt { stage: Stage::Discovering, ..self },
                    QueryAction::Send(DhcpClientMessage::Discover { mac_address }),
                ),
                Errand::Renew(_, lease) => self.requested(lease),
            },
            QueryEvent::Answered(answer) => match self.stage {
                Stage::Requesting(lease) => {
                    let acked = match answer {
                        Ok(message) => ack_in(message),
                        Err(e) => Err(e),
                    };
                    match acked {
                        Ok(true) => self.finished(Ok(lease)),
                        Ok(false) => self.finished(Err(QueryError::RequestNack)),
                        Err(e) => match self.errand {
                            // What was offered at one address is not requested at another
                            Errand::Query(_) => self.finished(Err(QueryError::Communication(e))),
                            Errand::Renew(_, _) => self.next_address(e),
                        },
                    }
                },
                _ => {
                    let offered = match answer {
                        Ok(message) => offer_in(message),
                        Err(e) => Err(e),
                    };
                    match offered {
                        Ok(Some(offer)) => self.requested(offer),
                        Ok(None) => self.finished(Err(QueryError::DiscoverNack)),
                        Err(e) => self.next_address(e),
                    }
                },
            },
        }
    }

    /// Begins an attempt at a server whose name stands for so many addresses.
    pub fn start(errand: Errand, addresses: usize) -> (started: (Attempt, QueryAction))
        ensures
            started == Self::spec_start(errand, addresses),
            started.0.wf(),
    {
        let mut attempt = Attempt { errand, addresses, current: 0, stage: Stage::Connecting };
        let action = if addresses == 0 {
            attempt.finish(Err(QueryError::UnreachableServer))
        } else {
            QueryAction::Dial(0)
        };
        (attempt, action)
    }

    fn finish(&mut self, outcome: Result<DhcpOffer, QueryError>) -> (action: QueryAction)
        ensures
            (*final(self), action) == old(self).finished(outcome),
    {
        self.stage = Stage::Finished;
        QueryAction::Finish(outcome)
    }

    fn try_next(&mut self, error: CommunicationError) -> (action: QueryAction)
        requires
            old(self).current < old(self).addresses,
        ensures
            (*final(self), action) == old(self).next_address(error),
    {
        if self.current + 1 < self.addresses {
            self.current = self.current + 1;
            self.stage = Stage::Connecting;
            QueryAction::Dial(self.current)
        } else {
            self.finish(Err(QueryError::Communication(error)))
        }
    }

    fn request(&mut self, lease: DhcpOffer) -> (action: QueryAction)
        ensures
            (*final(self), action) == old(self).requested(lease),
    {
        self.stage = Stage::Requesting(lease);
        QueryAction::Send(request(self.errand.client(), lease.ip))
    }

    /// How to go on after an event.
    pub fn step(&mut self, event: QueryEvent) -> (action: QueryAction)
        requires
            old(self).wf(),
            old(self).expects(event),
        ensures
            (*final(self), action) == old(self).spec_step(event),
            final(self).wf(),
    {
        match event {
            QueryEvent::Dialed(Err(e)) => self.finish(Err(e)),
            QueryEvent::Dialed(Ok(_)) => match self.errand {
                Errand::Query(mac_address) => {
                    self.stage = Stage::Discovering;
                    QueryAction::Send(discover(mac_address))
                },
                Errand::Renew(_, lease) => self.request(lease),
            },
            QueryEvent::Answered(answer) => match self.stage {
                Stage::Requesting(lease) => {
                    let acked = match answer {
                        Ok(message) => get_ack(message),
                        Err(e) => Err(e),
                    };
                    match acked {
                        Ok(true) => self.finish(Ok(lease)),
                        Ok(false) => self.finish(Err(QueryError::RequestNack)),
                        Err(e) => match self.errand {
                            Errand::Query(_) => self.finish(Err(QueryError::Communication(e))),
                            Errand::Renew(_, _) => self.try_next(e),
                        },
                    }
                },
                _ => {
                    let offered = match answer {
                        Ok(message) => get_offer(message),
                        Err(e) => Err(e),
                    };
                    match offered {
                        Ok(Some(offer)) => self.request(offer),
                        Ok(None) => self.finish(Err(QueryError::DiscoverNack)),
                        Err(e) => self.try_next(e),
                    }
                },
            },
        }
    }

    /// An upper bound of the events that are still to come.
    pub open spec fn rank(self) -> int {
        match self.stage {
            Stage::Connecting => 3 * (self.addresses - self.current),
            Stage::Discovering => 3 * (self.addresses - self.current) - 1,
            Stage::Requesting(_) => 3 * (self.addresses - self.current) - 2,
            Stage::Finished => 0,
        }
    }

    /// What comes of an attempt in which these events happen one after the other.
    pub open spec fn after(self, events: Seq<QueryEvent>) -> Attempt
        decreases events.len(),
    {
        if events.len() == 0 {
            self
        } else {
            self.after(events.drop_last()).spec_step(events.last()).0
        }
    }

    /// Whether these events can happen one after the other.
    pub open spec fn allows(self, events: Seq<QueryEvent>) -> bool
        decreases events.len(),
    {
        events.len() == 0 || self.allows(events.drop_last()) && self.after(
            events.drop_last(),
        ).expects(events.last())
    }
}

/// An attempt ends: at each address at most three events happen.
pub proof fn law_attempts_end(errand: Errand, addresses: usize, events: Seq<QueryEvent>)
    requires
        Attempt::spec_start(errand, addresses).0.allows(events),
    ensures
        events.len() <= 3 * addresses,
{
    lemma_events_use_up_the_rank(Attempt::spec_start(errand, addresses).0, events);
}

/// Every event makes the rank smaller.
proof fn lemma_events_use_up_the_rank(attempt: Attempt, events: Seq<QueryEvent>)
    requires
        attempt.wf(),
        attempt.allows(events),
    ensures
        attempt.after(events).wf(),
        0 <= attempt.after(events).rank() <= attempt.rank() - events.len(),
    decreases events.len(),
{
    if events.len() > 0 {
        lemma_events_use_up_the_rank(attempt, events.drop_last());
    }
}

/// A lease is only obtained where the server has acknowledged the request for it. What a renewal
/// gives is the lease that was to be renewed, and what a query gives is what was offered.
pub proof fn law_only_acknowledged_leases_are_obtained(
    attempt: Attempt,
    event: QueryEvent,
    lease: DhcpOffer,
)
    requires
        attempt.wf(),
        attempt.expects(event),
        attempt.spec_step(event).1 == QueryAction::Finish(Ok(lease)),
    ensures
        attempt.stage == Stage::Requesting(lease),
        event == QueryEvent::Answered(Ok(DhcpServerMessage::Ack)),
{
}

/// In a renewal no other lease is ever requested than the one that is to be renewed.
pub proof fn law_a_renewal_keeps_the_terms(
    mac_address: MacAddr,
    lease: DhcpOffer,
    addresses: usize,
    events: Seq<QueryEvent>,
)
    requires
        Attempt::spec_start(Errand::Renew(mac_address, lease), addresses).0.allows(events),
    ensures
        ({
            let attempt = Attempt::spec_start(
                Errand::Renew(mac_address, lease),
                addresses,
            ).0.after(events);
            &&& attempt.errand == Errand::Renew(mac_address, lease)
            &&& attempt.stage != Stage::Discovering
            &&& attempt.stage is Requesting ==> attempt.stage == Stage::Requesting(lease)
        }),
    decreases events.len(),
{
    if events.len() > 0 {
        law_a_renewal_keeps_the_terms(mac_address, lease, addresses, events.drop_last());
    }
}

/// A client that connects, is offered a lease and has its request acknowledged obtains the lease.
pub proof fn law_a_query_obtains_what_is_offered(
    mac_address: MacAddr,
    addresses: usize,
    offer: DhcpOffer,
)
    requires
        addresses > 0,
    ensures
        ({
            let (started, dial) = Attempt::spec_start(Errand::Query(mac_address), addresses);
            let (connected, ask) = started.spec_step(QueryEvent::Dialed(Ok(())));
            let (offered, confirm) = connected.spec_step(
                QueryEvent::Answered(Ok(DhcpServerMessage::Offer(offer))),
            );
            let (_, outcome) = offered.spec_step(
                QueryEvent::Answered(Ok(DhcpServerMessage::Ack)),
            );
            &&& dial == QueryAction::Dial(0)
            &&& ask == QueryAction::Send(DhcpClientMessage::Discover { mac_address })
            &&& confirm == QueryAction::Send(
                DhcpClientMessage::Request { mac_address, ip: offer.ip },
            )
            &&& outcome == QueryAction::Finish(Ok(offer))
        }),
{
}

/// A server that cannot be talked to at one address is tried at the next one, and the error is
/// reported where there is none.
pub proof fn law_the_next_address_is_tried(attempt: Attempt, error: CommunicationError)
    requires
        attempt.wf(),
        attempt.stage == Stage::Discovering || attempt.stage is Requesting && attempt.errand
            is Renew,
    ensures
        attempt.current + 1 < attempt.addresses ==> attempt.spec_step(
            QueryEvent::Answered(Err(error)),
        ).1 == QueryAction::Dial((attempt.current + 1) as usize),
        attempt.current + 1 == attempt.addresses ==> attempt.spec_step(
            QueryEvent::Answered(Err(error)),
        ).1 == QueryAction::Finish(Err(QueryError::Communication(error))),
{
}

} // verus!
