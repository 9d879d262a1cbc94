//! The decisions of a server of the cluster.

use dhcpcluster::config::{
    ClusterSection, Config, DhcpSection, File, Peer as ConfigPeer, ServerSection,
};
use dhcpcluster::console::Level;
use dhcpcluster::dhcp::{Ipv4Range, Lease};
use dhcpcluster::net::Ipv4Addr;
use dhcpcluster::protocol::{DhcpClientMessage, DhcpOffer, DhcpServerMessage, MacAddr};
use dhcpcluster::server::client::{ClientAction, ClientEvent, Session};
use dhcpcluster::server::journal::Entry;
use dhcpcluster::server::peer::message::Message;
use dhcpcluster::server::peer::{Id, JoinSuccess};
use dhcpcluster::server::{Action, ConnectAttempt, ElectionState, Event, Server};
use dhcpcluster::time::{Duration, Timestamp};

const SECOND: i128 = 1_000_000_000;
const START: Timestamp = Timestamp {
    nanos: 1_000 * SECOND,
};

fn at_millis(millis: i128) -> Timestamp {
    Timestamp {
        nanos: START.nanos + millis * 1_000_000,
    }
}

fn mac(n: u8) -> MacAddr {
    MacAddr([2, 0, 0, 0, 0, n])
}

fn file(id: Id, peers: &[Id]) -> File {
    File {
        dhcp: DhcpSection {
            net: Ipv4Addr::parse("10.0.0.0").unwrap(),
            prefix_length: 24,
            lease_time_seconds: 60,
        },
        server: ServerSection {
            listen_cluster: "127.0.0.1:4321".to_string(),
            listen_dhcp: "127.0.0.1:1234".to_string(),
            client_timeout_seconds: None,
            thread_count: Some(4),
        },
        cluster: ClusterSection {
            id,
            heartbeat_timeout_millis: 500,
            connect_timeout_seconds: None,
        },
        peers: peers
            .iter()
            .map(|id| ConfigPeer {
                id: *id,
                host: format!("peer{id}.example.com:4321"),
            })
            .collect(),
    }
}

/// The server `id` of a cluster of three.
fn server(id: Id) -> Server {
    let peers: Vec<Id> = [1, 2, 3].into_iter().filter(|peer| *peer != id).collect();
    Server::start(Config::from_file(file(id, &peers), None))
}

fn react(server: &mut Server, event: Event) -> Vec<Action> {
    assert!(server.is_admitted(&event));
    server.handle_event(event, START)
}

fn send(to: Id, message: Message) -> Action {
    Action::Send { to, message }
}

fn joined(peer_id: Id) -> Event {
    Event::IncomingPeerConnection(Some(peer_id))
}

fn established(peer_id: Id) -> Event {
    Event::EstablishedPeerConnection(JoinSuccess { peer_id })
}

fn received(sender_id: Id, message: Message) -> Event {
    Event::PeerMessage { sender_id, message }
}

/// The server with the highest id, elected by both of its peers.
fn coordinator() -> Server {
    let mut server = server(3);
    react(&mut server, established(1));
    react(&mut server, established(2));
    react(&mut server, Event::ElectionTimeout);
    server
}

fn share(i: usize, parts: u32) -> Ipv4Range {
    Ipv4Range::new(0x0a00_0000, 0x0a00_00ff).divide(parts)[i]
}

#[test]
fn a_server_starts_alone() {
    let server = server(2);
    assert_eq!(server.coordinator_id, None);
    assert!(server.peers.is_empty());
    assert!(!server.majority);
    assert_eq!(server.election_state, ElectionState::Follower);
    assert_eq!(server.last_connect_attempt, ConnectAttempt::Never);
    assert_eq!(server.dhcp_service.pool, share(0, 1));
}

#[test]
fn the_higher_id_opens_the_connection() {
    assert_eq!(server(1).attempt_connect(START), Vec::<usize>::new());
    assert_eq!(server(2).attempt_connect(START), vec![0]);
    let mut highest = server(3);
    assert_eq!(highest.attempt_connect(START), vec![0, 1]);
    react(&mut highest, established(1));
    assert_eq!(highest.attempt_connect(START), vec![1]);
}

#[test]
fn connecting_is_tried_again_after_a_while() {
    let mut server = server(3);
    assert!(server.is_connect_due(START));
    server.attempt_connect(START);
    assert_eq!(server.last_connect_attempt, ConnectAttempt::Finished(START));
    assert!(!server.is_connect_due(at_millis(500)));
    assert!(server.is_connect_due(at_millis(501)));
    assert!(!server.is_connect_due(Timestamp { nanos: 0 }));
}

#[test]
fn elections_go_to_higher_ids_only() {
    let mut server = server(2);
    assert_eq!(react(&mut server, joined(3)), vec![Action::Keep(3)]);
    assert_eq!(
        react(&mut server, established(1)),
        vec![
            Action::Keep(1),
            send(3, Message::Election),
            Action::StartElectionTimer
        ]
    );
    assert_eq!(server.election_state, ElectionState::WaitingForElection);
}

#[test]
fn an_undisputed_election_is_won() {
    let mut server = server(3);
    react(&mut server, established(1));
    react(&mut server, established(2));
    let actions = react(&mut server, Event::ElectionTimeout);
    let announcement = || Message::Coordinator { majority: true };
    assert_eq!(
        actions,
        vec![
            send(1, announcement()),
            send(2, announcement()),
            send(1, Message::SetPool(share(1, 3))),
            send(2, Message::SetPool(share(2, 3))),
        ]
    );
    assert_eq!(server.election_state, ElectionState::Coordinator);
    assert_eq!(server.coordinator_id, Some(3));
    assert!(server.majority);
    assert_eq!(server.dhcp_service.pool, share(0, 3));
    // Once is enough
    assert_eq!(react(&mut server, Event::ElectionTimeout), vec![]);
}

#[test]
fn an_objection_ends_an_election() {
    let mut server = server(2);
    react(&mut server, established(1));
    assert_eq!(react(&mut server, received(3, Message::Okay)), vec![]);
    assert_eq!(server.election_state, ElectionState::Follower);
    assert_eq!(react(&mut server, Event::ElectionTimeout), vec![]);
    assert_eq!(server.coordinator_id, None);
}

#[test]
fn the_higher_id_objects() {
    let mut higher = coordinator();
    assert_eq!(
        react(&mut higher, received(2, Message::Election)),
        vec![send(2, Message::Okay), Action::StartElectionTimer]
    );
    let mut lower = server(1);
    assert_eq!(react(&mut lower, received(2, Message::Election)), vec![]);
    assert_eq!(lower.election_state, ElectionState::Follower);
}

#[test]
fn coordinators_are_recognized_or_challenged() {
    let mut server = server(2);
    react(&mut server, joined(3));
    let announcement = |majority| Message::Coordinator { majority };
    assert_eq!(react(&mut server, received(3, announcement(true))), vec![]);
    assert_eq!(server.coordinator_id, Some(3));
    assert!(server.majority);
    assert_eq!(
        react(&mut server, received(1, announcement(false))),
        vec![send(3, Message::Election), Action::StartElectionTimer]
    );
    assert_eq!(server.coordinator_id, Some(1));
    assert!(!server.majority);
}

#[test]
fn a_majority_is_more_than_half() {
    // One of three, two of three
    let mut server = server(3);
    react(&mut server, established(1));
    react(&mut server, Event::ElectionTimeout);
    assert!(server.majority);
    react(&mut server, Event::PeerLost(1));
    assert!(!server.majority);
    // Two of four
    let mut even = Server::start(Config::from_file(file(4, &[1, 2, 3]), None));
    react(&mut even, established(1));
    react(&mut even, Event::ElectionTimeout);
    assert!(!even.majority);
    react(&mut even, established(2));
    react(&mut even, Event::ElectionTimeout);
    assert!(even.majority);
}

#[test]
fn a_coordinator_divides_anew_when_peers_come_and_go() {
    let mut server = coordinator();
    assert_eq!(
        react(&mut server, Event::PeerLost(1)),
        vec![
            Action::Close(1),
            send(2, Message::Coordinator { majority: true }),
            send(2, Message::SetPool(share(1, 2))),
        ]
    );
    assert_eq!(server.peers, vec![2]);
    assert_eq!(
        react(&mut server, joined(1)),
        vec![
            Action::Keep(1),
            send(2, Message::Coordinator { majority: true }),
            send(1, Message::Coordinator { majority: true }),
            send(2, Message::SetPool(share(1, 3))),
            send(1, Message::SetPool(share(2, 3))),
        ]
    );
    // A handshake that failed
    assert_eq!(
        react(&mut server, Event::IncomingPeerConnection(None)).len(),
        4
    );
}

#[test]
fn a_lost_coordinator_is_replaced() {
    let mut server = server(2);
    react(&mut server, joined(3));
    react(&mut server, received(3, Message::Coordinator { majority: true }));
    assert_eq!(
        react(&mut server, Event::PeerLost(3)),
        vec![Action::Close(3), Action::StartElectionTimer]
    );
    assert!(server.peers.is_empty());
    // Losing another peer is nothing to vote about
    react(&mut server, joined(1));
    assert_eq!(
        react(&mut server, Event::PeerLost(1)),
        vec![Action::Close(1)]
    );
}

#[test]
fn a_second_connection_is_discarded() {
    let mut server = server(3);
    react(&mut server, established(1));
    assert_eq!(
        react(&mut server, established(1)),
        vec![Action::Discard(1)]
    );
    assert_eq!(server.peers, vec![1]);
    assert!(!server.is_admitted(&joined(1)));
}

#[test]
fn what_the_server_is_not_in_for() {
    let server = server(2);
    assert!(!server.is_admitted(&received(1, Message::Election)));
    assert!(server.is_admitted(&received(3, Message::Election)));
    assert!(!server.is_admitted(&received(1, Message::Okay)));
    assert!(!server.is_admitted(&received(2, Message::Okay)));
    let backwards = Ipv4Range { start: 2, end: 1 };
    assert!(!server.is_admitted(&received(1, Message::SetPool(backwards))));
}

#[test]
fn leases_are_granted_and_shared() {
    let mut server = coordinator();
    let offer = match &react(&mut server, Event::LeaseRequest { mac_address: mac(1) })[..] {
        [Action::Offer(offer)] => *offer,
        other => panic!("{other:?}"),
    };
    assert_eq!(offer.subnet_mask, 24);
    assert_eq!(offer.lease.address, share(0, 3).start());
    let lease = Lease {
        hardware_address: mac(1),
        address: offer.lease.address,
        expiry_timestamp: at_millis(60_000),
    };
    let actions = react(
        &mut server,
        Event::ConfirmRequest {
            mac_address: mac(1),
            ip: offer.lease.address,
        },
    );
    assert_eq!(
        actions,
        vec![
            Action::Confirm(true),
            send(1, Message::Lease(lease)),
            send(2, Message::Lease(lease)),
        ]
    );
    assert_eq!(server.dhcp_service.leases, vec![lease]);
    // A peer takes the report over, and renews the lease
    let mut peer = self::server(2);
    react(&mut peer, received(3, Message::Coordinator { majority: true }));
    react(&mut peer, received(3, Message::Lease(lease)));
    assert_eq!(peer.dhcp_service.leases, vec![lease]);
    let renewed = react(
        &mut peer,
        Event::ConfirmRequest {
            mac_address: mac(1),
            ip: lease.address,
        },
    );
    assert_eq!(renewed, vec![Action::Confirm(true)]);
    // A peer that joins is told of all leases
    let actions = react(&mut server, joined(9));
    assert_eq!(actions[0], Action::Keep(9));
    assert_eq!(actions[1], send(9, Message::LeaseTable(vec![lease])));
}

#[test]
fn unknown_leases_are_denied() {
    let mut server = coordinator();
    let request = Event::ConfirmRequest {
        mac_address: mac(1),
        ip: share(0, 3).start(),
    };
    assert_eq!(react(&mut server, request), vec![Action::Confirm(false)]);
    assert!(server.dhcp_service.leases.is_empty());
}

#[test]
fn no_service_without_a_majority() {
    let mut server = server(3);
    let ip = share(0, 1).start();
    assert_eq!(
        react(&mut server, Event::LeaseRequest { mac_address: mac(1) }),
        vec![]
    );
    assert_eq!(
        react(
            &mut server,
            Event::ConfirmRequest {
                mac_address: mac(1),
                ip
            }
        ),
        vec![]
    );
    assert!(server.dhcp_service.pending_leases.is_empty());
}

#[test]
fn no_offer_from_an_empty_share() {
    let mut server = coordinator();
    react(&mut server, received(2, Message::SetPool(Ipv4Range::new(5, 5))));
    assert_eq!(
        react(&mut server, Event::LeaseRequest { mac_address: mac(1) }),
        vec![]
    );
}

#[test]
fn the_larger_lease_table_is_kept() {
    let lease = |n: u8| Lease {
        hardware_address: mac(n),
        address: Ipv4Addr::from_bits(u32::from(n)),
        expiry_timestamp: START,
    };
    let mut server = server(2);
    let table = |n: u8| (0..n).map(lease).collect::<Vec<Lease>>();
    react(&mut server, received(3, Message::LeaseTable(table(2))));
    assert_eq!(server.dhcp_service.leases, table(2));
    react(&mut server, received(3, Message::LeaseTable(vec![lease(7), lease(8)])));
    assert_eq!(server.dhcp_service.leases, table(2));
    react(&mut server, received(3, Message::LeaseTable(table(3))));
    assert_eq!(server.dhcp_service.leases, table(3));
}

#[test]
fn messages_without_consequences() {
    let mut server = server(2);
    for message in [Message::Heartbeat, Message::Join(1), Message::JoinAck(1)] {
        assert_eq!(react(&mut server, received(1, message)), vec![]);
    }
    assert_eq!(server.coordinator_id, None);
}

fn told(server: &Server, event: Event) -> Vec<(Level, String)> {
    assert!(server.is_admitted(&event));
    server
        .messages(&event)
        .into_iter()
        .map(|Entry { level, text }| (level, text))
        .collect()
}

fn info(text: &str) -> (Level, String) {
    (Level::Info, text.to_string())
}

fn debug(text: &str) -> (Level, String) {
    (Level::Debug, text.to_string())
}

#[test]
fn elections_are_told() {
    let mut server = server(2);
    assert_eq!(
        told(&server, received(3, Message::Election)),
        vec![info("Peer 3 invited Election")]
    );
    assert_eq!(
        told(&server, Event::ElectionTimeout),
        vec![info("Received OK during election")]
    );
    assert_eq!(
        told(&server, received(3, Message::Okay)),
        vec![info("Peer 3: Okay, "), info("Already stepped down")]
    );
    assert_eq!(told(&server, established(1)), vec![debug("Added peer 1")]);
    react(&mut server, established(1));
    assert_eq!(
        told(&server, established(1)),
        vec![debug("Tried to add peer 1, but already had a connection")]
    );
    assert_eq!(
        told(&server, received(1, Message::Election)),
        vec![
            info("Peer 1 invited Election"),
            info("Received Election from lower id")
        ]
    );
    assert_eq!(
        told(&server, received(3, Message::Okay)),
        vec![info("Peer 3: Okay, "), info("Stepping down to Follower")]
    );
    assert_eq!(
        told(&server, Event::ElectionTimeout),
        vec![
            info("Reached majority"),
            info("Set pool to 10.0.0.0 - 10.0.0.127")
        ]
    );
    react(&mut server, Event::ElectionTimeout);
    assert_eq!(
        told(&server, Event::ElectionTimeout),
        vec![info("Already Coordinator when election ended")]
    );
    assert_eq!(
        told(&server, joined(3)),
        vec![
            info("Peer 3 joined"),
            debug("Added peer 3"),
            info("Set pool to 10.0.0.0 - 10.0.0.85")
        ]
    );
    assert_eq!(
        told(&server, Event::IncomingPeerConnection(None)),
        vec![info("Set pool to 10.0.0.0 - 10.0.0.127")]
    );
    assert_eq!(
        told(&server, Event::PeerLost(1)),
        vec![
            info("Lost majority"),
            info("Set pool to 10.0.0.0 - 10.0.0.255")
        ]
    );
}

#[test]
fn messages_of_peers_are_told() {
    let server = server(2);
    let message = |message| told(&server, received(3, message));
    assert_eq!(
        message(Message::Coordinator { majority: true }),
        vec![info("Recognizing 3 as Coordinator"), info("Reached majority")]
    );
    assert_eq!(
        message(Message::Coordinator { majority: false }),
        vec![info("Recognizing 3 as Coordinator")]
    );
    assert_eq!(
        message(Message::SetPool(Ipv4Range::new(0, 256))),
        vec![info("Set pool to 0.0.0.0 - 0.0.1.0")]
    );
    assert_eq!(
        message(Message::Heartbeat),
        vec![debug("Received heartbeat from 3")]
    );
    let warning = |text: &str| vec![(Level::Warning, text.to_string())];
    assert_eq!(
        message(Message::Join(7)),
        warning("Server received unexpected Join(7) from peer 3")
    );
    assert_eq!(
        message(Message::JoinAck(7)),
        warning("Server received unexpected JoinAck(7) from peer 3")
    );
    let lease = Lease {
        hardware_address: mac(1),
        address: Ipv4Addr::from_bits(1),
        expiry_timestamp: START,
    };
    assert_eq!(message(Message::Lease(lease)), vec![]);
    assert_eq!(message(Message::LeaseTable(vec![])), vec![]);
    assert_eq!(
        message(Message::LeaseTable(vec![lease])),
        vec![debug("Updating leases")]
    );
}

#[test]
fn denied_leases_are_told() {
    let mut server = coordinator();
    let request = |ip: Ipv4Addr| Event::ConfirmRequest {
        mac_address: mac(1),
        ip,
    };
    let ip = share(0, 3).start();
    assert_eq!(
        told(&server, request(ip)),
        vec![
            (Level::Warning, "Can't confirm lease".to_string()),
            (
                Level::Error,
                "No lease found for (02:00:00:00:00:01, 10.0.0.0)".to_string()
            ),
        ]
    );
    let ask = Event::LeaseRequest {
        mac_address: mac(1),
    };
    assert_eq!(told(&server, ask), vec![]);
    react(
        &mut server,
        Event::LeaseRequest {
            mac_address: mac(1),
        },
    );
    assert_eq!(told(&server, request(ip)), vec![]);
    // Without a majority nothing is decided
    assert_eq!(told(&self::server(3), request(ip)), vec![]);
}

#[test]
fn the_state_is_shown() {
    let mut server = server(2);
    let rule = format!("\x1B[90m{}\x1B[0m", "-".repeat(45));
    assert_eq!("Server 2 listening to peers on 127.0.0.1:4321".len(), 45);
    assert_eq!(
        server.to_text(START),
        format!(
            "{rule}\nServer 2 listening to peers on 127.0.0.1:4321\n\n\
             \x20   Coordinator id   Unknown\n    Active peers     [ \x1B[1m2\x1B[0m ]\n\
             \x20   Current role     Follower\n    Service          No majority\n\
             \x20   Assigned range   10.0.0.0 - 10.0.0.255\n\n{rule}\n"
        )
    );
    react(&mut server, joined(3));
    react(&mut server, joined(1));
    react(&mut server, received(3, Message::Coordinator { majority: true }));
    let text = server.to_text(START);
    assert!(text.contains("Coordinator id   3\n"));
    assert!(text.contains("[ 1, \x1B[1m2\x1B[0m, 3 ]\n"));
    assert!(text.contains("Service          127.0.0.1:1234\n"));
    react(&mut server, received(1, Message::Coordinator { majority: true }));
    assert!(server.to_text(START).contains("Current role     WaitingForElection\n"));
    assert!(coordinator().to_text(START).contains("Current role     Coordinator\n"));
}

#[test]
fn a_client_gets_what_it_is_offered() {
    let mac_address = mac(1);
    let offer = DhcpOffer {
        ip: Ipv4Addr::from_bits(5),
        lease_time: 60,
        subnet_mask: 24,
    };
    for (confirmed, answer) in [(true, DhcpServerMessage::Ack), (false, DhcpServerMessage::Nack)] {
        let mut session = Session::Started;
        assert_eq!(
            session.step(ClientEvent::Received(DhcpClientMessage::Discover { mac_address })),
            ClientAction::RequestLease { mac_address }
        );
        assert_eq!(
            session.step(ClientEvent::Offered(offer)),
            ClientAction::SendOffer(offer)
        );
        assert_eq!(session.step(ClientEvent::Sent), ClientAction::Receive);
        assert_eq!(
            session.step(ClientEvent::Received(DhcpClientMessage::Request {
                mac_address,
                ip: offer.ip
            })),
            ClientAction::RequestConfirmation {
                mac_address,
                ip: offer.ip
            }
        );
        assert_eq!(
            session.step(ClientEvent::Confirmed(confirmed)),
            ClientAction::Finish(answer)
        );
        assert_eq!(session, Session::Closed);
        assert_eq!(session.step(ClientEvent::Sent), ClientAction::Abandon);
    }
}

#[test]
fn a_client_without_an_offer_is_refused() {
    let mut session = Session::Started;
    session.step(ClientEvent::Received(DhcpClientMessage::Discover {
        mac_address: mac(1),
    }));
    assert_eq!(
        session.step(ClientEvent::NotOffered),
        ClientAction::Finish(DhcpServerMessage::Nack)
    );
}

#[test]
fn renewals_are_answered() {
    let request = DhcpClientMessage::Request {
        mac_address: mac(1),
        ip: Ipv4Addr::from_bits(5),
    };
    for (event, answer) in [
        (ClientEvent::Confirmed(true), DhcpServerMessage::Ack),
        (ClientEvent::Confirmed(false), DhcpServerMessage::Nack),
        (ClientEvent::NotConfirmed, DhcpServerMessage::Nack),
    ] {
        let mut session = Session::Started;
        session.step(ClientEvent::Received(request));
        assert_eq!(session.step(event), ClientAction::Finish(answer));
    }
}

#[test]
fn sessions_that_break_off() {
    let discover = DhcpClientMessage::Discover {
        mac_address: mac(1),
    };
    let offer = DhcpOffer {
        ip: Ipv4Addr::from_bits(5),
        lease_time: 60,
        subnet_mask: 24,
    };
    let mut silent = Session::Started;
    assert_eq!(silent.step(ClientEvent::ReceiveFailed), ClientAction::Abandon);

    let mut gone = Session::Started;
    gone.step(ClientEvent::Received(discover));
    gone.step(ClientEvent::Offered(offer));
    assert_eq!(gone.step(ClientEvent::SendFailed), ClientAction::Abandon);

    let mut confused = Session::Started;
    confused.step(ClientEvent::Received(discover));
    confused.step(ClientEvent::Offered(offer));
    confused.step(ClientEvent::Sent);
    assert_eq!(
        confused.step(ClientEvent::Received(discover)),
        ClientAction::Abandon
    );
    assert_eq!(confused, Session::Closed);

    let mut unanswered = Session::AwaitingConfirmation;
    assert_eq!(
        unanswered.step(ClientEvent::NotConfirmed),
        ClientAction::Abandon
    );
}

#[test]
fn the_configuration_of_a_server() {
    let config = Config::from_file(file(7, &[1, 2]), Some(6));
    assert_eq!(config.dhcp_pool, share(0, 1));
    assert_eq!(config.prefix_length, 24);
    assert_eq!(config.lease_time, Duration::from_secs(60));
    assert_eq!(config.listen_cluster, "127.0.0.1:4321");
    assert_eq!(config.listen_dhcp, "127.0.0.1:1234");
    assert_eq!(config.client_timeout, Duration::from_secs(10));
    assert_eq!(config.thread_count, 4);
    assert_eq!(config.id, 7);
    assert_eq!(config.heartbeat_timeout, Duration::from_millis(500));
    assert_eq!(config.connect_timeout, Some(Duration::from_secs(10)));
    assert_eq!(config.peers.len(), 2);
    assert_eq!(config.peers[1].host, "peer2.example.com:4321");
}

#[test]
fn what_the_configuration_file_leaves_open() {
    let with = |timeout, threads, connect| {
        let mut file = file(7, &[]);
        file.server.client_timeout_seconds = timeout;
        file.server.thread_count = threads;
        file.cluster.connect_timeout_seconds = connect;
        file
    };
    let config = Config::from_file(with(Some(3), None, Some(5)), Some(6));
    assert_eq!(config.client_timeout, Duration::from_secs(3));
    assert_eq!(config.thread_count, 24);
    assert_eq!(config.connect_timeout, Some(Duration::from_secs(5)));
    let config = Config::from_file(with(Some(0), Some(0), Some(0)), None);
    assert_eq!(config.client_timeout, Duration::from_secs(10));
    assert_eq!(config.thread_count, 8);
    assert_eq!(config.connect_timeout, None);
}
