//! Servers that shake hands with their peers, over streams that are played back.

use dhcpcluster::config::{Config, Peer as ConfigPeer};
use dhcpcluster::dhcp::Ipv4Range;
use dhcpcluster::net::Ipv4Addr;
use dhcpcluster::server::peer::message::Message;
use dhcpcluster::server::peer::{ConnectStep, HandshakeError, Id, JoinSuccess, Outgoing, Peer};
use dhcpcluster::server::{Action, Event, Server};
use dhcpcluster::time::{Duration, Timestamp};
use std::collections::{HashMap, VecDeque};

const LOCALHOST: u32 = 0x7f00_0001;
const NOW: Timestamp = Timestamp { nanos: 1_000_000_000 };

#[derive(Default)]
struct MockStream {
    connected: bool,
    sent: Vec<Message>,
    replies: VecDeque<Message>,
}

impl MockStream {
    fn new(replies: Vec<Message>) -> Self {
        MockStream {
            connected: false,
            sent: Vec::new(),
            replies: replies.into(),
        }
    }
}

/// The streams that peers have set up, by their addresses.
type Streams = HashMap<String, MockStream>;

fn localhost_addresses(n: u32) -> Vec<String> {
    (0..n)
        .map(|nth| {
            let mut text = String::new();
            Ipv4Addr::from_bits(LOCALHOST + nth).push_text(&mut text);
            text.push_str(":4321");
            text
        })
        .collect()
}

fn config(listen_cluster: &str, hosts: &[String]) -> Config {
    Config {
        dhcp_pool: Ipv4Range::from_cidr(Ipv4Addr::parse("192.168.0.0").unwrap(), 24),
        prefix_length: 24,
        lease_time: Duration::from_secs(60),
        listen_cluster: listen_cluster.to_string(),
        listen_dhcp: "0.0.0.0:67".to_string(),
        client_timeout: Duration::from_secs(10),
        thread_count: 1,
        id: 0,
        heartbeat_timeout: Duration::from_millis(100),
        connect_timeout: None,
        peers: hosts
            .iter()
            .enumerate()
            .map(|(i, host)| ConfigPeer {
                id: i as Id + 1,
                host: host.clone(),
            })
            .collect(),
    }
}

/// Connects to a peer whose name stands for its one address.
fn connect(own_id: Id, peer: &ConfigPeer, streams: &mut Streams) -> Result<JoinSuccess, HandshakeError> {
    let mut step = Peer::connect(peer, 1);
    loop {
        match step {
            ConnectStep::Dial(i) => {
                let found = match streams.get_mut(&peer.host) {
                    Some(stream) => {
                        assert!(!stream.connected);
                        stream.connected = true;
                        true
                    }
                    None => false,
                };
                step = Peer::after_dial(peer, 1, i, found);
            }
            ConnectStep::Handshake => {
                let stream = streams.get_mut(&peer.host).unwrap();
                stream.sent.push(Peer::join(own_id));
                let reply = stream.replies.pop_front().unwrap();
                return Peer::start_handshake(peer.id, reply);
            }
            ConnectStep::Failed(e) => return Err(e),
        }
    }
}

/// A server that has tried to connect to all of its peers.
fn connected_server(config: Config, streams: &mut Streams) -> Server {
    let mut joined = Vec::new();
    for peer in &config.peers {
        if let Ok(success) = connect(config.id, peer, streams) {
            joined.push(success);
        }
    }
    let mut server = Server::start(config);
    for success in joined {
        let event = Event::EstablishedPeerConnection(success);
        assert!(server.is_admitted(&event));
        server.handle_event(event, NOW);
    }
    server
}

fn cluster_connect_to_n_peers(n: u32) {
    let hosts = localhost_addresses(n);
    let mut streams: Streams = hosts
        .iter()
        .enumerate()
        .map(|(id, host)| {
            (
                host.clone(),
                MockStream::new(vec![Message::JoinAck(id as u32 + 1)]),
            )
        })
        .collect();

    let server = connected_server(config("0.0.0.0:1234", &hosts), &mut streams);

    assert!(server.coordinator_id.is_none());
    assert!(server.dhcp_service.leases.is_empty());
    assert_eq!(server.config.id, 0);
    assert_eq!(server.peers.len(), n as usize);
    assert_eq!(streams.len(), n as usize);
    for host in hosts {
        let stream = &streams[&host];
        assert_eq!(stream.sent, vec![Message::Join(0)]);
        assert!(stream.connected);
    }
}

#[test]
fn cluster_connect_to_no_peers() {
    let mut streams = Streams::new();
    let server = connected_server(config("0.0.0.0:1234", &[]), &mut streams);
    assert!(server.peers.is_empty());
    assert!(server.coordinator_id.is_none());
    assert!(server.dhcp_service.leases.is_empty());
    assert_eq!(server.config.id, 0);
    assert!(streams.is_empty());
}

#[test]
fn cluster_connect_to_one_peer() {
    cluster_connect_to_n_peers(1);
}

#[test]
fn cluster_connect_to_two_peers() {
    cluster_connect_to_n_peers(2);
}

#[test]
fn cluster_connect_to_thousand_peers() {
    cluster_connect_to_n_peers(1024);
}

#[test]
fn cluster_connect_to_offline_peer() {
    let peer_1_addr = "123.123.123.123:8909".to_string();
    let mut streams = Streams::new();
    let server = connected_server(config("0.0.0.0:1234", &[peer_1_addr]), &mut streams);

    assert!(server.peers.is_empty());
    assert!(streams.is_empty());
}

fn cluster_handle_incoming_handshake_from_n_peers(n: u32) {
    let hosts = localhost_addresses(n);
    let mut incoming: Vec<MockStream> = (0..n)
        .map(|id| MockStream::new(vec![Message::Join(id + 1)]))
        .collect();
    // No peer has set up a stream to be connected to
    let mut server = connected_server(config("127.0.0.1:1234", &hosts), &mut Streams::new());

    let mut handled = 0;
    for stream in &mut incoming {
        let message = stream.replies.pop_front().unwrap();
        let (peer_id, reply) = server.answer_handshake(message).unwrap();
        stream.sent.push(reply);
        let event = Event::IncomingPeerConnection(Some(peer_id));
        assert!(server.is_admitted(&event));
        for action in server.handle_event(event, NOW) {
            match action {
                Action::Send { to, message } => {
                    assert_eq!(to, peer_id);
                    stream.sent.push(message);
                }
                Action::Keep(id) => assert_eq!(id, peer_id),
                other => panic!("{other:?}"),
            }
        }
        handled += 1;
    }

    assert_eq!(handled, n);
    assert_eq!(server.peers.len(), n as usize);
    for server_replies in incoming.iter().map(|stream| &stream.sent) {
        assert_eq!(server_replies.len(), 1);
        assert_eq!(server_replies[0], Message::JoinAck(0));
    }
}

#[test]
fn cluster_handle_incoming_handshake_from_one_peer() {
    cluster_handle_incoming_handshake_from_n_peers(1);
}

#[test]
fn cluster_handle_incoming_handshake_from_thousand_peers() {
    cluster_handle_incoming_handshake_from_n_peers(1024);
}

#[test]
fn handshakes_that_go_wrong() {
    let server = Server::start(config("127.0.0.1:1234", &[]));
    assert_eq!(
        server.answer_handshake(Message::Heartbeat),
        Err(HandshakeError::NoJoin(Message::Heartbeat))
    );
    assert_eq!(
        Peer::start_handshake(7, Message::Okay),
        Err(HandshakeError::NoJoinAck(Message::Okay))
    );
    assert_eq!(
        Peer::start_handshake(7, Message::JoinAck(8)),
        Err(HandshakeError::IdMismatch {
            expected: 7,
            received: 8
        })
    );
    assert_eq!(
        Peer::start_handshake(7, Message::JoinAck(7)),
        Ok(JoinSuccess { peer_id: 7 })
    );
}

#[test]
fn addresses_are_tried_in_turn() {
    let peer = ConfigPeer {
        id: 3,
        host: "peer.example.com:4321".to_string(),
    };
    assert_eq!(
        Peer::connect(&peer, 0),
        ConnectStep::Failed(HandshakeError::Unreachable {
            peer_id: 3,
            name: "peer.example.com:4321".to_string()
        })
    );
    assert_eq!(Peer::connect(&peer, 2), ConnectStep::Dial(0));
    assert_eq!(Peer::after_dial(&peer, 2, 0, false), ConnectStep::Dial(1));
    assert_eq!(Peer::after_dial(&peer, 2, 0, true), ConnectStep::Handshake);
    assert_eq!(
        Peer::after_dial(&peer, 2, 1, false),
        ConnectStep::Failed(HandshakeError::Connect { peer_id: 3 })
    );
}

#[test]
fn messages_after_the_handshake() {
    assert_eq!(
        Peer::read_step(Message::Okay, false),
        (Some(Message::Okay), true)
    );
    assert_eq!(
        Peer::read_step(Message::Okay, true),
        (Some(Message::Okay), false)
    );
    assert_eq!(Peer::read_step(Message::Join(1), false), (None, false));
    assert_eq!(Peer::read_step(Message::JoinAck(1), false), (None, false));
    assert_eq!(
        Peer::write_step(Outgoing::Message(Message::Election)),
        Some(Message::Election)
    );
    assert_eq!(
        Peer::write_step(Outgoing::Timeout),
        Some(Message::Heartbeat)
    );
    assert_eq!(Peer::write_step(Outgoing::Disconnected), None);
    assert_eq!(
        Peer::read_timeout(Duration::from_millis(500)),
        Duration::from_millis(1500)
    );
}
