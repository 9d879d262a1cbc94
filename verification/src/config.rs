//! Server configuration.

use crate::dhcp::Ipv4Range;
use crate::net::Ipv4Addr;
use crate::server::peer::Id;
use crate::time::{Duration, NANOS_PER_SEC};
use vstd::arithmetic::power2::pow2;
use vstd::prelude::*;

verus! {

/// How long to wait for a client or a peer where the configuration file does not say it.
pub const DEFAULT_TIMEOUT_SECS: u64 = 10;

/// The number of threads where neither the configuration file nor the system says it.
pub const DEFAULT_THREADS: usize = 8;

/// The number of threads for each processor.
pub const THREADS_PER_CPU: usize = 4;

/// The network to serve.
#[derive(Debug)]
pub struct DhcpSection {
    pub net: Ipv4Addr,
    pub prefix_length: u32,
    pub lease_time_seconds: u64,
}

/// Where and how to serve.
#[derive(Debug)]
pub struct ServerSection {
    pub listen_cluster: String,
    pub listen_dhcp: String,
    pub client_timeout_seconds: Option<u64>,
    pub thread_count: Option<usize>,
}

/// This server's place in the cluster.
#[derive(Debug)]
pub struct ClusterSection {
    pub id: Id,
    pub heartbeat_timeout_millis: u64,
    pub connect_timeout_seconds: Option<u64>,
}

/// Another server of the cluster.
#[derive(Debug)]
pub struct Peer {
    pub id: Id,
    pub host: String,
}

/// What a configuration file holds.
#[derive(Debug)]
pub struct File {
    pub dhcp: DhcpSection,
    pub server: ServerSection,
    pub cluster: ClusterSection,
    pub peers: Vec<Peer>,
}

/// Server configuration.
#[derive(Debug)]
pub struct Config {
    pub dhcp_pool: Ipv4Range,
    pub prefix_length: u32,
    pub lease_time: Duration,
    pub listen_cluster: String,
    pub listen_dhcp: String,
    pub client_timeout: Duration,
    pub thread_count: usize,
    pub id: Id,
    pub heartbeat_timeout: Duration,
    pub connect_timeout: Option<Duration>,
    pub peers: Vec<Peer>,
}

impl Config {
    pub open spec fn wf(self) -> bool {
        &&& self.dhcp_pool.wf()
        &&& self.lease_time.wf()
        &&& self.client_timeout.wf()
        &&& self.heartbeat_timeout.wf()
        &&& self.thread_count > 0
    }

    /// The configuration that a file describes. `parallelism` is the number of threads that the
    /// system can run at once, if it is known.
    pub fn from_file(file: File, parallelism: Option<usize>) -> (config: Config)
        requires
            Ipv4Range::cidr_fits(file.dhcp.net, file.dhcp.prefix_length),
            parallelism matches Some(n) ==> 0 < n && n * THREADS_PER_CPU <= usize::MAX,
        ensures
            config.wf(),
            config.dhcp_pool.start == file.dhcp.net.bits,
            config.dhcp_pool.end == file.dhcp.net.bits + pow2(
                (32 - file.dhcp.prefix_length) as nat,
            ) - 1,
            config.prefix_length == file.dhcp.prefix_length,
            config.lease_time.nanos == file.dhcp.lease_time_seconds * NANOS_PER_SEC,
            config.listen_cluster == file.server.listen_cluster,
            config.listen_dhcp == file.server.listen_dhcp,
            config.client_timeout.nanos == (match file.server.client_timeout_seconds {
                Some(secs) if secs != 0 => secs,
                _ => DEFAULT_TIMEOUT_SECS,
            }) * NANOS_PER_SEC,
            config.thread_count == (match (file.server.thread_count, parallelism) {
                (Some(count), _) if count != 0 => count as int,
                (_, Some(n)) => n * THREADS_PER_CPU,
                (_, None) => DEFAULT_THREADS as int,
            }),
            config.id == file.cluster.id,
            config.heartbeat_timeout.nanos == file.cluster.heartbeat_timeout_millis * 1_000_000,
            match file.cluster.connect_timeout_seconds {
                None => config.connect_timeout is Some && config.connect_timeout->Some_0.nanos
                    == DEFAULT_TIMEOUT_SECS * NANOS_PER_SEC,
                Some(secs) => if secs == 0 {
                    config.connect_timeout is None
                } else {
                    config.connect_timeout is Some && config.connect_timeout->Some_0.nanos == secs
                        * NANOS_PER_SEC
                },
            },
            config.peers == file.peers,
    {
        let dhcp = file.dhcp;
        let server = file.server;
        let cluster = file.cluster;
        let client_timeout = match server.client_timeout_seconds {
            Some(secs) if secs != 0 => Duration::from_secs(secs),
            _ => Duration::from_secs(DEFAULT_TIMEOUT_SECS),
        };
        let thread_count: usize = match (server.thread_count, parallelism) {
            (Some(count), _) if count != 0 => count,
            (_, Some(n)) => n * THREADS_PER_CPU,
            (_, None) => DEFAULT_THREADS,
        };
        let connect_timeout = match cluster.connect_timeout_seconds {
            None => Some(Duration::from_secs(DEFAULT_TIMEOUT_SECS)),
            Some(secs) => if secs != 0 {
                Some(Duration::from_secs(secs))
            } else {
                None
            },
        };
        Config {
            // DHCP
            dhcp_pool: Ipv4Range::from_cidr(dhcp.net, dhcp.prefix_length),
            prefix_length: dhcp.prefix_length,
            lease_time: Duration::from_secs(dhcp.lease_time_seconds),
            // Server
            listen_cluster: server.listen_cluster,
            listen_dhcp: server.listen_dhcp,
            client_timeout,
            thread_count,
            // Cluster
            id: cluster.id,
            heartbeat_timeout: Duration::from_millis(cluster.heartbeat_timeout_millis),
            connect_timeout,
            peers: file.peers,
        }
    }
}

} // verus!
