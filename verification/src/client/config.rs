//! Client configuration.

use crate::text::{decimal, push_decimal};
use crate::time::{Duration, NANOS_PER_SEC};
use vstd::prelude::*;

verus! {

/// The number of threads where neither the configuration file nor the system says it.
pub const DEFAULT_THREADS: usize = 8;

/// What a configuration file holds.
#[derive(Debug)]
pub struct File {
    pub servers: Vec<String>,
    pub default_port: u16,
    pub timeout_seconds: Option<u64>,
    pub thread_count: Option<usize>,
}

/// Client configuration.
#[derive(Debug)]
pub struct Config {
    pub servers: Vec<String>,
    pub default_port: u16,
    pub timeout: Option<Duration>,
    pub thread_count: usize,
}

/// The first `n` of `servers`, one in a line, with their numbers.
pub open spec fn server_lines(servers: Seq<String>, n: nat) -> Seq<char>
    decreases n,
{
    if n == 0 {
        Seq::empty()
    } else {
        server_lines(servers, (n - 1) as nat) + "\x1b[36m"@ + decimal((n - 1) as nat)
            + "\x1b[0m: "@ + servers[n - 1]@ + "\n"@
    }
}

/// The servers with their numbers, as a person reads them.
pub open spec fn list_text(servers: Seq<String>) -> Seq<char> {
    "---- Configured Servers ----\n"@ + server_lines(servers, servers.len()) + "\n"@
}

impl Config {
    /// The configuration that a file describes. `parallelism` is the number of threads that the
    /// system can run at once, if it is known.
    pub fn from_file(file: File, parallelism: Option<usize>) -> (config: Config)
        requires
            parallelism matches Some(n) ==> n > 0,
        ensures
            config.servers == file.servers,
            config.default_port == file.default_port,
            match file.timeout_seconds {
                Some(secs) => config.timeout is Some && config.timeout->Some_0.nanos == secs
                    * NANOS_PER_SEC,
                None => config.timeout is None,
            },
            config.thread_count == (match (file.thread_count, parallelism) {
                (Some(count), _) if count != 0 => count,
                (_, Some(n)) => n,
                (_, None) => DEFAULT_THREADS,
            }),
            config.thread_count > 0,
    {
        let timeout = match file.timeout_seconds {
            Some(secs) => Some(Duration::from_secs(secs)),
            None => None,
        };
        // Use thread count in config file if defined as > 0,
        // otherwise use what the system can run at once,
        // and if all else fails, use a default
        let thread_count: usize = match (file.thread_count, parallelism) {
            (Some(count), _) if count != 0 => count,
            (_, Some(n)) => n,
            (_, None) => DEFAULT_THREADS,
        };
        Config { servers: file.servers, default_port: file.default_port, timeout, thread_count }
    }

    /// The configured servers with their numbers, as a person reads them.
    pub fn list(&self) -> (text: String)
        ensures
            text@ == list_text(self.servers@),
    {
        let mut text = String::new();
        text.append("---- Configured Servers ----\n");
        let ghost head = text@;
        assert(head =~= "---- Configured Servers ----\n"@);
        let mut i: usize = 0;
        assert(text@ =~= head + server_lines(self.servers@, 0));
        while i < self.servers.len()
            invariant
                i <= self.servers@.len(),
                text@ == head + server_lines(self.servers@, i as nat),
            decreases self.servers@.len() - i,
        {
            text.append("\x1b[36m");
            push_decimal(&mut text, i as u64);
            text.append("\x1b[0m: ");
            text.append(self.servers[i].as_str());
            text.append("\n");
            assert(text@ =~= head + server_lines(self.servers@, (i + 1) as nat));
            i = i + 1;
        }
        text.append("\n");
        text
    }
}

} // verus!
