//! What the client leaves to chance.

use crate::client::config::Config;
use crate::protocol::MacAddr;
use rand::Rng;
use vstd::prelude::*;

verus! {

/// Draws a number below `bound` with [`rand::Rng::gen_range`].
///
/// All that is stated is that the number lies in the range. Which one it is is left to chance. The
/// range must not be empty, for `gen_range` panics on one that is.
#[verifier::external_body]
fn random_below(bound: usize) -> (n: usize)
    requires
        bound > 0,
    ensures
        n < bound,
{
    rand::thread_rng().gen_range(0..bound)
}

/// Draws six bytes with [`rand::Rng::gen`].
///
/// Nothing is stated of them: each may be any byte.
#[verifier::external_body]
fn random_bytes() -> (bytes: [u8; 6]) {
    rand::thread_rng().gen()
}

/// The configured server with this number.
pub fn server_at(config: &Config, i: usize) -> (server: &str)
    requires
        i < config.servers@.len(),
    ensures
        server@ == config.servers@[i as int]@,
{
    config.servers[i].as_str()
}

/// One of the configured servers.
pub fn random_server(config: &Config) -> (server: &str)
    requires
        config.servers@.len() > 0,
    ensures
        exists|i: int| 0 <= i < config.servers@.len() && server@ == #[trigger] config.servers@[i]@,
{
    let i: usize = random_below(config.servers.len());
    server_at(config, i)
}

/// Some MAC address.
pub fn random_mac_addr() -> MacAddr {
    let bytes = random_bytes();
    MacAddr::from(bytes)
}

} // verus!
