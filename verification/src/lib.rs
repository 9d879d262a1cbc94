//! A distributed DHCP server and the command line client that queries it.

pub mod client;
pub mod config;
pub mod console;
pub mod dhcp;
pub mod net;
pub mod protocol;
pub mod search;
pub mod server;
pub mod text;
pub mod thread_pool;
pub mod time;
pub mod toml_config;
