# DHCP Cluster

A distributed DHCP server with shared state, and a command line client to try it out. It speaks a
protocol of its own, not DHCP.

- All servers know all leases: a lease that one server grants is reported to the others, and any of
  them can renew it.
- The servers elect a leader with the bully algorithm. The leader divides the address pool among
  them, so that no two offer the same address.
- The cluster serves clients only while more than half of its servers are in contact.

## Layout

- `src/` is the library. It holds the decisions: address pools and lease tables (`dhcp`), elections
  and what follows from each event (`server`), handshakes (`server::peer`), what clients are answered
  (`server::client`), what the server says and the terminal shows (`console`, `server::journal`,
  `server::status`), the books of the thread
  pool (`thread_pool`), and the commands, queries and leases of the client (`client`). What they
  return is stated in contracts, proved with [Verus](https://github.com/verus-lang/verus). What holds of the library
  as a whole is stated by the proof functions whose names start with `law_`.
- `app/` is the program around it: sockets, threads, the terminal, configuration files, and messages
  in CBOR. `dhcpcluster server [CONFIG]` runs a server, `dhcpcluster client [CONFIG]` the client.
- `tests/` runs the library.

What is not proved is what the library takes from elsewhere: the system clock and the text of a time
span (`time`), and random numbers (`client::random`).
