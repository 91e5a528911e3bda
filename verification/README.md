# exit_node_manager

Verified route bookkeeping for a virtual network: exit nodes (virtual
addresses that traffic leaves through, the real addresses they resolve to,
and the routes installed for them) and peer routes (a host route to the
public address of each connected peer).

- `src/ip.rs`: IP addresses and a map between them.
- `src/route.rs`: exit-node configurations, routes, route commands.
- `src/model.rs`: the model of the exit-node manager; every operation is a
  transition of it.
- `src/manager.rs`: the exit-node manager. Operations that change the routing
  table hand out one command at a time and are resumed with its outcome.
- `src/peer_routes.rs`: the peer-route manager, in the same style.
- `src/text.rs`, `src/gateway.rs`: lines, words and hexadecimal numbers,
  IPv4 and IPv6 address text, and the default gateway in `/proc/net/route`,
  `route print` and `netstat -nr` output.
- `src/laws.rs`: what holds across operations.
- `src/history.rs`: what holds across whole histories of operations, from a
  new manager on.
- `app/`: the asynchronous managers that talk to the routing table and the
  operating system, lock the state and log.
