# tracker_cluster

A small cluster of tracking nodes that elect a leader with the bully
algorithm, keep restaurant locations in a database chosen by their role, and
sit behind a gRPC proxy that routes writes to the leader.

- `src/` is the verified library (Verus): the election state machine
  (`peer_client`), the node settings and the `CLUSTER_NODES` reader
  (`config`), the node's shared state (`app_state`), the texts peers
  exchange (`peer_server`, `text`), the proxy's routing table
  (`tracker_proxy`), the Redis store selection (`redis_factory`), the
  restaurant service settings (`restaurant_config`) and the web answers
  (`web_server`), and which addresses tonic accepts (`endpoint`).
- `app/` is the program around it: environment, gRPC and HTTP servers and
  clients, databases, timers. `app/main.rs` takes the program to run as its
  first argument: `node`, `tracker`, `tracking`, `proxy` or `restaurant`.
- `tests/` runs the library on concrete values.
