# kompact_sim

Verified decision logic for deterministic simulation of actor systems.

- `src/network.rs`: the simulated network — registered endpoints, clogged
  systems and clogged directed links — with reachability and message counting.
- `src/scheduler.rs`, `src/scenario.rs`: the scheduler's modes and FIFO queue,
  the bookkeeping of simulation steps and of recorded actor states.
- `src/report.rs`: decimal rendering of step numbers and the state record text.
- `src/state.rs`: the traits that monitored actors and invariants implement.
- `src/bridge.rs`, `src/address.rs`: system addresses and the routing of sends.
- `src/messages.rs`, `src/pb.rs`: the `SearchRequest` / `SearchResponse`
  protobuf messages (sizing, writing, and parsing a stream tag by tag), over
  the protobuf runtime's trusted items.
- `app/`: the runtime glue: shared handles, the random loss draw (a float
  rate), the state file, and the protobuf `Message` impls.
