//! A deterministic network and scheduler for simulating actor systems.
//!
//! The crate holds the decision logic of a simulation: which registered
//! endpoints can reach which, which queued component runs next, how a
//! simulation step proceeds, how monitored states are recorded, and the
//! protobuf messages exchanged by the example actors.

pub mod address;
pub mod seq_facts;
pub mod network;
pub mod scheduler;
pub mod report;
pub mod state;
pub mod scenario;
pub mod pb;
pub mod messages;
pub mod bridge;
