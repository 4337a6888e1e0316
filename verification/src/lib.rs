//! Process supervisor core: the verified lifecycle engine.
//!
//! The library models a supervisor that launches externally specified child
//! processes, tracks each one through a small state machine, and publishes
//! lifecycle notifications to subscribers.  Everything that computes or
//! decides lives here; forking, signals and I/O are the caller's.

pub mod clock;
pub mod env;
pub mod envjson;
pub mod err;
pub mod fd;
pub mod launch;
pub mod order;
pub mod proc;
pub mod registry;
pub mod state;
