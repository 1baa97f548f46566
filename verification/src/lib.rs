//! Durable runtime state for an agent bridge: sessions, inbound events, queued
//! messages, agent runs and outbound deliveries, with the rules by which they
//! change and the rules by which they are read back from a state file.
pub mod fault;
pub mod keyed;
pub mod text;
pub mod text_laws;
pub mod clock;
pub mod session;
pub mod message;
pub mod event;
pub mod outbox;
pub mod outbox_laws;
pub mod run;
pub mod run_laws;
pub mod queue;
pub mod queue_laws;
pub mod state;
pub mod record_laws;
pub mod format;
pub mod store;
pub mod outcome_laws;
pub mod paths;
