//! The runtime state: its model, its validity, and the operations on it.
pub mod view;
pub mod validity;
pub mod validity_laws;
pub mod model;
mod validate;
pub mod session_run;
pub mod outbound;
pub mod recover;
pub mod recovery_laws;
pub mod inbound;
pub mod inbound_laws;
pub mod merge;
pub mod completion;
pub mod persisted;
pub mod keeping;
pub mod keeping_queue;
pub mod claim_laws;
pub mod step_laws;
pub mod refusal_laws;
pub mod fault_laws;
pub mod laws;

pub use self::model::RuntimeState;
