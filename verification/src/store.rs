//! The state store: what is read from the state file, what is decided on it, and
//! what is to be written back.
//!
//! A store holds the content of its file as it was last read or written. Every
//! operation decides on that content and gives back a transition: an outcome, and
//! what has to happen to the file before the outcome may be used. Whoever performs
//! that reports how it went, and the store settles the transition accordingly.
pub mod file_store;
pub mod save;
pub mod inbound;
pub mod outbound;
pub mod recovery;
pub mod outbound_resolution;
pub mod run;
pub mod merge_laws;
pub mod merge_contents_laws;
pub mod merge_acceptance_laws;
pub mod addition_laws;
pub mod laws;
pub mod snapshot_laws;
pub mod operation_laws;
pub mod refusal_laws;

pub use self::file_store::{DiskReport, StateFileContent, StateStore, StoreAction, Transition};
