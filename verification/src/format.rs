//! The state file: what it holds, and which of it each format version allows.
pub mod wire;
pub mod versioned;
pub mod current;
pub mod reading_laws;
