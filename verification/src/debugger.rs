//! The backend contract and a deterministic simulated backend.
//!
//! A `DebugBackend` maps a concrete debugger engine onto the domain model.
//! `MockBackend` simulates a tiny aarch64 program so that everything above
//! the backend runs with no debugger and no target process.
pub mod backend;
pub mod mock;
pub mod worker;
pub mod select;
