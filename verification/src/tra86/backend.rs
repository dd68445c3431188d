//! The tracer's backend contract, its errors, the orchestrator that owns the
//! active backend, and a simulated backend.
pub mod error;
pub mod traits;
pub mod terminal;
pub mod orchestrator;
pub mod mock;
