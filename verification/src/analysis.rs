//! Derived runtime insight over the event stream: incremental analyses that
//! fold events and emit findings with an explicit confidence, plus
//! architecture-aware control-flow hints.
pub mod analyzer;
pub mod analyzers;
pub mod classify;
pub mod finding;
pub mod register;
pub mod tally;
