//! Bounded trace capture: the ring buffer, selective filters, the trace
//! format's metadata rules and the recorder.
pub mod filter;
pub mod record;
pub mod recorder;
pub mod ring;
