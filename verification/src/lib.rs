//! A debugger, execution tracer and runtime-analysis core: the domain model,
//! bounded trace capture, symbol resolution, analyses, a deterministic
//! simulated backend, the command palette and the text-protocol parsers.
pub mod text;
pub mod num;
pub mod bind_core;
pub mod trace;
pub mod symbols;
pub mod analysis;
pub mod debugger;
pub mod tra86;
pub mod tui;
pub mod storage;
pub mod lldb;
pub mod diag;
