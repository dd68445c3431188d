//! The x86-64 / AArch64 assembly tracer: its domain model, backend contract
//! and simulated backend, delta analysis, session state machine, command-line
//! parsing and the parsers of LLDB's text output.
pub mod model;
pub mod analysis;
pub mod ui;
pub mod backend;
pub mod runtime;
pub mod cli;
pub mod app;
pub mod lldb_output;
pub mod listing;
pub mod shell;
pub mod lldb_commands;
pub mod lldb_exchange;
pub mod lldb_backend;
