//! The debugger-independent domain model: addresses, architectures, ids,
//! threads/frames/registers/breakpoints, the normalized event stream, typed
//! commands, capabilities, errors and the session snapshot.
pub mod address;
pub mod arch;
pub mod capability;
pub mod command;
pub mod error;
pub mod event;
pub mod id;
pub mod model;
pub mod snapshot;
