//! A terminal attached to the debuggee.
use vstd::prelude::*;
use crate::tra86::backend::error::BackendError;

verus! {

pub trait TerminalIo: Send + Sync {
    fn write_input(&self, input: &str) -> Result<(), BackendError>;

    fn drain_output(&self) -> String;
}

} // verus!
