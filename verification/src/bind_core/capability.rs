//! What a backend can do, reported field by field.
use vstd::prelude::*;

verus! {

#[derive(Debug, Clone, Copy, PartialEq, Eq, Structural)]
pub struct Capabilities {
    pub launch: bool,
    pub attach: bool,
    pub core_files: bool,
    pub detach: bool,
    /// Reliable asynchronous pause of a running process.
    pub async_pause: bool,
    pub step_instruction: bool,
    pub step_source: bool,
    pub breakpoints: bool,
    pub conditional_breakpoints: bool,
    pub watchpoints: bool,
    pub read_memory: bool,
    pub write_memory: bool,
    pub disassemble: bool,
    pub registers: bool,
    /// Backend surfaces JIT code load notifications.
    pub jit_events: bool,
    pub symbol_resolution: bool,
    pub source_resolution: bool,
}

impl Capabilities {
    /// Nothing is supported: the baseline backends override.
    pub open spec fn is_none(self) -> bool {
        !self.launch && !self.attach && !self.core_files && !self.detach && !self.async_pause
            && !self.step_instruction && !self.step_source && !self.breakpoints
            && !self.conditional_breakpoints && !self.watchpoints && !self.read_memory
            && !self.write_memory && !self.disassemble && !self.registers && !self.jit_events
            && !self.symbol_resolution && !self.source_resolution
    }

    pub fn none() -> (c: Capabilities)
        ensures
            c.is_none(),
    {
        Capabilities {
            launch: false,
            attach: false,
            core_files: false,
            detach: false,
            async_pause: false,
            step_instruction: false,
            step_source: false,
            breakpoints: false,
            conditional_breakpoints: false,
            watchpoints: false,
            read_memory: false,
            write_memory: false,
            disassemble: false,
            registers: false,
            jit_events: false,
            symbol_resolution: false,
            source_resolution: false,
        }
    }
}

} // verus!
