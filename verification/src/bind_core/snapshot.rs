//! The immutable read model the UI renders.
use vstd::prelude::*;
use crate::bind_core::capability::Capabilities;
use crate::bind_core::id::SessionId;
use crate::bind_core::model::{
    Breakpoint, Frame, Instruction, MemoryRegion, Module, ProcessInfo, RegisterChange, RegisterSet,
    ThreadInfo, Watchpoint, StopReason, ProcessLifecycle,
};
use crate::bind_core::arch::{Architecture, Endianness};

verus! {

#[derive(Debug, Clone, PartialEq, Eq)]
pub struct SessionSnapshot {
    pub session: SessionId,
    pub backend_name: String,
    pub capabilities: Capabilities,
    pub process: ProcessInfo,
    pub program: Option<String>,
    pub threads: Vec<ThreadInfo>,
    pub frames: Vec<Frame>,
    pub registers: Option<RegisterSet>,
    /// Register changes relative to the previous stop.
    pub register_changes: Vec<RegisterChange>,
    pub disassembly: Vec<Instruction>,
    pub breakpoints: Vec<Breakpoint>,
    pub watchpoints: Vec<Watchpoint>,
    pub modules: Vec<Module>,
    pub memory_regions: Vec<MemoryRegion>,
    /// Total number of events observed this session.
    pub event_count: u64,
    /// Events dropped from retention, surfaced honestly.
    pub events_dropped: u64,
}

/// Index of the first frame marked selected, else 0 when there is any frame, else -1.
pub open spec fn selected_index_frames(frames: Seq<Frame>) -> int {
    if exists|i: int| 0 <= i < frames.len() && frames[i].is_selected {
        choose|i: int|
            0 <= i < frames.len() && frames[i].is_selected && forall|j: int|
                0 <= j < i ==> !frames[j].is_selected
    } else if frames.len() > 0 {
        0
    } else {
        -1
    }
}

pub open spec fn selected_index_threads(threads: Seq<ThreadInfo>) -> int {
    if exists|i: int| 0 <= i < threads.len() && threads[i].is_selected {
        choose|i: int|
            0 <= i < threads.len() && threads[i].is_selected && forall|j: int|
                0 <= j < i ==> !threads[j].is_selected
    } else if threads.len() > 0 {
        0
    } else {
        -1
    }
}

impl SessionSnapshot {
    pub fn empty(session: SessionId, backend_name: &str, caps: Capabilities) -> (s: SessionSnapshot)
        ensures
            s.session == session,
            s.backend_name@ == backend_name@,
            s.capabilities == caps,
            s.process.lifecycle == ProcessLifecycle::Idle,
            s.process.pid is None,
            s.process.arch == Architecture::Unknown,
            s.process.exit_code is None,
            s.process.stop_reason is NoReason,
            s.program is None,
            s.threads@.len() == 0,
            s.frames@.len() == 0,
            s.registers is None,
            s.register_changes@.len() == 0,
            s.disassembly@.len() == 0,
            s.breakpoints@.len() == 0,
            s.watchpoints@.len() == 0,
            s.modules@.len() == 0,
            s.memory_regions@.len() == 0,
            s.event_count == 0,
            s.events_dropped == 0,
    {
        SessionSnapshot {
            session,
            backend_name: backend_name.to_owned(),
            capabilities: caps,
            process: ProcessInfo {
                pid: None,
                lifecycle: ProcessLifecycle::Idle,
                arch: Architecture::Unknown,
                endianness: Endianness::Little,
                stop_reason: StopReason::NoReason,
                exit_code: None,
            },
            program: None,
            threads: Vec::new(),
            frames: Vec::new(),
            registers: None,
            register_changes: Vec::new(),
            disassembly: Vec::new(),
            breakpoints: Vec::new(),
            watchpoints: Vec::new(),
            modules: Vec::new(),
            memory_regions: Vec::new(),
            event_count: 0,
            events_dropped: 0,
        }
    }

    /// The frame marked selected, else the first frame.
    pub fn selected_frame(&self) -> (r: Option<&Frame>)
        ensures
            selected_index_frames(self.frames@) >= 0 ==> r == Some(
                &self.frames@[selected_index_frames(self.frames@)],
            ),
            selected_index_frames(self.frames@) < 0 ==> r is None,
    {
        let mut i: usize = 0;
        while i < self.frames.len()
            invariant
                i <= self.frames@.len(),
                forall|j: int| 0 <= j < i ==> !self.frames@[j].is_selected,
            decreases self.frames@.len() - i,
        {
            if self.frames[i].is_selected {
                let ghost k = selected_index_frames(self.frames@);
                proof {
                    assert(self.frames@[i as int].is_selected);
                    if k != i {
                        if k < i {
                            assert(!self.frames@[k].is_selected);
                        } else {
                            assert(!self.frames@[i as int].is_selected);
                        }
                    }
                }
                return Some(&self.frames[i]);
            }
            i = i + 1;
        }
        if self.frames.len() > 0 {
            Some(&self.frames[0])
        } else {
            None
        }
    }

    /// The thread marked selected, else the first thread.
    pub fn selected_thread(&self) -> (r: Option<&ThreadInfo>)
        ensures
            selected_index_threads(self.threads@) >= 0 ==> r == Some(
                &self.threads@[selected_index_threads(self.threads@)],
            ),
            selected_index_threads(self.threads@) < 0 ==> r is None,
    {
        let mut i: usize = 0;
        while i < self.threads.len()
            invariant
                i <= self.threads@.len(),
                forall|j: int| 0 <= j < i ==> !self.threads@[j].is_selected,
            decreases self.threads@.len() - i,
        {
            if self.threads[i].is_selected {
                let ghost k = selected_index_threads(self.threads@);
                proof {
                    assert(self.threads@[i as int].is_selected);
                    if k != i {
                        if k < i {
                            assert(!self.threads@[k].is_selected);
                        } else {
                            assert(!self.threads@[i as int].is_selected);
                        }
                    }
                }
                return Some(&self.threads[i]);
            }
            i = i + 1;
        }
        if self.threads.len() > 0 {
            Some(&self.threads[0])
        } else {
            None
        }
    }
}

} // verus!
