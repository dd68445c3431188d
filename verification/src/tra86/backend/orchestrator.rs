//! Owns the active backend: the simulated one held as itself, any other
//! behind the backend contract.
use vstd::prelude::*;
use crate::tra86::backend::error::BackendError;
use crate::tra86::backend::mock::MockBackend;
use crate::tra86::backend::traits::{DebugBackend, LaunchRequest, Request};
use crate::tra86::model::{
    Address, Breakpoint, BreakpointId, BreakpointLocation, DisassemblyLine, FrameState, MemoryRegion, RegisterBank,
    SourceLocation, StopReason, SymbolInfo, ThreadId, ThreadState,
};

verus! {

/// The backend in use.
pub enum ActiveBackend {
    /// The simulated backend.
    Mock(MockBackend),
    /// Any other backend.
    Other(Box<dyn DebugBackend>),
}

pub struct BackendOrchestrator {
    pub active: ActiveBackend,
}

/// `after` is `before` with more requests at its end.
pub open spec fn appended(before: Seq<Request>, after: Seq<Request>) -> bool {
    &&& before.len() <= after.len()
    &&& forall|i: int| 0 <= i < before.len() ==> #[trigger] after[i] == before[i]
}

impl BackendOrchestrator {
    /// The requests the active backend received, with its answers.
    pub open spec fn received(&self) -> Seq<Request> {
        match self.active {
            ActiveBackend::Mock(m) => m.received(),
            ActiveBackend::Other(b) => b.received(),
        }
    }

    /// The simulated backend with its state consistent.
    pub open spec fn mock_ready(&self) -> bool {
        self.active matches ActiveBackend::Mock(m) && m.wf()
    }

    /// The simulated backend with its state consistent and a target loaded.
    pub open spec fn mock_loaded(&self) -> bool {
        self.active matches ActiveBackend::Mock(m) && m.wf() && m.target() is Some
    }

    /// The same kind of backend as `before`, with the requests it received
    /// since added at the end; a consistent simulated backend stays
    /// consistent and keeps a loaded target.
    pub open spec fn kept_from(&self, before: Self) -> bool {
        &&& appended(before.received(), self.received())
        &&& (before.active is Mock <==> self.active is Mock)
        &&& before.mock_ready() ==> self.mock_ready()
        &&& before.mock_loaded() ==> self.mock_loaded()
    }

    pub fn new(backend: Box<dyn DebugBackend>) -> (r: BackendOrchestrator)
        ensures
            r.active == ActiveBackend::Other(backend),
    {
        BackendOrchestrator { active: ActiveBackend::Other(backend) }
    }

    /// The simulated backend, freshly made.
    pub fn simulated() -> (r: BackendOrchestrator)
        ensures
            r.mock_ready(),
            r.active matches ActiveBackend::Mock(m) && m.target() is None,
    {
        BackendOrchestrator { active: ActiveBackend::Mock(MockBackend::default()) }
    }

    /// The name the active backend reports itself by.
    pub open spec fn name_view(&self) -> Seq<char> {
        match self.active {
            ActiveBackend::Mock(m) => m.name_view(),
            ActiveBackend::Other(b) => b.name_view(),
        }
    }

    pub fn backend_name(&self) -> (r: &'static str)
        ensures
            r@ == self.name_view(),
    {
        match &self.active {
            ActiveBackend::Mock(m) => m.backend_name(),
            ActiveBackend::Other(b) => b.backend_name(),
        }
    }

    /// Makes `backend` the active backend.
    pub fn replace_backend(&mut self, backend: ActiveBackend) -> (r: Result<(), BackendError>)
        ensures
            r is Ok,
            final(self).active == backend,
    {
        self.active = backend;
        Ok(())
    }

    pub fn open_target(&mut self, program: &str) -> (r: Result<(), BackendError>)
        ensures
            final(self).received() == old(self).received().push(Request::OpenTarget { program: program@, answer: r }),
            old(self).active is Mock ==> r is Ok,
            final(self).kept_from(*old(self)),
            r is Ok ==> r == Ok::<(), BackendError>(()),
            old(self).mock_ready() ==> final(self).mock_loaded(),
    {
        let r = match &mut self.active {
            ActiveBackend::Mock(m) => {
                let ghost m0 = *m;
                let r = m.open_target(program);
                proof {
                    MockBackend::lemma_same_state(m0, *m);
                }
                r
            },
            ActiveBackend::Other(b) => b.open_target(program),
        };
        proof {
            if r is Ok {
                assert(r->Ok_0 == ());
            }
        }
        r
    }

    pub fn launch(&mut self, request: LaunchRequest) -> (r: Result<(), BackendError>)
        ensures
            final(self).received() == old(self).received().push(Request::Launch { request, answer: r }),
            old(self).active is Mock ==> r is Ok,
            final(self).kept_from(*old(self)),
            r is Ok ==> r == Ok::<(), BackendError>(()),
            old(self).mock_ready() ==> final(self).mock_loaded(),
    {
        let r = match &mut self.active {
            ActiveBackend::Mock(m) => {
                let ghost m0 = *m;
                let r = m.launch(request);
                proof {
                    MockBackend::lemma_same_state(m0, *m);
                }
                r
            },
            ActiveBackend::Other(b) => b.launch(request),
        };
        proof {
            if r is Ok {
                assert(r->Ok_0 == ());
            }
        }
        r
    }

    pub fn attach(&mut self, pid: u32) -> (r: Result<(), BackendError>)
        ensures
            final(self).received() == old(self).received().push(Request::Attach { pid, answer: r }),
            final(self).kept_from(*old(self)),
            r is Ok ==> r == Ok::<(), BackendError>(()),
    {
        let r = match &mut self.active {
            ActiveBackend::Mock(m) => {
                let ghost m0 = *m;
                let r = m.attach(pid);
                proof {
                    MockBackend::lemma_same_state(m0, *m);
                }
                r
            },
            ActiveBackend::Other(b) => b.attach(pid),
        };
        proof {
            if r is Ok {
                assert(r->Ok_0 == ());
            }
        }
        r
    }

    pub fn detach(&mut self) -> (r: Result<(), BackendError>)
        ensures
            final(self).received() == old(self).received().push(Request::Detach { answer: r }),
            final(self).kept_from(*old(self)),
            r is Ok ==> r == Ok::<(), BackendError>(()),
    {
        let r = match &mut self.active {
            ActiveBackend::Mock(m) => {
                let ghost m0 = *m;
                let r = m.detach();
                proof {
                    MockBackend::lemma_same_state(m0, *m);
                }
                r
            },
            ActiveBackend::Other(b) => b.detach(),
        };
        proof {
            if r is Ok {
                assert(r->Ok_0 == ());
            }
        }
        r
    }

    pub fn kill(&mut self) -> (r: Result<(), BackendError>)
        ensures
            final(self).received() == old(self).received().push(Request::Kill { answer: r }),
            old(self).active is Mock ==> r is Ok,
            final(self).kept_from(*old(self)),
            r is Ok ==> r == Ok::<(), BackendError>(()),
    {
        let r = match &mut self.active {
            ActiveBackend::Mock(m) => {
                let ghost m0 = *m;
                let r = m.kill();
                proof {
                    MockBackend::lemma_same_state(m0, *m);
                }
                r
            },
            ActiveBackend::Other(b) => b.kill(),
        };
        proof {
            if r is Ok {
                assert(r->Ok_0 == ());
            }
        }
        r
    }

    pub fn continue_exec(&mut self) -> (r: Result<(), BackendError>)
        ensures
            final(self).received() == old(self).received().push(Request::Continue { answer: r }),
            final(self).kept_from(*old(self)),
            r is Ok ==> r == Ok::<(), BackendError>(()),
    {
        let r = match &mut self.active {
            ActiveBackend::Mock(m) => {
                let ghost m0 = *m;
                let r = m.continue_exec();
                proof {
                    MockBackend::lemma_same_state(m0, *m);
                }
                r
            },
            ActiveBackend::Other(b) => b.continue_exec(),
        };
        proof {
            if r is Ok {
                assert(r->Ok_0 == ());
            }
        }
        r
    }

    pub fn step_into(&mut self) -> (r: Result<(), BackendError>)
        ensures
            final(self).received() == old(self).received().push(Request::StepInto { answer: r }),
            final(self).kept_from(*old(self)),
            r is Ok ==> r == Ok::<(), BackendError>(()),
    {
        let r = match &mut self.active {
            ActiveBackend::Mock(m) => {
                let ghost m0 = *m;
                let r = m.step_into();
                proof {
                    MockBackend::lemma_same_state(m0, *m);
                }
                r
            },
            ActiveBackend::Other(b) => b.step_into(),
        };
        proof {
            if r is Ok {
                assert(r->Ok_0 == ());
            }
        }
        r
    }

    pub fn step_over(&mut self) -> (r: Result<(), BackendError>)
        ensures
            final(self).received() == old(self).received().push(Request::StepOver { answer: r }),
            final(self).kept_from(*old(self)),
            r is Ok ==> r == Ok::<(), BackendError>(()),
    {
        let r = match &mut self.active {
            ActiveBackend::Mock(m) => {
                let ghost m0 = *m;
                let r = m.step_over();
                proof {
                    MockBackend::lemma_same_state(m0, *m);
                }
                r
            },
            ActiveBackend::Other(b) => b.step_over(),
        };
        proof {
            if r is Ok {
                assert(r->Ok_0 == ());
            }
        }
        r
    }

    pub fn step_out(&mut self) -> (r: Result<(), BackendError>)
        ensures
            final(self).received() == old(self).received().push(Request::StepOut { answer: r }),
            final(self).kept_from(*old(self)),
            r is Ok ==> r == Ok::<(), BackendError>(()),
    {
        let r = match &mut self.active {
            ActiveBackend::Mock(m) => {
                let ghost m0 = *m;
                let r = m.step_out();
                proof {
                    MockBackend::lemma_same_state(m0, *m);
                }
                r
            },
            ActiveBackend::Other(b) => b.step_out(),
        };
        proof {
            if r is Ok {
                assert(r->Ok_0 == ());
            }
        }
        r
    }

    pub fn pause(&mut self) -> (r: Result<(), BackendError>)
        ensures
            final(self).received() == old(self).received().push(Request::Pause { answer: r }),
            final(self).kept_from(*old(self)),
            r is Ok ==> r == Ok::<(), BackendError>(()),
    {
        let r = match &mut self.active {
            ActiveBackend::Mock(m) => {
                let ghost m0 = *m;
                let r = m.pause();
                proof {
                    MockBackend::lemma_same_state(m0, *m);
                }
                r
            },
            ActiveBackend::Other(b) => b.pause(),
        };
        proof {
            if r is Ok {
                assert(r->Ok_0 == ());
            }
        }
        r
    }

    pub fn read_registers(&mut self, thread_id: ThreadId) -> (r: Result<RegisterBank, BackendError>)
        ensures
            final(self).received() == old(self).received().push(Request::ReadRegisters { thread_id, answer: r }),
            final(self).kept_from(*old(self)),
    {
        match &mut self.active {
            ActiveBackend::Mock(m) => {
                let ghost m0 = *m;
                let r = m.read_registers(thread_id);
                proof {
                    MockBackend::lemma_same_state(m0, *m);
                }
                r
            },
            ActiveBackend::Other(b) => b.read_registers(thread_id),
        }
    }

    pub fn read_memory(&mut self, address: Address, length: usize) -> (r: Result<Vec<u8>, BackendError>)
        ensures
            final(self).received() == old(self).received().push(Request::ReadMemory { address, length, answer: r }),
            final(self).kept_from(*old(self)),
    {
        match &mut self.active {
            ActiveBackend::Mock(m) => {
                let ghost m0 = *m;
                let r = m.read_memory(address, length);
                proof {
                    MockBackend::lemma_same_state(m0, *m);
                }
                r
            },
            ActiveBackend::Other(b) => b.read_memory(address, length),
        }
    }

    pub fn write_memory(&mut self, address: Address, bytes: &[u8]) -> (r: Result<(), BackendError>)
        ensures
            final(self).received() == old(self).received().push(Request::WriteMemory { address, bytes: bytes@, answer: r }),
            final(self).kept_from(*old(self)),
            r is Ok ==> r == Ok::<(), BackendError>(()),
    {
        let r = match &mut self.active {
            ActiveBackend::Mock(m) => {
                let ghost m0 = *m;
                let r = m.write_memory(address, bytes);
                proof {
                    MockBackend::lemma_same_state(m0, *m);
                }
                r
            },
            ActiveBackend::Other(b) => b.write_memory(address, bytes),
        };
        proof {
            if r is Ok {
                assert(r->Ok_0 == ());
            }
        }
        r
    }

    pub fn list_threads(&mut self) -> (r: Result<Vec<ThreadState>, BackendError>)
        ensures
            final(self).received() == old(self).received().push(Request::ListThreads { answer: r }),
            final(self).kept_from(*old(self)),
    {
        match &mut self.active {
            ActiveBackend::Mock(m) => {
                let ghost m0 = *m;
                let r = m.list_threads();
                proof {
                    MockBackend::lemma_same_state(m0, *m);
                }
                r
            },
            ActiveBackend::Other(b) => b.list_threads(),
        }
    }

    pub fn list_frames(&mut self, thread_id: ThreadId) -> (r: Result<Vec<FrameState>, BackendError>)
        ensures
            final(self).received() == old(self).received().push(Request::ListFrames { thread_id, answer: r }),
            final(self).kept_from(*old(self)),
    {
        match &mut self.active {
            ActiveBackend::Mock(m) => {
                let ghost m0 = *m;
                let r = m.list_frames(thread_id);
                proof {
                    MockBackend::lemma_same_state(m0, *m);
                }
                r
            },
            ActiveBackend::Other(b) => b.list_frames(thread_id),
        }
    }

    pub fn set_breakpoint(&mut self, location: BreakpointLocation) -> (r: Result<Breakpoint, BackendError>)
        ensures
            final(self).received() == old(self).received().push(Request::SetBreakpoint { location, answer: r }),
            final(self).kept_from(*old(self)),
    {
        match &mut self.active {
            ActiveBackend::Mock(m) => {
                let ghost m0 = *m;
                let r = m.set_breakpoint(location);
                proof {
                    MockBackend::lemma_same_state(m0, *m);
                }
                r
            },
            ActiveBackend::Other(b) => b.set_breakpoint(location),
        }
    }

    pub fn remove_breakpoint(&mut self, id: BreakpointId) -> (r: Result<(), BackendError>)
        ensures
            final(self).received() == old(self).received().push(Request::RemoveBreakpoint { id, answer: r }),
            final(self).kept_from(*old(self)),
            r is Ok ==> r == Ok::<(), BackendError>(()),
    {
        let r = match &mut self.active {
            ActiveBackend::Mock(m) => {
                let ghost m0 = *m;
                let r = m.remove_breakpoint(id);
                proof {
                    MockBackend::lemma_same_state(m0, *m);
                }
                r
            },
            ActiveBackend::Other(b) => b.remove_breakpoint(id),
        };
        proof {
            if r is Ok {
                assert(r->Ok_0 == ());
            }
        }
        r
    }

    pub fn disassemble(&mut self, address: Option<Address>, count: usize) -> (r: Result<Vec<DisassemblyLine>, BackendError>)
        ensures
            final(self).received() == old(self).received().push(Request::Disassemble { address, count, answer: r }),
            final(self).kept_from(*old(self)),
            old(self).mock_loaded() ==> (r matches Ok(v) && v@.len() == count),
    {
        match &mut self.active {
            ActiveBackend::Mock(m) => {
                let ghost m0 = *m;
                let r = m.disassemble(address, count);
                proof {
                    MockBackend::lemma_same_state(m0, *m);
                }
                r
            },
            ActiveBackend::Other(b) => b.disassemble(address, count),
        }
    }

    pub fn memory_map(&mut self) -> (r: Result<Vec<MemoryRegion>, BackendError>)
        ensures
            final(self).received() == old(self).received().push(Request::MemoryMap { answer: r }),
            final(self).kept_from(*old(self)),
    {
        match &mut self.active {
            ActiveBackend::Mock(m) => {
                let ghost m0 = *m;
                let r = m.memory_map();
                proof {
                    MockBackend::lemma_same_state(m0, *m);
                }
                r
            },
            ActiveBackend::Other(b) => b.memory_map(),
        }
    }

    pub fn current_instruction(&mut self, thread_id: ThreadId) -> (r: Result<Option<Address>, BackendError>)
        ensures
            final(self).received() == old(self).received().push(Request::CurrentInstruction { thread_id, answer: r }),
            final(self).kept_from(*old(self)),
    {
        match &mut self.active {
            ActiveBackend::Mock(m) => {
                let ghost m0 = *m;
                let r = m.current_instruction(thread_id);
                proof {
                    MockBackend::lemma_same_state(m0, *m);
                }
                r
            },
            ActiveBackend::Other(b) => b.current_instruction(thread_id),
        }
    }

    pub fn current_stop_reason(&mut self) -> (r: Result<StopReason, BackendError>)
        ensures
            final(self).received() == old(self).received().push(Request::CurrentStopReason { answer: r }),
            final(self).kept_from(*old(self)),
    {
        match &mut self.active {
            ActiveBackend::Mock(m) => {
                let ghost m0 = *m;
                let r = m.current_stop_reason();
                proof {
                    MockBackend::lemma_same_state(m0, *m);
                }
                r
            },
            ActiveBackend::Other(b) => b.current_stop_reason(),
        }
    }

    pub fn source_location(&mut self, address: Address) -> (r: Result<Option<SourceLocation>, BackendError>)
        ensures
            final(self).received() == old(self).received().push(Request::SourceLocation { address, answer: r }),
            final(self).kept_from(*old(self)),
    {
        match &mut self.active {
            ActiveBackend::Mock(m) => {
                let ghost m0 = *m;
                let r = m.source_location(address);
                proof {
                    MockBackend::lemma_same_state(m0, *m);
                }
                r
            },
            ActiveBackend::Other(b) => b.source_location(address),
        }
    }

    pub fn symbolicate(&mut self, address: Address) -> (r: Result<Option<SymbolInfo>, BackendError>)
        ensures
            final(self).received() == old(self).received().push(Request::Symbolicate { address, answer: r }),
            final(self).kept_from(*old(self)),
    {
        match &mut self.active {
            ActiveBackend::Mock(m) => {
                let ghost m0 = *m;
                let r = m.symbolicate(address);
                proof {
                    MockBackend::lemma_same_state(m0, *m);
                }
                r
            },
            ActiveBackend::Other(b) => b.symbolicate(address),
        }
    }
}

} // verus!
