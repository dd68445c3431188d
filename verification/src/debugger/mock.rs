//! A fully in-memory backend.
//!
//! The mock backend simulates a tiny deterministic aarch64 program so that the
//! analyses, trace recorder, worker and user interface can run with no
//! debugger, no compiler and no target process.
//!
//! The simulated program:
//! ```text
//! 0x1000  main:    mov   x0, #0        ; loop counter
//! 0x1004           bl    helper        ; call
//! 0x1008           add   x0, x0, #1
//! 0x100c           cmp   x0, #3
//! 0x1010           b.lt  0x1004        ; loop back to the call
//! 0x1014           ret
//! 0x1018  helper:  mov   x1, #42
//! 0x101c           ret
//! ```
use std::collections::VecDeque;
use vstd::prelude::*;
use crate::bind_core::address::Address;
use crate::bind_core::event::DebugEvent;
use crate::bind_core::id::{BreakpointId, ThreadId};
use crate::bind_core::model::{Breakpoint, BreakpointLocation, ProcessLifecycle, ResolvedLocation, Symbol, bp_view, bp_views};
use crate::text::{chars_of, chars_eq, string_of, push_str, push_chars};
use crate::bind_core::arch::{Architecture, Endianness};
use crate::bind_core::capability::Capabilities;
use crate::bind_core::command::{RunTarget, StepKind};
use crate::bind_core::error::{BindError, BindResult};
use crate::bind_core::id::{FrameId, ModuleId, Pid};
use crate::bind_core::model::{AttachSpec, Frame, Instruction, MemoryPermissions, MemoryRegion, Module, ProcessInfo, Register, RegisterRole, RegisterSet, SourceLocation, StopReason, ThreadInfo, ThreadRunState};
use crate::debugger::backend::{DebugBackend, Request, opt_text};
use crate::num::dec_digits;

verus! {

/// Start of the simulated code.
pub const BASE: u64 = 0x1000;

/// Number of simulated instructions.
pub const PROGRAM_LEN: usize = 8;

/// What an instruction does to the simulated machine.
#[derive(Debug, Clone, Copy, PartialEq, Eq, Structural)]
pub enum MockOp {
    Mov,
    Bl,
    Add,
    Cmp,
    BLt,
    Ret,
}

/// One simulated instruction.
pub struct MockInsn {
    pub op: MockOp,
    pub mnemonic: &'static str,
    pub operands: &'static str,
    pub bytes: [u8; 4],
    /// Index of the next instruction; `usize::MAX` returns from the function.
    pub next: usize,
    pub symbol: &'static str,
    pub line: u32,
}

/// The simulated program, instruction by instruction.
pub open spec fn insn_spec(i: int) -> MockInsn {
    if i == 0 {
        MockInsn { op: MockOp::Mov, mnemonic: "mov", operands: "x0, #0", bytes: [0x00u8, 0x00u8, 0x80u8, 0xd2u8], next: 1, symbol: "main", line: 3 }
    } else if i == 1 {
        MockInsn { op: MockOp::Bl, mnemonic: "bl", operands: "helper", bytes: [0x05u8, 0x00u8, 0x00u8, 0x94u8], next: 6, symbol: "main", line: 4 }
    } else if i == 2 {
        MockInsn { op: MockOp::Add, mnemonic: "add", operands: "x0, x0, #1", bytes: [0x00u8, 0x04u8, 0x00u8, 0x91u8], next: 3, symbol: "main", line: 5 }
    } else if i == 3 {
        MockInsn { op: MockOp::Cmp, mnemonic: "cmp", operands: "x0, #3", bytes: [0x1fu8, 0x0cu8, 0x00u8, 0xf1u8], next: 4, symbol: "main", line: 6 }
    } else if i == 4 {
        MockInsn { op: MockOp::BLt, mnemonic: "b.lt", operands: "0x1004", bytes: [0x8bu8, 0xffu8, 0xffu8, 0x54u8], next: 1, symbol: "main", line: 6 }
    } else if i == 5 {
        MockInsn { op: MockOp::Ret, mnemonic: "ret", operands: "", bytes: [0xc0u8, 0x03u8, 0x5fu8, 0xd6u8], next: usize::MAX, symbol: "main", line: 7 }
    } else if i == 6 {
        MockInsn { op: MockOp::Mov, mnemonic: "mov", operands: "x1, #42", bytes: [0x41u8, 0x05u8, 0x80u8, 0xd2u8], next: 7, symbol: "helper", line: 11 }
    } else {
        MockInsn { op: MockOp::Ret, mnemonic: "ret", operands: "", bytes: [0xc0u8, 0x03u8, 0x5fu8, 0xd6u8], next: usize::MAX, symbol: "helper", line: 12 }
    }
}

/// The instruction at index `i`.
fn insn(i: usize) -> (r: MockInsn)
    requires
        i < PROGRAM_LEN,
    ensures
        r == insn_spec(i as int),
{
    if i == 0 {
        MockInsn { op: MockOp::Mov, mnemonic: "mov", operands: "x0, #0", bytes: [0x00u8, 0x00u8, 0x80u8, 0xd2u8], next: 1, symbol: "main", line: 3 }
    } else if i == 1 {
        MockInsn { op: MockOp::Bl, mnemonic: "bl", operands: "helper", bytes: [0x05u8, 0x00u8, 0x00u8, 0x94u8], next: 6, symbol: "main", line: 4 }
    } else if i == 2 {
        MockInsn { op: MockOp::Add, mnemonic: "add", operands: "x0, x0, #1", bytes: [0x00u8, 0x04u8, 0x00u8, 0x91u8], next: 3, symbol: "main", line: 5 }
    } else if i == 3 {
        MockInsn { op: MockOp::Cmp, mnemonic: "cmp", operands: "x0, #3", bytes: [0x1fu8, 0x0cu8, 0x00u8, 0xf1u8], next: 4, symbol: "main", line: 6 }
    } else if i == 4 {
        MockInsn { op: MockOp::BLt, mnemonic: "b.lt", operands: "0x1004", bytes: [0x8bu8, 0xffu8, 0xffu8, 0x54u8], next: 1, symbol: "main", line: 6 }
    } else if i == 5 {
        MockInsn { op: MockOp::Ret, mnemonic: "ret", operands: "", bytes: [0xc0u8, 0x03u8, 0x5fu8, 0xd6u8], next: usize::MAX, symbol: "main", line: 7 }
    } else if i == 6 {
        MockInsn { op: MockOp::Mov, mnemonic: "mov", operands: "x1, #42", bytes: [0x41u8, 0x05u8, 0x80u8, 0xd2u8], next: 7, symbol: "helper", line: 11 }
    } else {
        MockInsn { op: MockOp::Ret, mnemonic: "ret", operands: "", bytes: [0xc0u8, 0x03u8, 0x5fu8, 0xd6u8], next: usize::MAX, symbol: "helper", line: 12 }
    }
}

/// The whole simulated program.
pub fn program() -> (p: Vec<MockInsn>)
    ensures
        p@.len() == PROGRAM_LEN,
        forall|i: int| 0 <= i < PROGRAM_LEN ==> #[trigger] p@[i] == insn_spec(i),
{
    let mut p: Vec<MockInsn> = Vec::new();
    let mut i: usize = 0;
    while i < PROGRAM_LEN
        invariant
            i <= PROGRAM_LEN,
            p@.len() == i,
            forall|j: int| 0 <= j < i ==> #[trigger] p@[j] == insn_spec(j),
        decreases PROGRAM_LEN - i,
    {
        p.push(insn(i));
        i = i + 1;
    }
    p
}

/// The address of instruction `i`.
pub open spec fn addr_spec(i: int) -> u64 {
    (BASE + 4 * i) as u64
}

/// The instruction index an address lands on, if it is on an instruction
/// boundary inside the program.
pub open spec fn index_spec(a: u64) -> Option<int> {
    if a >= BASE && (a - BASE) % 4 == 0 && (a - BASE) / 4 < PROGRAM_LEN {
        Some((a - BASE) / 4)
    } else {
        None
    }
}

/// Address of instruction `i`.
pub fn addr_of(i: usize) -> (a: Address)
    requires
        i < PROGRAM_LEN,
    ensures
        a.0 == addr_spec(i as int),
{
    Address::new(BASE + (i as u64) * 4)
}

/// The instruction index for an address, if it lands on an instruction.
pub fn index_of(addr: Address) -> (r: Option<usize>)
    ensures
        match index_spec(addr.0) {
            Some(i) => r == Some(i as usize),
            None => r is None,
        },
{
    let raw = addr.raw();
    if raw < BASE {
        return None;
    }
    let off = raw - BASE;
    if off % 4 != 0 {
        return None;
    }
    let idx = off / 4;
    if idx < PROGRAM_LEN as u64 {
        Some(idx as usize)
    } else {
        None
    }
}

/// `a + b` wrapping at 2^64.
pub open spec fn wrap_add(a: u64, b: u64) -> u64 {
    if a + b > u64::MAX {
        (a + b - 0x1_0000_0000_0000_0000) as u64
    } else {
        (a + b) as u64
    }
}

/// `a - b` wrapping at 2^64.
pub open spec fn wrap_sub(a: u64, b: u64) -> u64 {
    if a >= b {
        (a - b) as u64
    } else {
        (a - b + 0x1_0000_0000_0000_0000) as u64
    }
}

fn wrapping_add(a: u64, b: u64) -> (r: u64)
    ensures
        r == wrap_add(a, b),
{
    if a > u64::MAX - b {
        a - (u64::MAX - b) - 1
    } else {
        a + b
    }
}

fn wrapping_sub(a: u64, b: u64) -> (r: u64)
    ensures
        r == wrap_sub(a, b),
{
    if a >= b {
        a - b
    } else {
        u64::MAX - (b - a) + 1
    }
}

/// The simulated machine: lifecycle, pc index, the `x0` loop counter, the
/// stack pointer, the return-index stack, the step count and the exit code.
pub struct MockMachine {
    pub lifecycle: ProcessLifecycle,
    pub pc: int,
    pub x0: u64,
    pub sp: u64,
    pub stack: Seq<int>,
    pub steps: u64,
    pub exit_code: Option<i32>,
}

/// One instruction of execution. `bl` pushes its return index and lowers
/// `sp`; `ret` raises `sp` and returns, or ends the program when nothing is
/// on the stack; `add` counts `x0` up; `b.lt` branches back while `x0 < 3`.
/// The counters wrap at 2^64.
pub open spec fn machine_step(m: MockMachine) -> MockMachine {
    let ins = insn_spec(m.pc);
    let stack1 = if ins.op == MockOp::Bl { m.stack.push(m.pc + 1) } else { m.stack };
    let sp1 = if ins.op == MockOp::Bl {
        wrap_sub(m.sp, 16)
    } else if ins.op == MockOp::Ret {
        wrap_add(m.sp, 16)
    } else {
        m.sp
    };
    let x1 = if ins.op == MockOp::Add { wrap_add(m.x0, 1) } else { m.x0 };
    let next: int = if ins.op == MockOp::BLt && m.x0 >= 3 { m.pc + 1 } else { ins.next as int };
    if next == usize::MAX as int {
        if stack1.len() > 0 {
            MockMachine {
                lifecycle: m.lifecycle,
                pc: stack1.last(),
                x0: x1,
                sp: sp1,
                stack: stack1.drop_last(),
                steps: wrap_add(m.steps, 1),
                exit_code: m.exit_code,
            }
        } else {
            MockMachine {
                lifecycle: ProcessLifecycle::Exited,
                pc: m.pc,
                x0: x1,
                sp: sp1,
                stack: stack1,
                steps: m.steps,
                exit_code: Some(0),
            }
        }
    } else {
        MockMachine {
            lifecycle: m.lifecycle,
            pc: next,
            x0: x1,
            sp: sp1,
            stack: stack1,
            steps: wrap_add(m.steps, 1),
            exit_code: m.exit_code,
        }
    }
}

/// The machine keeps its pc and return indices inside the program.
pub open spec fn machine_ok(m: MockMachine) -> bool {
    &&& 0 <= m.pc < PROGRAM_LEN
    &&& forall|j: int| 0 <= j < m.stack.len() ==> 0 <= #[trigger] m.stack[j] < PROGRAM_LEN
}

/// A step never leaves the program.
pub proof fn lemma_step_stays_in_program(m: MockMachine)
    requires
        machine_ok(m),
    ensures
        machine_ok(machine_step(m)),
{
    let r = machine_step(m);
    assert forall|j: int| 0 <= j < r.stack.len() implies 0 <= #[trigger] r.stack[j] < PROGRAM_LEN by {
        if insn_spec(m.pc).op == MockOp::Bl {
            let s1 = m.stack.push(m.pc + 1);
            assert(s1[j] == r.stack[j]);
            if j < m.stack.len() {
                assert(s1[j] == m.stack[j]);
            }
        }
    }
    if insn_spec(m.pc).op == MockOp::Ret && m.stack.len() > 0 {
        assert(0 <= m.stack[m.stack.len() - 1] < PROGRAM_LEN);
    }
}

/// A breakpoint taken by value.
pub type BreakpointView = (BreakpointId, BreakpointLocation, bool, u64, Option<String>, Seq<ResolvedLocation>);

/// The breakpoint resolved to address `a`.
pub open spec fn resolves_to(b: BreakpointView, a: u64) -> bool {
    exists|k: int| 0 <= k < b.5.len() && (#[trigger] b.5[k]).address.0 == a
}

/// The first enabled breakpoint at or after position `i` that resolved to `a`.
pub open spec fn bp_at_from(bps: Seq<BreakpointView>, a: u64, i: int) -> Option<BreakpointId>
    decreases bps.len() - i,
{
    if i < 0 || i >= bps.len() {
        None
    } else if bps[i].2 && resolves_to(bps[i], a) {
        Some(bps[i].0)
    } else {
        bp_at_from(bps, a, i + 1)
    }
}

/// The first enabled breakpoint that resolved to `a`.
pub open spec fn bp_at(bps: Seq<BreakpointView>, a: u64) -> Option<BreakpointId> {
    bp_at_from(bps, a, 0)
}

/// The first instruction at or after `j` that belongs to the function `name`.
pub open spec fn first_with_symbol(name: Seq<char>, j: int) -> Option<int>
    decreases PROGRAM_LEN - j,
{
    if j < 0 || j >= PROGRAM_LEN {
        None
    } else if insn_spec(j).symbol@ == name {
        Some(j)
    } else {
        first_with_symbol(name, j + 1)
    }
}

/// The first instruction at or after `j` on source line `line`.
pub open spec fn first_with_line(line: u32, j: int) -> Option<int>
    decreases PROGRAM_LEN - j,
{
    if j < 0 || j >= PROGRAM_LEN {
        None
    } else if insn_spec(j).line == line {
        Some(j)
    } else {
        first_with_line(line, j + 1)
    }
}

/// The start of the function that contains instruction `i`.
pub open spec fn function_start(i: int) -> int {
    match first_with_symbol(insn_spec(i).symbol@, 0) {
        Some(s) => s,
        None => i,
    }
}

/// Whether this step ends the program (`ret` with nothing to return to).
pub open spec fn step_exits(m: MockMachine) -> bool {
    let ins = insn_spec(m.pc);
    ins.op == MockOp::Ret && m.stack.len() == 0
}

proof fn lemma_first_with_symbol_bounds(name: Seq<char>, j: int)
    requires
        0 <= j,
    ensures
        match first_with_symbol(name, j) {
            Some(i) => j <= i < PROGRAM_LEN,
            None => true,
        },
    decreases PROGRAM_LEN - j,
{
    if j < PROGRAM_LEN && insn_spec(j).symbol@ != name {
        lemma_first_with_symbol_bounds(name, j + 1);
    }
}

proof fn lemma_first_with_line_bounds(line: u32, j: int)
    requires
        0 <= j,
    ensures
        match first_with_line(line, j) {
            Some(i) => j <= i < PROGRAM_LEN,
            None => true,
        },
    decreases PROGRAM_LEN - j,
{
    if j < PROGRAM_LEN && insn_spec(j).line != line {
        lemma_first_with_line_bounds(line, j + 1);
    }
}

proof fn lemma_first_with_symbol(name: Seq<char>, j: int, i: int)
    requires
        0 <= j <= i < PROGRAM_LEN,
        insn_spec(i).symbol@ == name,
    ensures
        first_with_symbol(name, j) is Some,
        j <= first_with_symbol(name, j).unwrap() <= i,
        insn_spec(first_with_symbol(name, j).unwrap()).symbol@ == name,
    decreases i - j,
{
    if insn_spec(j).symbol@ != name {
        lemma_first_with_symbol(name, j + 1, i);
    }
}

pub struct MockBackend {
    program: Vec<MockInsn>,
    lifecycle: ProcessLifecycle,
    pc_index: usize,
    /// Simulated x0 loop counter and stack pointer, so register diffs are real.
    x0: u64,
    sp: u64,
    /// Return-index stack for `bl`/`ret`, to synthesize frames.
    call_stack: Vec<usize>,
    steps: u64,
    breakpoints: Vec<Breakpoint>,
    next_bp: u64,
    events: VecDeque<DebugEvent>,
    exit_code: Option<i32>,
    thread: ThreadId,
    requests: Ghost<Seq<Request>>,
}

impl MockBackend {
    /// All but the received requests are as in `other`.
    pub closed spec fn same_state(self, other: Self) -> bool {
        self == (MockBackend { requests: self.requests, ..other })
    }

    /// A state that differs only in the received requests looks the same.
    pub proof fn lemma_same_state(a: MockBackend, b: MockBackend)
        requires
            b.same_state(a),
        ensures
            b.wf() == a.wf(),
            b.machine() == a.machine(),
            b.bps() == a.bps(),
            b.pending() == a.pending(),
            b.next_breakpoint_id() == a.next_breakpoint_id(),
            b.thread() == a.thread(),
    {
    }

    /// The simulated machine.
    pub closed spec fn machine(&self) -> MockMachine {
        MockMachine {
            lifecycle: self.lifecycle,
            pc: self.pc_index as int,
            x0: self.x0,
            sp: self.sp,
            stack: self.call_stack@.map_values(|i: usize| i as int),
            steps: self.steps,
            exit_code: self.exit_code,
        }
    }

    /// The breakpoints, in the order they were added.
    pub closed spec fn bps(&self) -> Seq<BreakpointView> {
        bp_views(self.breakpoints@)
    }

    /// Events not yet handed out by `poll_events`.
    pub closed spec fn pending(&self) -> Seq<DebugEvent> {
        self.events@
    }

    /// The id the next breakpoint gets.
    pub closed spec fn next_breakpoint_id(&self) -> u64 {
        self.next_bp
    }

    /// The simulated thread.
    pub closed spec fn thread(&self) -> ThreadId {
        self.thread
    }

    pub closed spec fn wf(&self) -> bool {
        &&& self.program@.len() == PROGRAM_LEN
        &&& forall|i: int| 0 <= i < PROGRAM_LEN ==> #[trigger] self.program@[i] == insn_spec(i)
        &&& machine_ok(self.machine())
        &&& self.thread == ThreadId(1)
    }

    /// Advances one instruction. Returns the breakpoint hit at the new pc.
    fn advance(&mut self) -> (r: Option<BreakpointId>)
        requires
            old(self).wf(),
        ensures
            final(self).wf(),
            final(self).machine() == machine_step(old(self).machine()),
            final(self).bps() == old(self).bps(),
            final(self).pending() == old(self).pending(),
            final(self).next_breakpoint_id() == old(self).next_breakpoint_id(),
            r == if step_exits(old(self).machine()) {
                None
            } else {
                bp_at(old(self).bps(), addr_spec(final(self).machine().pc))
            },
    {
        let ghost m = self.machine();
        proof {
            lemma_step_stays_in_program(m);
        }
        let cur = self.pc_index;
        let op = self.program[cur].op;
        let mut next = self.program[cur].next;
        match op {
            MockOp::Bl => {
                self.call_stack.push(cur + 1);
                self.sp = wrapping_sub(self.sp, 16);
            },
            MockOp::Ret => {
                self.sp = wrapping_add(self.sp, 16);
            },
            MockOp::Add => {
                self.x0 = wrapping_add(self.x0, 1);
            },
            MockOp::BLt => {
                if self.x0 >= 3 {
                    next = cur + 1;
                }
            },
            _ => {},
        }
        proof {
            assert(self.call_stack@.map_values(|i: usize| i as int) =~= (if op == MockOp::Bl {
                m.stack.push(m.pc + 1)
            } else {
                m.stack
            }));
        }
        if next == usize::MAX {
            match self.call_stack.pop() {
                Some(ret_to) => {
                    self.pc_index = ret_to;
                },
                None => {
                    self.lifecycle = ProcessLifecycle::Exited;
                    self.exit_code = Some(0);
                    proof {
                        assert(self.machine() == machine_step(m));
                    }
                    return None;
                },
            }
        } else {
            self.pc_index = next;
        }
        self.steps = wrapping_add(self.steps, 1);
        proof {
            assert(self.machine().stack =~= machine_step(m).stack);
            assert(self.machine() == machine_step(m));
        }
        self.breakpoint_index_at(self.pc_index)
    }

    /// The first enabled breakpoint resolved to instruction `i`.
    fn breakpoint_index_at(&self, i: usize) -> (r: Option<BreakpointId>)
        requires
            i < PROGRAM_LEN,
        ensures
            r == bp_at(self.bps(), addr_spec(i as int)),
    {
        let a = addr_of(i);
        let ghost bps = self.bps();
        let mut k: usize = 0;
        while k < self.breakpoints.len()
            invariant
                k <= self.breakpoints@.len(),
                bps == bp_views(self.breakpoints@),
                a.0 == addr_spec(i as int),
                bp_at(bps, a.0) == bp_at_from(bps, a.0, k as int),
            decreases self.breakpoints@.len() - k,
        {
            let b = &self.breakpoints[k];
            let mut hit = false;
            if b.enabled {
                let mut j: usize = 0;
                while j < b.resolved.len()
                    invariant
                        j <= b.resolved@.len(),
                        !hit ==> forall|q: int| 0 <= q < j ==> (#[trigger] b.resolved@[q]).address.0 != a.0,
                        hit ==> resolves_to(bp_view(*b), a.0),
                    decreases b.resolved@.len() - j,
                {
                    if b.resolved[j].address.0 == a.0 {
                        hit = true;
                    }
                    j = j + 1;
                }
            }
            proof {
                assert(bps[k as int] == bp_view(*b));
            }
            if hit {
                return Some(b.id);
            }
            k = k + 1;
        }
        None
    }

    fn require_stopped(&self) -> (r: Result<(), crate::bind_core::error::BindError>)
        ensures
            r is Ok <==> self.machine().lifecycle.stopped(),
            r is Err ==> r->Err_0 is TargetState,
    {
        if self.lifecycle.is_stopped() {
            Ok(())
        } else {
            let mut msg = chars_of("operation requires a stopped process, but process is ");
            crate::text::push_str(&mut msg, lifecycle_name(self.lifecycle));
            Err(crate::bind_core::error::BindError::TargetState(crate::text::string_of(msg.as_slice())))
        }
    }

    fn symbol_is(&self, j: usize, name: &[char]) -> (r: bool)
        requires
            self.wf(),
            j < PROGRAM_LEN,
        ensures
            r == (insn_spec(j as int).symbol@ == name@),
    {
        let c = chars_of(self.program[j].symbol);
        chars_eq(c.as_slice(), name)
    }

    /// The symbol of instruction `i`: its function, and the offset into it.
    fn symbol_for(&self, i: usize) -> (s: Symbol)
        requires
            self.wf(),
            i < PROGRAM_LEN,
        ensures
            s.name@ == insn_spec(i as int).symbol@,
            s.demangled is None,
            s.module is Some && s.module.unwrap()@ == "mock"@,
            s.start == Some(Address(addr_spec(function_start(i as int)))),
            s.offset == (i - function_start(i as int)) * 4,
    {
        let name = chars_of(self.program[i].symbol);
        let mut start: usize = 0;
        proof {
            lemma_first_with_symbol(name@, 0, i as int);
        }
        while start < i && !self.symbol_is(start, name.as_slice())
            invariant
                start <= i < PROGRAM_LEN,
                self.wf(),
                name@ == insn_spec(i as int).symbol@,
                first_with_symbol(name@, 0) == first_with_symbol(name@, start as int),
            decreases i - start,
        {
            start = start + 1;
        }
        proof {
            assert(insn_spec(start as int).symbol@ == name@);
            assert(first_with_symbol(name@, start as int) == Some(start as int));
        }
        Symbol {
            name: self.program[i].symbol.to_owned(),
            demangled: None,
            module: Some("mock".to_owned()),
            start: Some(addr_of(start)),
            offset: ((i - start) as u64) * 4,
        }
    }
}

/// The `Debug` name of a lifecycle state.
pub open spec fn lifecycle_name_spec(l: ProcessLifecycle) -> Seq<char> {
    match l {
        ProcessLifecycle::Idle => "Idle"@,
        ProcessLifecycle::Launching => "Launching"@,
        ProcessLifecycle::Running => "Running"@,
        ProcessLifecycle::Stopped => "Stopped"@,
        ProcessLifecycle::Exited => "Exited"@,
        ProcessLifecycle::Detached => "Detached"@,
        ProcessLifecycle::Crashed => "Crashed"@,
    }
}

pub fn lifecycle_name(l: ProcessLifecycle) -> (r: &'static str)
    ensures
        r@ == lifecycle_name_spec(l),
{
    match l {
        ProcessLifecycle::Idle => "Idle",
        ProcessLifecycle::Launching => "Launching",
        ProcessLifecycle::Running => "Running",
        ProcessLifecycle::Stopped => "Stopped",
        ProcessLifecycle::Exited => "Exited",
        ProcessLifecycle::Detached => "Detached",
        ProcessLifecycle::Crashed => "Crashed",
    }
}

/// Resuming: run until an enabled breakpoint is reached or the program ends,
/// for at most `fuel` instructions.
pub open spec fn resume_run(m: MockMachine, bps: Seq<BreakpointView>, fuel: nat) -> (MockMachine, Option<BreakpointId>)
    decreases fuel,
{
    if fuel == 0 {
        (m, None)
    } else {
        let m1 = machine_step(m);
        if step_exits(m) {
            (m1, None)
        } else {
            match bp_at(bps, addr_spec(m1.pc)) {
                Some(b) => (m1, Some(b)),
                None => resume_run(m1, bps, (fuel - 1) as nat),
            }
        }
    }
}

/// Running until the pc reaches `goal` or the program ends, for at most
/// `fuel` instructions (breakpoints are not consulted).
pub open spec fn run_until(m: MockMachine, goal: int, fuel: nat) -> MockMachine
    decreases fuel,
{
    if fuel == 0 {
        m
    } else {
        let m1 = machine_step(m);
        if m1.pc == goal || m1.lifecycle == ProcessLifecycle::Exited {
            m1
        } else {
            run_until(m1, goal, (fuel - 1) as nat)
        }
    }
}

/// The breakpoints with the first one numbered `id` counted as hit once more.
pub open spec fn count_hit(bps: Seq<BreakpointView>, id: BreakpointId) -> Seq<BreakpointView> {
    match first_bp_with_id(bps, id, 0) {
        Some(k) => bps.update(k, (bps[k].0, bps[k].1, bps[k].2, wrap_add(bps[k].3, 1), bps[k].4, bps[k].5)),
        None => bps,
    }
}

/// The position of the first breakpoint numbered `id` at or after `i`.
pub open spec fn first_bp_with_id(bps: Seq<BreakpointView>, id: BreakpointId, i: int) -> Option<int>
    decreases bps.len() - i,
{
    if i < 0 || i >= bps.len() {
        None
    } else if bps[i].0 == id {
        Some(i)
    } else {
        first_bp_with_id(bps, id, i + 1)
    }
}

proof fn lemma_first_bp_with_id(bps: Seq<BreakpointView>, id: BreakpointId, i: int)
    requires
        0 <= i,
    ensures
        match first_bp_with_id(bps, id, i) {
            Some(k) => i <= k < bps.len() && bps[k].0 == id && forall|j: int| i <= j < k ==> (#[trigger] bps[j]).0 != id,
            None => forall|j: int| i <= j < bps.len() ==> (#[trigger] bps[j]).0 != id,
        },
    decreases bps.len() - i,
{
    if i < bps.len() && bps[i].0 != id {
        lemma_first_bp_with_id(bps, id, i + 1);
    }
}

/// The machine with its lifecycle set.
pub open spec fn with_lifecycle(m: MockMachine, l: ProcessLifecycle) -> MockMachine {
    MockMachine { lifecycle: l, ..m }
}

/// `ev` is a stop of thread 1 for `reason` at the address of instruction `pc`.
pub open spec fn is_stop_at(ev: DebugEvent, reason: StopReason, pc: int) -> bool {
    ev == DebugEvent::Stopped { thread: ThreadId(1), reason, pc: Some(Address(addr_spec(pc))) }
}

/// Stepping: one instruction, or for `Out` inside a call, until the pending
/// return index is reached (bounded to 10 000 instructions).
pub open spec fn step_run(m: MockMachine, kind: StepKind) -> MockMachine {
    match kind {
        StepKind::Out => if m.stack.len() == 0 {
            machine_step(m)
        } else {
            run_until(m, m.stack.last(), 10000)
        },
        _ => machine_step(m),
    }
}

/// The instruction a run-to target names, if any.
pub open spec fn run_target_index(t: RunTarget) -> Option<int> {
    match t {
        RunTarget::Address(a) => index_spec(a.0),
        RunTarget::Source { line, .. } => first_with_line(line, 0),
    }
}

/// The instruction a breakpoint location resolves to, if any.
pub open spec fn location_index(loc: BreakpointLocation) -> Option<int> {
    match loc {
        BreakpointLocation::Address(a) => index_spec(a.0),
        BreakpointLocation::Symbol(name) => first_with_symbol(name@, 0),
        BreakpointLocation::Source { line, .. } => first_with_line(line, 0),
    }
}

/// The symbol reported for instruction `i`.
pub open spec fn mock_symbol(s: Symbol, i: int) -> bool {
    &&& s.name@ == insn_spec(i).symbol@
    &&& s.demangled is None
    &&& s.module is Some && s.module.unwrap()@ == "mock"@
    &&& s.start == Some(Address(addr_spec(function_start(i))))
    &&& s.offset == (i - function_start(i)) * 4
}

/// The breakpoints without those numbered `id`.
pub open spec fn without_id(bps: Seq<BreakpointView>, id: BreakpointId) -> Seq<BreakpointView>
    decreases bps.len(),
{
    if bps.len() == 0 {
        bps
    } else {
        let rest = without_id(bps.drop_last(), id);
        if bps.last().0 != id {
            rest.push(bps.last())
        } else {
            rest
        }
    }
}

proof fn lemma_run_until_ok(m: MockMachine, goal: int, fuel: nat)
    requires
        machine_ok(m),
    ensures
        machine_ok(run_until(m, goal, fuel)),
    decreases fuel,
{
    if fuel > 0 {
        lemma_step_stays_in_program(m);
        lemma_run_until_ok(machine_step(m), goal, (fuel - 1) as nat);
    }
}

/// `reg` is named `n`, holds `v`, is `bits` wide and plays `role`.
pub open spec fn reg_is(reg: Register, n: Seq<char>, v: u64, bits: u16, role: RegisterRole) -> bool {
    reg.name@ == n && reg.value == v && reg.size_bits == bits && reg.role == role && reg.wide is None
}

/// The stack offset of the caller frame at `depth` (16 bytes per frame,
/// wrapping).
pub open spec fn frame_offset(depth: int) -> u64
    decreases depth,
{
    if depth <= 0 {
        16
    } else {
        wrap_add(frame_offset(depth - 1), 16)
    }
}

/// The synthesized frame of the caller at `depth` (0 = innermost caller).
pub open spec fn caller_frame(f: Frame, depth: int, m: MockMachine, thread: ThreadId) -> bool {
    let ret = m.stack[m.stack.len() - 1 - depth];
    let caller = if ret >= 1 { ret - 1 } else { 0 };
    &&& f.id == FrameId((depth + 1) as u64)
    &&& f.thread_id == thread
    &&& f.index == depth + 1
    &&& f.pc == Address(addr_spec(caller))
    &&& f.sp == Some(Address(wrap_add(m.sp, frame_offset(depth))))
    &&& f.fp is None
    &&& f.function is Some && f.function.unwrap()@ == insn_spec(caller).symbol@
    &&& f.symbol is Some && mock_symbol(f.symbol.unwrap(), caller)
    &&& f.source is Some && f.source.unwrap().file@ == "mock.c"@
    &&& f.source.unwrap().line == insn_spec(caller).line && f.source.unwrap().column is None
    &&& !f.is_inlined && !f.is_selected
}

/// The byte the simulated memory holds at `a`.
pub open spec fn mem_byte(a: u64) -> u8 {
    match index_spec(a & !3u64) {
        Some(idx) => insn_spec(idx).bytes@[(a & 3u64) as int],
        None => (a & 0xffu64) as u8,
    }
}

/// The instruction indices shown by a disassembly request.
pub open spec fn disasm_window(around: Option<Address>, count: usize, pc: int) -> (int, int) {
    let center = match around {
        Some(a) => match index_spec(a.0) {
            Some(i) => i,
            None => pc,
        },
        None => pc,
    };
    let start = if center >= 2 { center - 2 } else { 0 };
    let stop_raw = if start + count > usize::MAX { usize::MAX as int } else { start + count };
    (start, if stop_raw < PROGRAM_LEN { stop_raw } else { PROGRAM_LEN as int })
}

/// The disassembled instruction `i`.
pub open spec fn disasm_entry(ins: Instruction, i: int, pc: int, bps: Seq<BreakpointView>) -> bool {
    &&& ins.address == Address(addr_spec(i))
    &&& ins.bytes@ == insn_spec(i).bytes@
    &&& ins.mnemonic@ == insn_spec(i).mnemonic@
    &&& ins.operands@ == insn_spec(i).operands@
    &&& ins.symbol is Some && mock_symbol(ins.symbol.unwrap(), i)
    &&& ins.source is Some && ins.source.unwrap().file@ == "mock.c"@
    &&& ins.source.unwrap().line == insn_spec(i).line && ins.source.unwrap().column is None
    &&& ins.branch_target is None
    &&& ins.is_current == (i == pc)
    &&& ins.has_breakpoint == (bp_at(bps, addr_spec(i)) is Some)
}

impl MockBackend {
    /// Finds the first breakpoint numbered `id`.
    fn find_bp(&self, id: BreakpointId) -> (r: Option<usize>)
        ensures
            r is Some <==> first_bp_with_id(self.bps(), id, 0) is Some,
            r is Some ==> first_bp_with_id(self.bps(), id, 0) == Some(r.unwrap() as int)
                && r.unwrap() < self.bps().len(),
    {
        proof {
            lemma_first_bp_with_id(self.bps(), id, 0);
        }
        let ghost bps = self.bps();
        let mut k: usize = 0;
        while k < self.breakpoints.len()
            invariant
                k <= self.breakpoints@.len(),
                bps == self.bps(),
                first_bp_with_id(bps, id, 0) == first_bp_with_id(bps, id, k as int),
            decreases self.breakpoints@.len() - k,
        {
            proof {
                assert(bps[k as int].0 == self.breakpoints@[k as int].id);
            }
            if self.breakpoints[k].id == id {
                return Some(k);
            }
            k = k + 1;
        }
        None
    }

    /// Runs until the pc reaches `goal` or the program ends, bounded to
    /// 10 000 instructions.
    fn run_until_exec(&mut self, goal: usize)
        requires
            old(self).wf(),
            old(self).machine().lifecycle.stopped(),
        ensures
            final(self).wf(),
            final(self).machine() == run_until(old(self).machine(), goal as int, 10000),
            final(self).bps() == old(self).bps(),
            final(self).pending() == old(self).pending(),
            final(self).next_breakpoint_id() == old(self).next_breakpoint_id(),
    {
        let ghost m0 = self.machine();
        let mut n: u32 = 0;
        while n < 10000
            invariant
                n <= 10000,
                self.wf(),
                m0 == old(self).machine(),
                self.machine().lifecycle != ProcessLifecycle::Exited,
                self.bps() == old(self).bps(),
                self.pending() == old(self).pending(),
                self.next_breakpoint_id() == old(self).next_breakpoint_id(),
                run_until(m0, goal as int, 10000) == run_until(self.machine(), goal as int, (10000 - n) as nat),
            decreases 10000 - n,
        {
            let ghost mc = self.machine();
            self.advance();
            proof {
                let fuel: nat = (10000 - n) as nat;
                assert(run_until(mc, goal as int, fuel) == (if self.machine().pc == goal as int
                    || self.machine().lifecycle == ProcessLifecycle::Exited {
                    self.machine()
                } else {
                    run_until(self.machine(), goal as int, (fuel - 1) as nat)
                }));
            }
            if self.pc_index == goal || self.lifecycle == ProcessLifecycle::Exited {
                return;
            }
            n = n + 1;
        }
    }

    /// The first instruction of the function `name`.
    fn symbol_index(&self, name: &[char]) -> (r: Option<usize>)
        requires
            self.wf(),
        ensures
            match first_with_symbol(name@, 0) {
                Some(i) => r == Some(i as usize),
                None => r is None,
            },
    {
        let mut j: usize = 0;
        while j < PROGRAM_LEN
            invariant
                j <= PROGRAM_LEN,
                self.wf(),
                first_with_symbol(name@, 0) == first_with_symbol(name@, j as int),
            decreases PROGRAM_LEN - j,
        {
            if self.symbol_is(j, name) {
                return Some(j);
            }
            j = j + 1;
        }
        None
    }

    /// The first instruction on source line `line`.
    fn line_index(&self, line: u32) -> (r: Option<usize>)
        requires
            self.wf(),
        ensures
            match first_with_line(line, 0) {
                Some(i) => r == Some(i as usize),
                None => r is None,
            },
    {
        let mut j: usize = 0;
        while j < PROGRAM_LEN
            invariant
                j <= PROGRAM_LEN,
                self.wf(),
                first_with_line(line, 0) == first_with_line(line, j as int),
            decreases PROGRAM_LEN - j,
        {
            if self.program[j].line == line {
                return Some(j);
            }
            j = j + 1;
        }
        None
    }

    fn count_hit_exec(&mut self, id: BreakpointId)
        requires
            old(self).wf(),
        ensures
            final(self).wf(),
            final(self).bps() == count_hit(old(self).bps(), id),
            final(self).machine() == old(self).machine(),
            final(self).pending() == old(self).pending(),
            final(self).next_breakpoint_id() == old(self).next_breakpoint_id(),
    {
        proof {
            lemma_first_bp_with_id(self.bps(), id, 0);
        }
        match self.find_bp(id) {
            Some(k) => {
                let ghost before = self.bps();
                let mut b = self.breakpoints.remove(k);
                b.hit_count = wrapping_add(b.hit_count, 1);
                self.breakpoints.insert(k, b);
                proof {
                    assert(self.bps() =~= before.update(k as int, (before[k as int].0, before[k as int].1,
                        before[k as int].2, wrap_add(before[k as int].3, 1), before[k as int].4, before[k as int].5)));
                    assert(first_bp_with_id(before, id, 0) == Some(k as int));
                    assert(self.bps() == count_hit(before, id));
                }
            },
            None => {},
        }
    }
}

impl Default for MockBackend {
    fn default() -> (r: MockBackend)
        ensures
            r.wf(),
            r.machine() == (MockMachine {
                lifecycle: ProcessLifecycle::Idle,
                pc: 0,
                x0: 0,
                sp: 0x7fff_0000,
                stack: Seq::empty(),
                steps: 0,
                exit_code: None,
            }),
            r.bps().len() == 0,
            r.pending().len() == 0,
            r.next_breakpoint_id() == 1,
            r.received().len() == 0,
    {
        let r = MockBackend {
            program: program(),
            lifecycle: ProcessLifecycle::Idle,
            pc_index: 0,
            x0: 0,
            sp: 0x7fff_0000,
            call_stack: Vec::new(),
            steps: 0,
            breakpoints: Vec::new(),
            next_bp: 1,
            events: VecDeque::new(),
            exit_code: None,
            thread: ThreadId::new(1),
            requests: Ghost(Seq::empty()),
        };
        proof {
            assert(r.machine().stack =~= Seq::<int>::empty());
            assert(r.bps() =~= Seq::<BreakpointView>::empty());
        }
        r
    }
}

impl MockBackend {
    /// Launching stops at the entry point; attaching to a pid or opening a
    /// core file is unsupported.
    fn attach_inner(&mut self, spec: &AttachSpec) -> (r: BindResult<()>)
        requires
            old(self).wf(),
        ensures
            final(self).wf(),
            match *spec {
                AttachSpec::Launch(target) => {
                    let n = old(self).pending().len() as int;
                    &&& r is Ok
                    &&& final(self).machine() == MockMachine {
                        lifecycle: ProcessLifecycle::Stopped,
                        pc: 0,
                        ..old(self).machine()
                    }
                    &&& final(self).pending().len() == n + 4
                    &&& final(self).pending().take(n) == old(self).pending()
                    &&& final(self).pending()[n] == DebugEvent::TargetLoaded {
                        program: target.program,
                        arch: Architecture::Aarch64,
                    }
                    &&& final(self).pending()[n + 1] == DebugEvent::ProcessLaunched { pid: Pid(4242) }
                    &&& final(self).pending()[n + 2] == DebugEvent::ThreadCreated { thread: ThreadId(1) }
                    &&& final(self).pending()[n + 3] matches DebugEvent::Stopped { thread, reason, pc }
                    &&& thread == ThreadId(1) && pc == Some(Address(BASE))
                    &&& reason matches StopReason::Signal(sig) && sig@ == "SIGSTOP"@
                },
                _ => {
                    &&& r is Err && r->Err_0 is Unsupported
                    &&& final(self).machine() == old(self).machine()
                    &&& final(self).pending() == old(self).pending()
                },
            },
            final(self).bps() == old(self).bps(),
            final(self).next_breakpoint_id() == old(self).next_breakpoint_id(),
    {
        match spec {
            AttachSpec::Launch(target) => {
                self.lifecycle = ProcessLifecycle::Stopped;
                self.pc_index = 0;
                let ghost n = self.events@.len();
                self.events.push_back(DebugEvent::TargetLoaded {
                    program: target.program.clone(),
                    arch: Architecture::Aarch64,
                });
                self.events.push_back(DebugEvent::ProcessLaunched { pid: Pid::new(4242) });
                self.events.push_back(DebugEvent::ThreadCreated { thread: self.thread });
                let a = addr_of(self.pc_index);
                self.events.push_back(DebugEvent::Stopped {
                    thread: self.thread,
                    reason: StopReason::Signal("SIGSTOP".to_owned()),
                    pc: Some(a),
                });
                proof {
                    assert(self.events@.take(n as int) =~= old(self).events@);
                }
                Ok(())
            },
            AttachSpec::Pid(_) => Err(BindError::Unsupported("mock backend cannot attach to a pid".to_owned())),
            AttachSpec::CoreFile { .. } => Err(BindError::Unsupported("mock backend cannot open core files".to_owned())),
        }
    }

    fn detach_inner(&mut self) -> (r: BindResult<()>)
        requires
            old(self).wf(),
        ensures
            final(self).wf(),
            r is Ok,
            final(self).machine() == with_lifecycle(old(self).machine(), ProcessLifecycle::Detached),
            final(self).pending() == old(self).pending().push(DebugEvent::ProcessDetached),
            final(self).bps() == old(self).bps(),
            final(self).next_breakpoint_id() == old(self).next_breakpoint_id(),
    {
        self.lifecycle = ProcessLifecycle::Detached;
        self.events.push_back(DebugEvent::ProcessDetached);
        Ok(())
    }

    fn terminate_inner(&mut self) -> (r: BindResult<()>)
        requires
            old(self).wf(),
        ensures
            final(self).wf(),
            r is Ok,
            final(self).machine() == (MockMachine {
                lifecycle: ProcessLifecycle::Exited,
                exit_code: Some(0),
                ..old(self).machine()
            }),
            final(self).pending() == old(self).pending().push(DebugEvent::ProcessExited { code: 0 }),
            final(self).bps() == old(self).bps(),
            final(self).next_breakpoint_id() == old(self).next_breakpoint_id(),
    {
        self.lifecycle = ProcessLifecycle::Exited;
        self.exit_code = Some(0);
        self.events.push_back(DebugEvent::ProcessExited { code: 0 });
        Ok(())
    }

    /// Runs until an enabled breakpoint or the end of the program, bounded to
    /// 10 000 instructions.
    fn resume_inner(&mut self) -> (r: BindResult<()>)
        requires
            old(self).wf(),
        ensures
            final(self).wf(),
            final(self).next_breakpoint_id() == old(self).next_breakpoint_id(),
            !old(self).machine().lifecycle.stopped() ==> {
                &&& r is Err && r->Err_0 is TargetState
                &&& final(self).machine() == old(self).machine()
                &&& final(self).pending() == old(self).pending()
                &&& final(self).bps() == old(self).bps()
            },
            old(self).machine().lifecycle.stopped() ==> {
                let (m, hit) = resume_run(old(self).machine(), old(self).bps(), 10000);
                let base = old(self).pending().push(DebugEvent::Continued);
                &&& r is Ok
                &&& match hit {
                    Some(b) => {
                        &&& final(self).machine() == with_lifecycle(m, ProcessLifecycle::Stopped)
                        &&& final(self).pending() == base.push(DebugEvent::BreakpointHit { breakpoint: b, thread: ThreadId(1) })
                            .push(DebugEvent::Stopped { thread: ThreadId(1), reason: StopReason::Breakpoint(b), pc: Some(Address(addr_spec(m.pc))) })
                        &&& final(self).bps() == count_hit(old(self).bps(), b)
                    },
                    None => {
                        &&& final(self).machine() == m
                        &&& final(self).pending() == if m.lifecycle == ProcessLifecycle::Exited {
                            base.push(DebugEvent::ProcessExited { code: 0 })
                        } else {
                            base
                        }
                        &&& final(self).bps() == old(self).bps()
                    },
                }
            },
    {
        match self.require_stopped() {
            Ok(()) => {},
            Err(e) => {
                return Err(e);
            },
        }
        self.events.push_back(DebugEvent::Continued);
        let ghost m0 = old(self).machine();
        let ghost bps0 = old(self).bps();
        let ghost base = self.events@;
        let mut n: u32 = 0;
        while n < 10000
            invariant
                n <= 10000,
                self.wf(),
                old(self).machine().lifecycle.stopped(),
                m0 == old(self).machine(),
                bps0 == old(self).bps(),
                base == old(self).pending().push(DebugEvent::Continued),
                self.machine().lifecycle.stopped(),
                self.bps() == bps0,
                self.pending() == base,
                self.next_breakpoint_id() == old(self).next_breakpoint_id(),
                resume_run(m0, bps0, 10000) == resume_run(self.machine(), bps0, (10000 - n) as nat),
            decreases 10000 - n,
        {
            let ghost before = self.machine();
            let ghost fuel: nat = (10000 - n) as nat;
            match self.advance() {
                Some(bp) => {
                    self.lifecycle = ProcessLifecycle::Stopped;
                    self.events.push_back(DebugEvent::BreakpointHit { breakpoint: bp, thread: self.thread });
                    let a = addr_of(self.pc_index);
                    self.events.push_back(DebugEvent::Stopped {
                        thread: self.thread,
                        reason: StopReason::Breakpoint(bp),
                        pc: Some(a),
                    });
                    self.count_hit_exec(bp);
                    return Ok(());
                },
                None => {
                    if self.lifecycle == ProcessLifecycle::Exited {
                        self.events.push_back(DebugEvent::ProcessExited { code: 0 });
                        return Ok(());
                    }
                },
            }
            n = n + 1;
        }
        Ok(())
    }

    fn pause_inner(&mut self) -> (r: BindResult<()>)
        requires
            old(self).wf(),
        ensures
            final(self).wf(),
            r is Err && r->Err_0 is CapabilityLimited,
            final(self).same_state(*old(self)),
    {
        Err(BindError::CapabilityLimited("mock backend runs synchronously; nothing to pause".to_owned()))
    }

    fn select_thread_inner(&mut self, thread: ThreadId) -> (r: BindResult<()>)
        requires
            old(self).wf(),
        ensures
            final(self).wf(),
            r is Ok,
            final(self).same_state(*old(self)),
    {
        Ok(())
    }

    fn select_frame_inner(&mut self, frame_index: usize) -> (r: BindResult<()>)
        requires
            old(self).wf(),
        ensures
            final(self).wf(),
            r is Ok,
            final(self).same_state(*old(self)),
    {
        Ok(())
    }

    fn step_inner(&mut self, kind: StepKind) -> (r: BindResult<()>)
        requires
            old(self).wf(),
        ensures
            final(self).wf(),
            final(self).bps() == old(self).bps(),
            final(self).next_breakpoint_id() == old(self).next_breakpoint_id(),
            !old(self).machine().lifecycle.stopped() ==> {
                &&& r is Err && r->Err_0 is TargetState
                &&& final(self).machine() == old(self).machine()
                &&& final(self).pending() == old(self).pending()
            },
            old(self).machine().lifecycle.stopped() ==> {
                let m = step_run(old(self).machine(), kind);
                &&& r is Ok
                &&& final(self).machine() == m
                &&& final(self).pending() == if m.lifecycle == ProcessLifecycle::Exited {
                    old(self).pending().push(DebugEvent::ProcessExited { code: 0 })
                } else {
                    old(self).pending().push(DebugEvent::InstructionStepped {
                        thread: ThreadId(1),
                        from: Some(Address(addr_spec(old(self).machine().pc))),
                        to: Address(addr_spec(m.pc)),
                    }).push(DebugEvent::Stopped { thread: ThreadId(1), reason: StopReason::Step, pc: Some(Address(addr_spec(m.pc))) })
                }
            },
    {
        match self.require_stopped() {
            Ok(()) => {},
            Err(e) => {
                return Err(e);
            },
        }
        let from = addr_of(self.pc_index);
        let ghost m0 = self.machine();
        match kind {
            StepKind::Out => {
                if self.call_stack.len() == 0 {
                    self.advance();
                } else {
                    let target = self.call_stack[self.call_stack.len() - 1];
                    self.run_until_exec(target);
                }
            },
            _ => {
                self.advance();
            },
        }
        if self.lifecycle == ProcessLifecycle::Exited {
            self.events.push_back(DebugEvent::ProcessExited { code: 0 });
            return Ok(());
        }
        let to = addr_of(self.pc_index);
        self.events.push_back(DebugEvent::InstructionStepped { thread: self.thread, from: Some(from), to });
        self.events.push_back(DebugEvent::Stopped { thread: self.thread, reason: StopReason::Step, pc: Some(to) });
        Ok(())
    }

    fn run_to_inner(&mut self, target: &RunTarget) -> (r: BindResult<()>)
        requires
            old(self).wf(),
        ensures
            final(self).wf(),
            final(self).bps() == old(self).bps(),
            final(self).next_breakpoint_id() == old(self).next_breakpoint_id(),
            !old(self).machine().lifecycle.stopped() ==> {
                &&& r is Err && r->Err_0 is TargetState
                &&& final(self).machine() == old(self).machine()
                &&& final(self).pending() == old(self).pending()
            },
            old(self).machine().lifecycle.stopped() ==> match run_target_index(*target) {
                None => {
                    &&& r is Err && r->Err_0 is UserInput
                    &&& final(self).machine() == old(self).machine()
                    &&& final(self).pending() == old(self).pending()
                },
                Some(goal) => {
                    let m = run_until(old(self).machine(), goal, 10000);
                    &&& r is Ok
                    &&& final(self).machine() == m
                    &&& final(self).pending() == old(self).pending().push(
                        DebugEvent::Stopped { thread: ThreadId(1), reason: StopReason::Step, pc: Some(Address(addr_spec(m.pc))) },
                    )
                },
            },
    {
        match self.require_stopped() {
            Ok(()) => {},
            Err(e) => {
                return Err(e);
            },
        }
        proof {
            match target {
                RunTarget::Source { line, .. } => lemma_first_with_line_bounds(*line, 0),
                _ => {},
            }
        }
        let goal = match target {
            RunTarget::Address(a) => index_of(*a),
            RunTarget::Source { line, .. } => self.line_index(*line),
        };
        let goal = match goal {
            Some(g) => g,
            None => {
                return Err(BindError::UserInput("no code at run-to target".to_owned()));
            },
        };
        self.run_until_exec(goal);
        let a = addr_of(self.pc_index);
        self.events.push_back(DebugEvent::Stopped { thread: self.thread, reason: StopReason::Step, pc: Some(a) });
        Ok(())
    }

    /// Adds a breakpoint and resolves it against the program.
    fn add_breakpoint_inner(&mut self, location: &BreakpointLocation, condition: Option<&str>) -> (r: BindResult<Breakpoint>)
        requires
            old(self).wf(),
        ensures
            final(self).wf(),
            r is Ok,
            ({
                let b = r.unwrap();
                &&& b.id == BreakpointId(old(self).next_breakpoint_id())
                &&& b.location == *location
                &&& b.enabled
                &&& b.hit_count == 0
                &&& match condition {
                    Some(c) => b.condition is Some && b.condition.unwrap()@ == c@,
                    None => b.condition is None,
                }
                &&& match location_index(*location) {
                    Some(i) => {
                        &&& b.resolved@.len() == 1
                        &&& b.resolved@[0].address == Address(addr_spec(i))
                        &&& b.resolved@[0].symbol is Some && mock_symbol(b.resolved@[0].symbol.unwrap(), i)
                        &&& b.resolved@[0].source is None
                        &&& final(self).pending() == old(self).pending().push(
                            DebugEvent::BreakpointResolved { breakpoint: b.id, address: Address(addr_spec(i)) },
                        )
                    },
                    None => b.resolved@.len() == 0 && final(self).pending() == old(self).pending(),
                }
                &&& final(self).bps() == old(self).bps().push(bp_view(b))
            }),
            final(self).next_breakpoint_id() == wrap_add(old(self).next_breakpoint_id(), 1),
            final(self).machine() == old(self).machine(),
    {
        proof {
            match location {
                BreakpointLocation::Symbol(name) => lemma_first_with_symbol_bounds(name@, 0),
                BreakpointLocation::Source { line, .. } => lemma_first_with_line_bounds(*line, 0),
                _ => {},
            }
        }
        let resolved_index: Option<usize> = match location {
            BreakpointLocation::Address(a) => index_of(*a),
            BreakpointLocation::Symbol(name) => {
                let n = chars_of(name.as_str());
                self.symbol_index(n.as_slice())
            },
            BreakpointLocation::Source { line, .. } => self.line_index(*line),
        };
        let id = BreakpointId::new(self.next_bp);
        self.next_bp = wrapping_add(self.next_bp, 1);
        let mut resolved: Vec<ResolvedLocation> = Vec::new();
        match resolved_index {
            Some(i) => {
                resolved.push(ResolvedLocation { address: addr_of(i), symbol: Some(self.symbol_for(i)), source: None });
            },
            None => {},
        }
        let cond: Option<String> = match condition {
            Some(c) => Some(c.to_owned()),
            None => None,
        };
        let bp = Breakpoint { id, location: location.dup(), enabled: true, hit_count: 0, condition: cond, resolved };
        match resolved_index {
            Some(i) => {
                self.events.push_back(DebugEvent::BreakpointResolved { breakpoint: id, address: addr_of(i) });
            },
            None => {},
        }
        let ghost before = self.bps();
        self.breakpoints.push(bp.dup());
        proof {
            assert(self.bps() =~= before.push(bp_view(bp)));
        }
        Ok(bp)
    }

    fn remove_breakpoint_inner(&mut self, id: BreakpointId) -> (r: BindResult<()>)
        requires
            old(self).wf(),
        ensures
            final(self).wf(),
            r is Ok,
            final(self).bps() == without_id(old(self).bps(), id),
            final(self).machine() == old(self).machine(),
            final(self).pending() == old(self).pending(),
            final(self).next_breakpoint_id() == old(self).next_breakpoint_id(),
    {
        let mut all: Vec<Breakpoint> = Vec::new();
        std::mem::swap(&mut all, &mut self.breakpoints);
        let ghost src = bp_views(all@);
        let mut i: usize = 0;
        while i < all.len()
            invariant
                i <= all@.len(),
                src == bp_views(all@),
                src == old(self).bps(),
                self.wf(),
                self.machine() == old(self).machine(),
                self.pending() == old(self).pending(),
                self.next_breakpoint_id() == old(self).next_breakpoint_id(),
                self.bps() == without_id(src.take(i as int), id),
            decreases all@.len() - i,
        {
            let ghost before = self.bps();
            proof {
                assert(src.take(i + 1).drop_last() =~= src.take(i as int));
                assert(src[i as int] == bp_view(all@[i as int]));
            }
            proof {
                assert(src.take(i + 1).last() == src[i as int]);
                assert(without_id(src.take(i + 1), id) == (if src[i as int].0 != id {
                    without_id(src.take(i as int), id).push(src[i as int])
                } else {
                    without_id(src.take(i as int), id)
                }));
            }
            if all[i].id != id {
                self.breakpoints.push(all[i].dup());
                proof {
                    assert(self.bps() =~= before.push(src[i as int]));
                }
            }
            i = i + 1;
        }
        proof {
            assert(src.take(all@.len() as int) =~= src);
        }
        Ok(())
    }

    fn enable_breakpoint_inner(&mut self, id: BreakpointId, enabled: bool) -> (r: BindResult<()>)
        requires
            old(self).wf(),
        ensures
            final(self).wf(),
            final(self).machine() == old(self).machine(),
            final(self).pending() == old(self).pending(),
            final(self).next_breakpoint_id() == old(self).next_breakpoint_id(),
            match first_bp_with_id(old(self).bps(), id, 0) {
                Some(k) => {
                    let b = old(self).bps()[k];
                    r is Ok && final(self).bps() == old(self).bps().update(k, (b.0, b.1, enabled, b.3, b.4, b.5))
                },
                None => r is Err && r->Err_0 == BindError::UserInput(r->Err_0->UserInput_0)
                    && r->Err_0->UserInput_0@ == "no breakpoint #"@ + dec_digits(id.0 as nat)
                    && final(self).bps() == old(self).bps(),
            },
    {
        proof {
            lemma_first_bp_with_id(self.bps(), id, 0);
        }
        match self.find_bp(id) {
            Some(k) => {
                let ghost before = self.bps();
                let mut b = self.breakpoints.remove(k);
                b.enabled = enabled;
                self.breakpoints.insert(k, b);
                proof {
                    assert(self.bps() =~= before.update(k as int, (before[k as int].0, before[k as int].1, enabled,
                        before[k as int].3, before[k as int].4, before[k as int].5)));
                    assert(first_bp_with_id(before, id, 0) == Some(k as int));
                }
                Ok(())
            },
            None => {
                let mut msg = chars_of("no breakpoint #");
                let d = id.to_display();
                let dc = chars_of(d.as_str());
                push_chars(&mut msg, dc.as_slice());
                Err(BindError::UserInput(string_of(msg.as_slice())))
            },
        }
    }

    fn breakpoints_inner(&mut self) -> (r: BindResult<Vec<Breakpoint>>)
        requires
            old(self).wf(),
        ensures
            final(self).wf(),
            r is Ok && bp_views(r.unwrap()@) == old(self).bps(),
            final(self).same_state(*old(self)),
    {
        let mut out: Vec<Breakpoint> = Vec::new();
        let mut i: usize = 0;
        while i < self.breakpoints.len()
            invariant
                i <= self.breakpoints@.len(),
                bp_views(out@) == bp_views(self.breakpoints@).take(i as int),
            decreases self.breakpoints@.len() - i,
        {
            let ghost before = out@;
            out.push(self.breakpoints[i].dup());
            proof {
                assert(bp_views(out@) =~= bp_views(before).push(bp_view(self.breakpoints@[i as int])));
                assert(bp_views(self.breakpoints@).take(i + 1) =~= bp_views(self.breakpoints@).take(i as int).push(bp_view(self.breakpoints@[i as int])));
            }
            i = i + 1;
        }
        proof {
            assert(bp_views(self.breakpoints@).take(self.breakpoints@.len() as int) =~= bp_views(self.breakpoints@));
        }
        Ok(out)
    }

    fn process_info_inner(&mut self) -> (r: BindResult<ProcessInfo>)
        requires
            old(self).wf(),
        ensures
            final(self).wf(),
            final(self).same_state(*old(self)),
            r is Ok,
            ({
                let p = r.unwrap();
                let m = old(self).machine();
                &&& p.pid == if m.lifecycle.alive() { Some(Pid(4242)) } else { None }
                &&& p.lifecycle == m.lifecycle
                &&& p.arch == Architecture::Aarch64
                &&& p.endianness == Endianness::Little
                &&& p.stop_reason == StopReason::Step
                &&& p.exit_code == m.exit_code
            }),
    {
        Ok(ProcessInfo {
            pid: if self.lifecycle.is_alive() { Some(Pid::new(4242)) } else { None },
            lifecycle: self.lifecycle,
            arch: Architecture::Aarch64,
            endianness: Endianness::Little,
            stop_reason: StopReason::Step,
            exit_code: self.exit_code,
        })
    }

    fn threads_inner(&mut self) -> (r: BindResult<Vec<ThreadInfo>>)
        requires
            old(self).wf(),
        ensures
            final(self).wf(),
            final(self).same_state(*old(self)),
            r is Ok,
            r.unwrap()@.len() == 1,
            ({
                let t = r.unwrap()@[0];
                let m = old(self).machine();
                &&& t.id == ThreadId(1)
                &&& t.name is Some && t.name.unwrap()@ == "main"@
                &&& t.is_selected
                &&& t.run_state == if m.lifecycle.stopped() { ThreadRunState::Stopped } else { ThreadRunState::Running }
                &&& t.stop_reason == StopReason::Step
                &&& t.pc == Some(Address(addr_spec(m.pc)))
            }),
    {
        let mut v: Vec<ThreadInfo> = Vec::new();
        v.push(ThreadInfo {
            id: self.thread,
            name: Some("main".to_owned()),
            is_selected: true,
            run_state: if self.lifecycle.is_stopped() { ThreadRunState::Stopped } else { ThreadRunState::Running },
            stop_reason: StopReason::Step,
            pc: Some(addr_of(self.pc_index)),
        });
        Ok(v)
    }

    /// The current frame, then one synthesized caller frame per pending
    /// return index, innermost first.
    fn frames_inner(&mut self, thread: ThreadId) -> (r: BindResult<Vec<Frame>>)
        requires
            old(self).wf(),
        ensures
            final(self).wf(),
            final(self).same_state(*old(self)),
            !old(self).machine().lifecycle.stopped() ==> r is Err && r->Err_0 is TargetState,
            old(self).machine().lifecycle.stopped() ==> {
                let m = old(self).machine();
                let fs = r.unwrap()@;
                &&& r is Ok
                &&& fs.len() == m.stack.len() + 1
                &&& fs[0].id == FrameId(0) && fs[0].thread_id == thread && fs[0].index == 0
                &&& fs[0].pc == Address(addr_spec(m.pc))
                &&& fs[0].sp == Some(Address(m.sp)) && fs[0].fp == Some(Address(wrap_add(m.sp, 16)))
                &&& fs[0].function is Some && fs[0].function.unwrap()@ == insn_spec(m.pc).symbol@
                &&& fs[0].symbol is Some && mock_symbol(fs[0].symbol.unwrap(), m.pc)
                &&& fs[0].source is Some && fs[0].source.unwrap().file@ == "mock.c"@
                &&& fs[0].source.unwrap().line == insn_spec(m.pc).line && fs[0].source.unwrap().column is None
                &&& !fs[0].is_inlined && fs[0].is_selected
                &&& forall|d: int| 0 <= d < m.stack.len() ==> caller_frame(#[trigger] fs[d + 1], d, m, thread)
            },
    {
        match self.require_stopped() {
            Ok(()) => {},
            Err(e) => {
                return Err(e);
            },
        }
        let ghost m = self.machine();
        let mut frames: Vec<Frame> = Vec::new();
        let pc = self.pc_index;
        frames.push(Frame {
            id: FrameId::new(0),
            thread_id: thread,
            index: 0,
            pc: addr_of(pc),
            sp: Some(Address::new(self.sp)),
            fp: Some(Address::new(wrapping_add(self.sp, 16))),
            function: Some(self.program[pc].symbol.to_owned()),
            symbol: Some(self.symbol_for(pc)),
            source: Some(SourceLocation { file: "mock.c".to_owned(), line: self.program[pc].line, column: None }),
            is_inlined: false,
            is_selected: true,
        });
        let n = self.call_stack.len();
        let mut depth: usize = 0;
        let mut off: u64 = 16;
        while depth < n
            invariant
                self.wf(),
                *self == *old(self),
                m == self.machine(),
                n == m.stack.len(),
                depth <= n,
                off == frame_offset(depth as int),
                frames@.len() == depth + 1,
                frames@[0].id == FrameId(0) && frames@[0].thread_id == thread && frames@[0].index == 0,
                frames@[0].pc == Address(addr_spec(m.pc)),
                frames@[0].sp == Some(Address(m.sp)) && frames@[0].fp == Some(Address(wrap_add(m.sp, 16))),
                frames@[0].function is Some && frames@[0].function.unwrap()@ == insn_spec(m.pc).symbol@,
                frames@[0].symbol is Some && mock_symbol(frames@[0].symbol.unwrap(), m.pc),
                frames@[0].source is Some && frames@[0].source.unwrap().file@ == "mock.c"@,
                frames@[0].source.unwrap().line == insn_spec(m.pc).line && frames@[0].source.unwrap().column is None,
                !frames@[0].is_inlined && frames@[0].is_selected,
                forall|d: int| 0 <= d < depth ==> caller_frame(#[trigger] frames@[d + 1], d, m, thread),
            decreases n - depth,
        {
            let ret_index = self.call_stack[n - 1 - depth];
            proof {
                assert(m.stack[n - 1 - depth] == self.call_stack@[n - 1 - depth] as int);
                assert(0 <= m.stack[n - 1 - depth] < PROGRAM_LEN);
            }
            let caller: usize = if ret_index >= 1 { ret_index - 1 } else { 0 };
            let ghost before = frames@;
            frames.push(Frame {
                id: FrameId::new((depth as u64) + 1),
                thread_id: thread,
                index: depth + 1,
                pc: addr_of(caller),
                sp: Some(Address::new(wrapping_add(self.sp, off))),
                fp: None,
                function: Some(self.program[caller].symbol.to_owned()),
                symbol: Some(self.symbol_for(caller)),
                source: Some(SourceLocation { file: "mock.c".to_owned(), line: self.program[caller].line, column: None }),
                is_inlined: false,
                is_selected: false,
            });
            proof {
                assert(m.stack[n - 1 - depth] == ret_index as int);
                assert forall|d: int| 0 <= d < depth + 1 implies caller_frame(#[trigger] frames@[d + 1], d, m, thread) by {
                    if d < depth {
                        assert(frames@[d + 1] == before[d + 1]);
                    }
                }
            }
            off = wrapping_add(off, 16);
            depth = depth + 1;
        }
        Ok(frames)
    }

    /// x0, x1, x29 (frame pointer), lr, sp, pc and cpsr of the simulated thread.
    fn registers_inner(&mut self, thread: ThreadId) -> (r: BindResult<RegisterSet>)
        requires
            old(self).wf(),
        ensures
            final(self).wf(),
            final(self).same_state(*old(self)),
            !old(self).machine().lifecycle.stopped() ==> r is Err && r->Err_0 is TargetState,
            old(self).machine().lifecycle.stopped() ==> {
                let m = old(self).machine();
                let rs = r.unwrap().registers@;
                &&& r is Ok
                &&& r.unwrap().thread_id == thread
                &&& rs.len() == 7
                &&& reg_is(rs[0], "x0"@, m.x0, 64, RegisterRole::General)
                &&& reg_is(rs[1], "x1"@, 42, 64, RegisterRole::General)
                &&& reg_is(rs[2], "x29"@, wrap_add(m.sp, 16), 64, RegisterRole::FramePointer)
                &&& reg_is(rs[3], "lr"@, (BASE + 8) as u64, 64, RegisterRole::General)
                &&& reg_is(rs[4], "sp"@, m.sp, 64, RegisterRole::StackPointer)
                &&& reg_is(rs[5], "pc"@, addr_spec(m.pc), 64, RegisterRole::ProgramCounter)
                &&& reg_is(rs[6], "cpsr"@, 0x6000_0000, 32, RegisterRole::Flags)
            },
    {
        match self.require_stopped() {
            Ok(()) => {},
            Err(e) => {
                return Err(e);
            },
        }
        let pc = addr_of(self.pc_index).raw();
        let mut regs: Vec<Register> = Vec::new();
        regs.push(Register::new("x0", self.x0, 64, RegisterRole::General));
        regs.push(Register::new("x1", 42, 64, RegisterRole::General));
        regs.push(Register::new("x29", wrapping_add(self.sp, 16), 64, RegisterRole::FramePointer));
        regs.push(Register::new("lr", BASE + 8, 64, RegisterRole::General));
        regs.push(Register::new("sp", self.sp, 64, RegisterRole::StackPointer));
        regs.push(Register::new("pc", pc, 64, RegisterRole::ProgramCounter));
        regs.push(Register::new("cpsr", 0x6000_0000, 32, RegisterRole::Flags));
        Ok(RegisterSet { thread_id: thread, registers: regs })
    }

    /// Code bytes where `addr` falls on the program, else the low byte of the
    /// address, for each of the `len` addresses from `addr` on.
    fn read_memory_inner(&mut self, addr: Address, len: usize) -> (r: BindResult<Vec<u8>>)
        requires
            old(self).wf(),
        ensures
            final(self).wf(),
            final(self).same_state(*old(self)),
            !old(self).machine().lifecycle.stopped() ==> r is Err && r->Err_0 is TargetState,
            old(self).machine().lifecycle.stopped() ==> {
                &&& r is Ok
                &&& r.unwrap()@.len() == len
                &&& forall|i: int| 0 <= i < len ==> #[trigger] r.unwrap()@[i] == mem_byte(wrap_add(addr.0, i as u64))
            },
    {
        match self.require_stopped() {
            Ok(()) => {},
            Err(e) => {
                return Err(e);
            },
        }
        let mut out: Vec<u8> = Vec::new();
        let mut i: usize = 0;
        while i < len
            invariant
                self.wf(),
                i <= len,
                out@.len() == i,
                forall|k: int| 0 <= k < i ==> #[trigger] out@[k] == mem_byte(wrap_add(addr.0, k as u64)),
            decreases len - i,
        {
            let a = wrapping_add(addr.0, i as u64);
            let low: u64 = a & 3u64;
            assert(low < 4) by (bit_vector)
                requires
                    low == a & 3u64,
            ;
            let byte: u8 = match index_of(Address::new(a & !3u64)) {
                Some(idx) => self.program[idx].bytes[low as usize],
                None => (a & 0xffu64) as u8,
            };
            out.push(byte);
            i = i + 1;
        }
        Ok(out)
    }

    /// The instructions from two before the center (the pc, or `around` when
    /// it lands on an instruction), at most `count` of them.
    fn disassemble_inner(&mut self, around: Option<Address>, count: usize) -> (r: BindResult<Vec<Instruction>>)
        requires
            old(self).wf(),
        ensures
            final(self).wf(),
            final(self).same_state(*old(self)),
            r is Ok,
            ({
                let m = old(self).machine();
                let (lo, hi) = disasm_window(around, count, m.pc);
                &&& r.unwrap()@.len() == hi - lo
                &&& forall|k: int| 0 <= k < hi - lo
                    ==> disasm_entry(#[trigger] r.unwrap()@[k], lo + k, m.pc, old(self).bps())
            }),
    {
        let center: usize = match around {
            Some(a) => match index_of(a) {
                Some(i) => i,
                None => self.pc_index,
            },
            None => self.pc_index,
        };
        let start: usize = if center >= 2 { center - 2 } else { 0 };
        let stop_raw: usize = if count > usize::MAX - start { usize::MAX } else { start + count };
        let stop: usize = if stop_raw < PROGRAM_LEN { stop_raw } else { PROGRAM_LEN };
        let mut out: Vec<Instruction> = Vec::new();
        let mut i: usize = start;
        while i < stop
            invariant
                self.wf(),
                *self == *old(self),
                start <= stop <= PROGRAM_LEN,
                (start as int, stop as int) == disasm_window(around, count, self.machine().pc),
                start <= i <= stop,
                out@.len() == i - start,
                forall|k: int| 0 <= k < out@.len() ==> disasm_entry(#[trigger] out@[k], start + k, self.machine().pc, self.bps()),
            decreases stop - i,
        {
            let b = self.program[i].bytes;
            let mut bytes: Vec<u8> = Vec::new();
            bytes.push(b[0]);
            bytes.push(b[1]);
            bytes.push(b[2]);
            bytes.push(b[3]);
            let bp = self.breakpoint_index_at(i);
            let ghost before = out@;
            out.push(Instruction {
                address: addr_of(i),
                bytes,
                mnemonic: self.program[i].mnemonic.to_owned(),
                operands: self.program[i].operands.to_owned(),
                symbol: Some(self.symbol_for(i)),
                source: Some(SourceLocation { file: "mock.c".to_owned(), line: self.program[i].line, column: None }),
                branch_target: None,
                is_current: i == self.pc_index,
                has_breakpoint: bp.is_some(),
            });
            proof {
                assert(out@[out@.len() - 1].bytes@ =~= insn_spec(i as int).bytes@);
                assert forall|k: int| 0 <= k < out@.len() implies disasm_entry(#[trigger] out@[k], start + k, self.machine().pc, self.bps()) by {
                    if k < before.len() {
                        assert(out@[k] == before[k]);
                    }
                }
            }
            i = i + 1;
        }
        Ok(out)
    }

    fn modules_inner(&mut self) -> (r: BindResult<Vec<Module>>)
        requires
            old(self).wf(),
        ensures
            final(self).wf(),
            final(self).same_state(*old(self)),
            r is Ok,
            r.unwrap()@.len() == 1,
            ({
                let md = r.unwrap()@[0];
                &&& md.id == ModuleId(1) && md.path@ == "mock"@ && md.load_address == Some(Address(BASE))
                &&& !md.is_jit && md.has_debug_info
            }),
    {
        let mut v: Vec<Module> = Vec::new();
        v.push(Module {
            id: ModuleId::new(1),
            path: "mock".to_owned(),
            load_address: Some(Address::new(BASE)),
            is_jit: false,
            has_debug_info: true,
        });
        Ok(v)
    }

    fn memory_regions_inner(&mut self) -> (r: BindResult<Vec<MemoryRegion>>)
        requires
            old(self).wf(),
        ensures
            final(self).wf(),
            final(self).same_state(*old(self)),
            r is Ok,
            r.unwrap()@.len() == 1,
            ({
                let g = r.unwrap()@[0];
                &&& g.start == Address(BASE) && g.end == Address((BASE + 4 * PROGRAM_LEN) as u64)
                &&& g.permissions == (MemoryPermissions { read: true, write: false, execute: true })
                &&& g.name is Some && g.name.unwrap()@ == "mock:.text"@
            }),
    {
        let mut v: Vec<MemoryRegion> = Vec::new();
        v.push(MemoryRegion {
            start: Address::new(BASE),
            end: Address::new(BASE + (PROGRAM_LEN as u64) * 4),
            permissions: MemoryPermissions { read: true, write: false, execute: true },
            name: Some("mock:.text".to_owned()),
        });
        Ok(v)
    }

    fn poll_events_inner(&mut self) -> (r: Vec<DebugEvent>)
        requires
            old(self).wf(),
        ensures
            final(self).wf(),
            r@ == old(self).pending(),
            final(self).pending().len() == 0,
            final(self).machine() == old(self).machine(),
            final(self).bps() == old(self).bps(),
            final(self).next_breakpoint_id() == old(self).next_breakpoint_id(),
    {
        let mut out: Vec<DebugEvent> = Vec::new();
        let ghost all = self.events@;
        while self.events.len() > 0
            invariant
                out@ + self.events@ == all,
                self.wf() == old(self).wf(),
                self.machine() == old(self).machine(),
                self.bps() == old(self).bps(),
                self.next_breakpoint_id() == old(self).next_breakpoint_id(),
            decreases self.events@.len(),
        {
            let ghost rest = self.events@;
            match self.events.pop_front() {
                Some(e) => {
                    out.push(e);
                    assert(out@ + self.events@ =~= all);
                },
                None => {},
            }
        }
        assert(out@ + self.events@ =~= out@);
        out
    }
}

impl DebugBackend for MockBackend {
    open spec fn inv(&self) -> bool {
        self.wf()
    }

    closed spec fn received(&self) -> Seq<Request> {
        self.requests@
    }

    open spec fn name_view(&self) -> Seq<char> {
        "mock"@
    }

    fn name(&self) -> (r: &'static str)
        ensures
            r@ == "mock"@,
    {
        "mock"
    }

    fn capabilities(&self) -> (c: Capabilities)
        ensures
            c == (Capabilities {
                launch: true,
                attach: false,
                core_files: false,
                detach: true,
                async_pause: false,
                step_instruction: true,
                step_source: true,
                breakpoints: true,
                conditional_breakpoints: false,
                watchpoints: false,
                read_memory: true,
                write_memory: false,
                disassemble: true,
                registers: true,
                jit_events: false,
                symbol_resolution: true,
                source_resolution: true,
            }),
    {
        Capabilities {
            launch: true,
            attach: false,
            core_files: false,
            detach: true,
            async_pause: false,
            step_instruction: true,
            step_source: true,
            breakpoints: true,
            conditional_breakpoints: false,
            watchpoints: false,
            read_memory: true,
            write_memory: false,
            disassemble: true,
            registers: true,
            jit_events: false,
            symbol_resolution: true,
            source_resolution: true,
        }
    }

    /// Launching stops at the entry point; attaching to a pid or opening a
    /// core file is unsupported.
    fn attach(&mut self, spec: &AttachSpec) -> (r: BindResult<()>)
        ensures
            match *spec {
                AttachSpec::Launch(target) => {
                    let n = old(self).pending().len() as int;
                    &&& r is Ok
                    &&& final(self).machine() == MockMachine {
                        lifecycle: ProcessLifecycle::Stopped,
                        pc: 0,
                        ..old(self).machine()
                    }
                    &&& final(self).pending().len() == n + 4
                    &&& final(self).pending().take(n) == old(self).pending()
                    &&& final(self).pending()[n] == DebugEvent::TargetLoaded {
                        program: target.program,
                        arch: Architecture::Aarch64,
                    }
                    &&& final(self).pending()[n + 1] == DebugEvent::ProcessLaunched { pid: Pid(4242) }
                    &&& final(self).pending()[n + 2] == DebugEvent::ThreadCreated { thread: ThreadId(1) }
                    &&& final(self).pending()[n + 3] matches DebugEvent::Stopped { thread, reason, pc }
                    &&& thread == ThreadId(1) && pc == Some(Address(BASE))
                    &&& reason matches StopReason::Signal(sig) && sig@ == "SIGSTOP"@
                },
                _ => {
                    &&& r is Err && r->Err_0 is Unsupported
                    &&& final(self).machine() == old(self).machine()
                    &&& final(self).pending() == old(self).pending()
                },
            },
            final(self).bps() == old(self).bps(),
            final(self).next_breakpoint_id() == old(self).next_breakpoint_id(),
            final(self).received() == old(self).received().push(Request::Attach { spec: *spec, answer: r }),
    {
        let ghost q = self.requests@;
        let r = self.attach_inner(spec);
        self.requests = Ghost(q.push(Request::Attach { spec: *spec, answer: r }));
        r
    }

    fn detach(&mut self) -> (r: BindResult<()>)
        ensures
            r is Ok,
            final(self).machine() == with_lifecycle(old(self).machine(), ProcessLifecycle::Detached),
            final(self).pending() == old(self).pending().push(DebugEvent::ProcessDetached),
            final(self).bps() == old(self).bps(),
            final(self).next_breakpoint_id() == old(self).next_breakpoint_id(),
            final(self).received() == old(self).received().push(Request::Detach { answer: r }),
    {
        let ghost q = self.requests@;
        let r = self.detach_inner();
        self.requests = Ghost(q.push(Request::Detach { answer: r }));
        r
    }

    fn terminate(&mut self) -> (r: BindResult<()>)
        ensures
            r is Ok,
            final(self).machine() == (MockMachine {
                lifecycle: ProcessLifecycle::Exited,
                exit_code: Some(0),
                ..old(self).machine()
            }),
            final(self).pending() == old(self).pending().push(DebugEvent::ProcessExited { code: 0 }),
            final(self).bps() == old(self).bps(),
            final(self).next_breakpoint_id() == old(self).next_breakpoint_id(),
            final(self).received() == old(self).received().push(Request::Terminate { answer: r }),
    {
        let ghost q = self.requests@;
        let r = self.terminate_inner();
        self.requests = Ghost(q.push(Request::Terminate { answer: r }));
        r
    }

    /// Runs until an enabled breakpoint or the end of the program, bounded to
    /// 10 000 instructions.
    fn resume(&mut self) -> (r: BindResult<()>)
        ensures
            final(self).next_breakpoint_id() == old(self).next_breakpoint_id(),
            !old(self).machine().lifecycle.stopped() ==> {
                &&& r is Err && r->Err_0 is TargetState
                &&& final(self).machine() == old(self).machine()
                &&& final(self).pending() == old(self).pending()
                &&& final(self).bps() == old(self).bps()
            },
            old(self).machine().lifecycle.stopped() ==> {
                let (m, hit) = resume_run(old(self).machine(), old(self).bps(), 10000);
                let base = old(self).pending().push(DebugEvent::Continued);
                &&& r is Ok
                &&& match hit {
                    Some(b) => {
                        &&& final(self).machine() == with_lifecycle(m, ProcessLifecycle::Stopped)
                        &&& final(self).pending() == base.push(DebugEvent::BreakpointHit { breakpoint: b, thread: ThreadId(1) })
                            .push(DebugEvent::Stopped { thread: ThreadId(1), reason: StopReason::Breakpoint(b), pc: Some(Address(addr_spec(m.pc))) })
                        &&& final(self).bps() == count_hit(old(self).bps(), b)
                    },
                    None => {
                        &&& final(self).machine() == m
                        &&& final(self).pending() == if m.lifecycle == ProcessLifecycle::Exited {
                            base.push(DebugEvent::ProcessExited { code: 0 })
                        } else {
                            base
                        }
                        &&& final(self).bps() == old(self).bps()
                    },
                }
            },
            final(self).received() == old(self).received().push(Request::Resume { answer: r }),
    {
        let ghost q = self.requests@;
        let r = self.resume_inner();
        self.requests = Ghost(q.push(Request::Resume { answer: r }));
        r
    }

    fn pause(&mut self) -> (r: BindResult<()>)
        ensures
            r is Err && r->Err_0 is CapabilityLimited,
            final(self).same_state(*old(self)),
            final(self).received() == old(self).received().push(Request::Pause { answer: r }),
    {
        let ghost q = self.requests@;
        let r = self.pause_inner();
        self.requests = Ghost(q.push(Request::Pause { answer: r }));
        r
    }

    fn select_thread(&mut self, thread: ThreadId) -> (r: BindResult<()>)
        ensures
            r is Ok,
            final(self).same_state(*old(self)),
            final(self).received() == old(self).received().push(Request::SelectThread { thread, answer: r }),
    {
        let ghost q = self.requests@;
        let r = self.select_thread_inner(thread);
        self.requests = Ghost(q.push(Request::SelectThread { thread, answer: r }));
        r
    }

    fn select_frame(&mut self, frame_index: usize) -> (r: BindResult<()>)
        ensures
            r is Ok,
            final(self).same_state(*old(self)),
            final(self).received() == old(self).received().push(Request::SelectFrame { frame_index, answer: r }),
    {
        let ghost q = self.requests@;
        let r = self.select_frame_inner(frame_index);
        self.requests = Ghost(q.push(Request::SelectFrame { frame_index, answer: r }));
        r
    }

    fn step(&mut self, kind: StepKind) -> (r: BindResult<()>)
        ensures
            final(self).bps() == old(self).bps(),
            final(self).next_breakpoint_id() == old(self).next_breakpoint_id(),
            !old(self).machine().lifecycle.stopped() ==> {
                &&& r is Err && r->Err_0 is TargetState
                &&& final(self).machine() == old(self).machine()
                &&& final(self).pending() == old(self).pending()
            },
            old(self).machine().lifecycle.stopped() ==> {
                let m = step_run(old(self).machine(), kind);
                &&& r is Ok
                &&& final(self).machine() == m
                &&& final(self).pending() == if m.lifecycle == ProcessLifecycle::Exited {
                    old(self).pending().push(DebugEvent::ProcessExited { code: 0 })
                } else {
                    old(self).pending().push(DebugEvent::InstructionStepped {
                        thread: ThreadId(1),
                        from: Some(Address(addr_spec(old(self).machine().pc))),
                        to: Address(addr_spec(m.pc)),
                    }).push(DebugEvent::Stopped { thread: ThreadId(1), reason: StopReason::Step, pc: Some(Address(addr_spec(m.pc))) })
                }
            },
            final(self).received() == old(self).received().push(Request::Step { kind, answer: r }),
    {
        let ghost q = self.requests@;
        let r = self.step_inner(kind);
        self.requests = Ghost(q.push(Request::Step { kind, answer: r }));
        r
    }

    fn run_to(&mut self, target: &RunTarget) -> (r: BindResult<()>)
        ensures
            final(self).bps() == old(self).bps(),
            final(self).next_breakpoint_id() == old(self).next_breakpoint_id(),
            !old(self).machine().lifecycle.stopped() ==> {
                &&& r is Err && r->Err_0 is TargetState
                &&& final(self).machine() == old(self).machine()
                &&& final(self).pending() == old(self).pending()
            },
            old(self).machine().lifecycle.stopped() ==> match run_target_index(*target) {
                None => {
                    &&& r is Err && r->Err_0 is UserInput
                    &&& final(self).machine() == old(self).machine()
                    &&& final(self).pending() == old(self).pending()
                },
                Some(goal) => {
                    let m = run_until(old(self).machine(), goal, 10000);
                    &&& r is Ok
                    &&& final(self).machine() == m
                    &&& final(self).pending() == old(self).pending().push(
                        DebugEvent::Stopped { thread: ThreadId(1), reason: StopReason::Step, pc: Some(Address(addr_spec(m.pc))) },
                    )
                },
            },
            final(self).received() == old(self).received().push(Request::RunTo { target: *target, answer: r }),
    {
        let ghost q = self.requests@;
        let r = self.run_to_inner(target);
        self.requests = Ghost(q.push(Request::RunTo { target: *target, answer: r }));
        r
    }

    /// Adds a breakpoint and resolves it against the program.
    fn add_breakpoint(&mut self, location: &BreakpointLocation, condition: Option<&str>) -> (r: BindResult<Breakpoint>)
        ensures
            r is Ok,
            ({
                let b = r.unwrap();
                &&& b.id == BreakpointId(old(self).next_breakpoint_id())
                &&& b.location == *location
                &&& b.enabled
                &&& b.hit_count == 0
                &&& match condition {
                    Some(c) => b.condition is Some && b.condition.unwrap()@ == c@,
                    None => b.condition is None,
                }
                &&& match location_index(*location) {
                    Some(i) => {
                        &&& b.resolved@.len() == 1
                        &&& b.resolved@[0].address == Address(addr_spec(i))
                        &&& b.resolved@[0].symbol is Some && mock_symbol(b.resolved@[0].symbol.unwrap(), i)
                        &&& b.resolved@[0].source is None
                        &&& final(self).pending() == old(self).pending().push(
                            DebugEvent::BreakpointResolved { breakpoint: b.id, address: Address(addr_spec(i)) },
                        )
                    },
                    None => b.resolved@.len() == 0 && final(self).pending() == old(self).pending(),
                }
                &&& final(self).bps() == old(self).bps().push(bp_view(b))
            }),
            final(self).next_breakpoint_id() == wrap_add(old(self).next_breakpoint_id(), 1),
            final(self).machine() == old(self).machine(),
            final(self).received() == old(self).received().push(Request::AddBreakpoint { location: *location, condition: opt_text(condition), answer: r }),
    {
        let ghost q = self.requests@;
        let r = self.add_breakpoint_inner(location, condition);
        self.requests = Ghost(q.push(Request::AddBreakpoint { location: *location, condition: opt_text(condition), answer: r }));
        r
    }

    fn remove_breakpoint(&mut self, id: BreakpointId) -> (r: BindResult<()>)
        ensures
            r is Ok,
            final(self).bps() == without_id(old(self).bps(), id),
            final(self).machine() == old(self).machine(),
            final(self).pending() == old(self).pending(),
            final(self).next_breakpoint_id() == old(self).next_breakpoint_id(),
            final(self).received() == old(self).received().push(Request::RemoveBreakpoint { id, answer: r }),
    {
        let ghost q = self.requests@;
        let r = self.remove_breakpoint_inner(id);
        self.requests = Ghost(q.push(Request::RemoveBreakpoint { id, answer: r }));
        r
    }

    fn enable_breakpoint(&mut self, id: BreakpointId, enabled: bool) -> (r: BindResult<()>)
        ensures
            final(self).machine() == old(self).machine(),
            final(self).pending() == old(self).pending(),
            final(self).next_breakpoint_id() == old(self).next_breakpoint_id(),
            match first_bp_with_id(old(self).bps(), id, 0) {
                Some(k) => {
                    let b = old(self).bps()[k];
                    r is Ok && final(self).bps() == old(self).bps().update(k, (b.0, b.1, enabled, b.3, b.4, b.5))
                },
                None => r is Err && r->Err_0 == BindError::UserInput(r->Err_0->UserInput_0)
                    && r->Err_0->UserInput_0@ == "no breakpoint #"@ + dec_digits(id.0 as nat)
                    && final(self).bps() == old(self).bps(),
            },
            final(self).received() == old(self).received().push(Request::EnableBreakpoint { id, enabled, answer: r }),
    {
        let ghost q = self.requests@;
        let r = self.enable_breakpoint_inner(id, enabled);
        self.requests = Ghost(q.push(Request::EnableBreakpoint { id, enabled, answer: r }));
        r
    }

    fn breakpoints(&mut self) -> (r: BindResult<Vec<Breakpoint>>)
        ensures
            r is Ok && bp_views(r.unwrap()@) == old(self).bps(),
            final(self).same_state(*old(self)),
            final(self).received() == old(self).received().push(Request::Breakpoints { answer: r }),
    {
        let ghost q = self.requests@;
        let r = self.breakpoints_inner();
        self.requests = Ghost(q.push(Request::Breakpoints { answer: r }));
        r
    }

    fn process_info(&mut self) -> (r: BindResult<ProcessInfo>)
        ensures
            final(self).same_state(*old(self)),
            r is Ok,
            ({
                let p = r.unwrap();
                let m = old(self).machine();
                &&& p.pid == if m.lifecycle.alive() { Some(Pid(4242)) } else { None }
                &&& p.lifecycle == m.lifecycle
                &&& p.arch == Architecture::Aarch64
                &&& p.endianness == Endianness::Little
                &&& p.stop_reason == StopReason::Step
                &&& p.exit_code == m.exit_code
            }),
            final(self).received() == old(self).received().push(Request::ProcessInfo { answer: r }),
    {
        let ghost q = self.requests@;
        let r = self.process_info_inner();
        self.requests = Ghost(q.push(Request::ProcessInfo { answer: r }));
        r
    }

    fn threads(&mut self) -> (r: BindResult<Vec<ThreadInfo>>)
        ensures
            final(self).same_state(*old(self)),
            r is Ok,
            r.unwrap()@.len() == 1,
            ({
                let t = r.unwrap()@[0];
                let m = old(self).machine();
                &&& t.id == ThreadId(1)
                &&& t.name is Some && t.name.unwrap()@ == "main"@
                &&& t.is_selected
                &&& t.run_state == if m.lifecycle.stopped() { ThreadRunState::Stopped } else { ThreadRunState::Running }
                &&& t.stop_reason == StopReason::Step
                &&& t.pc == Some(Address(addr_spec(m.pc)))
            }),
            final(self).received() == old(self).received().push(Request::Threads { answer: r }),
    {
        let ghost q = self.requests@;
        let r = self.threads_inner();
        self.requests = Ghost(q.push(Request::Threads { answer: r }));
        r
    }

    /// The current frame, then one synthesized caller frame per pending
    /// return index, innermost first.
    fn frames(&mut self, thread: ThreadId) -> (r: BindResult<Vec<Frame>>)
        ensures
            final(self).same_state(*old(self)),
            !old(self).machine().lifecycle.stopped() ==> r is Err && r->Err_0 is TargetState,
            old(self).machine().lifecycle.stopped() ==> {
                let m = old(self).machine();
                let fs = r.unwrap()@;
                &&& r is Ok
                &&& fs.len() == m.stack.len() + 1
                &&& fs[0].id == FrameId(0) && fs[0].thread_id == thread && fs[0].index == 0
                &&& fs[0].pc == Address(addr_spec(m.pc))
                &&& fs[0].sp == Some(Address(m.sp)) && fs[0].fp == Some(Address(wrap_add(m.sp, 16)))
                &&& fs[0].function is Some && fs[0].function.unwrap()@ == insn_spec(m.pc).symbol@
                &&& fs[0].symbol is Some && mock_symbol(fs[0].symbol.unwrap(), m.pc)
                &&& fs[0].source is Some && fs[0].source.unwrap().file@ == "mock.c"@
                &&& fs[0].source.unwrap().line == insn_spec(m.pc).line && fs[0].source.unwrap().column is None
                &&& !fs[0].is_inlined && fs[0].is_selected
                &&& forall|d: int| 0 <= d < m.stack.len() ==> caller_frame(#[trigger] fs[d + 1], d, m, thread)
            },
            final(self).received() == old(self).received().push(Request::Frames { thread, answer: r }),
    {
        let ghost q = self.requests@;
        let r = self.frames_inner(thread);
        self.requests = Ghost(q.push(Request::Frames { thread, answer: r }));
        r
    }

    /// x0, x1, x29 (frame pointer), lr, sp, pc and cpsr of the simulated thread.
    fn registers(&mut self, thread: ThreadId) -> (r: BindResult<RegisterSet>)
        ensures
            final(self).same_state(*old(self)),
            !old(self).machine().lifecycle.stopped() ==> r is Err && r->Err_0 is TargetState,
            old(self).machine().lifecycle.stopped() ==> {
                let m = old(self).machine();
                let rs = r.unwrap().registers@;
                &&& r is Ok
                &&& r.unwrap().thread_id == thread
                &&& rs.len() == 7
                &&& reg_is(rs[0], "x0"@, m.x0, 64, RegisterRole::General)
                &&& reg_is(rs[1], "x1"@, 42, 64, RegisterRole::General)
                &&& reg_is(rs[2], "x29"@, wrap_add(m.sp, 16), 64, RegisterRole::FramePointer)
                &&& reg_is(rs[3], "lr"@, (BASE + 8) as u64, 64, RegisterRole::General)
                &&& reg_is(rs[4], "sp"@, m.sp, 64, RegisterRole::StackPointer)
                &&& reg_is(rs[5], "pc"@, addr_spec(m.pc), 64, RegisterRole::ProgramCounter)
                &&& reg_is(rs[6], "cpsr"@, 0x6000_0000, 32, RegisterRole::Flags)
            },
            final(self).received() == old(self).received().push(Request::Registers { thread, answer: r }),
    {
        let ghost q = self.requests@;
        let r = self.registers_inner(thread);
        self.requests = Ghost(q.push(Request::Registers { thread, answer: r }));
        r
    }

    /// Code bytes where `addr` falls on the program, else the low byte of the
    /// address, for each of the `len` addresses from `addr` on.
    fn read_memory(&mut self, addr: Address, len: usize) -> (r: BindResult<Vec<u8>>)
        ensures
            final(self).same_state(*old(self)),
            !old(self).machine().lifecycle.stopped() ==> r is Err && r->Err_0 is TargetState,
            old(self).machine().lifecycle.stopped() ==> {
                &&& r is Ok
                &&& r.unwrap()@.len() == len
                &&& forall|i: int| 0 <= i < len ==> #[trigger] r.unwrap()@[i] == mem_byte(wrap_add(addr.0, i as u64))
            },
            final(self).received() == old(self).received().push(Request::ReadMemory { addr, len, answer: r }),
    {
        let ghost q = self.requests@;
        let r = self.read_memory_inner(addr, len);
        self.requests = Ghost(q.push(Request::ReadMemory { addr, len, answer: r }));
        r
    }

    /// The instructions from two before the center (the pc, or `around` when
    /// it lands on an instruction), at most `count` of them.
    fn disassemble(&mut self, around: Option<Address>, count: usize) -> (r: BindResult<Vec<Instruction>>)
        ensures
            final(self).same_state(*old(self)),
            r is Ok,
            ({
                let m = old(self).machine();
                let (lo, hi) = disasm_window(around, count, m.pc);
                &&& r.unwrap()@.len() == hi - lo
                &&& forall|k: int| 0 <= k < hi - lo
                    ==> disasm_entry(#[trigger] r.unwrap()@[k], lo + k, m.pc, old(self).bps())
            }),
            final(self).received() == old(self).received().push(Request::Disassemble { around, count, answer: r }),
    {
        let ghost q = self.requests@;
        let r = self.disassemble_inner(around, count);
        self.requests = Ghost(q.push(Request::Disassemble { around, count, answer: r }));
        r
    }

    fn modules(&mut self) -> (r: BindResult<Vec<Module>>)
        ensures
            final(self).same_state(*old(self)),
            r is Ok,
            r.unwrap()@.len() == 1,
            ({
                let md = r.unwrap()@[0];
                &&& md.id == ModuleId(1) && md.path@ == "mock"@ && md.load_address == Some(Address(BASE))
                &&& !md.is_jit && md.has_debug_info
            }),
            final(self).received() == old(self).received().push(Request::Modules { answer: r }),
    {
        let ghost q = self.requests@;
        let r = self.modules_inner();
        self.requests = Ghost(q.push(Request::Modules { answer: r }));
        r
    }

    fn memory_regions(&mut self) -> (r: BindResult<Vec<MemoryRegion>>)
        ensures
            final(self).same_state(*old(self)),
            r is Ok,
            r.unwrap()@.len() == 1,
            ({
                let g = r.unwrap()@[0];
                &&& g.start == Address(BASE) && g.end == Address((BASE + 4 * PROGRAM_LEN) as u64)
                &&& g.permissions == (MemoryPermissions { read: true, write: false, execute: true })
                &&& g.name is Some && g.name.unwrap()@ == "mock:.text"@
            }),
            final(self).received() == old(self).received().push(Request::MemoryRegions { answer: r }),
    {
        let ghost q = self.requests@;
        let r = self.memory_regions_inner();
        self.requests = Ghost(q.push(Request::MemoryRegions { answer: r }));
        r
    }

    fn poll_events(&mut self) -> (r: Vec<DebugEvent>)
        ensures
            r@ == old(self).pending(),
            final(self).pending().len() == 0,
            final(self).machine() == old(self).machine(),
            final(self).bps() == old(self).bps(),
            final(self).next_breakpoint_id() == old(self).next_breakpoint_id(),
            final(self).received() == old(self).received().push(Request::PollEvents { answer: r }),
    {
        let ghost q = self.requests@;
        let r = self.poll_events_inner();
        self.requests = Ghost(q.push(Request::PollEvents { answer: r }));
        r
    }
}

/// From the entry point, resuming runs the loop's first call into `helper`
/// and stops there when the first enabled breakpoint at `helper`'s address
/// is `b` and none is enabled at the call.
pub proof fn lemma_resume_from_entry_stops_in_helper(m: MockMachine, bps: Seq<BreakpointView>, b: BreakpointId)
    requires
        m.pc == 0,
        m.lifecycle.stopped(),
        bp_at(bps, addr_spec(1)) is None,
        bp_at(bps, addr_spec(6)) == Some(b),
    ensures
        resume_run(m, bps, 10000).1 == Some(b),
        resume_run(m, bps, 10000).0.pc == 6,
        resume_run(m, bps, 10000).0.stack == m.stack.push(2),
{
    let m1 = machine_step(m);
    assert(m1.pc == 1);
    assert(!step_exits(m));
    let m2 = machine_step(m1);
    assert(!step_exits(m1));
    assert(m2.pc == 6);
    assert(resume_run(m1, bps, 9999) == (m2, Some(b)));
}

/// Stepping out of `helper`'s entry returns to the pending return index.
pub proof fn lemma_step_out_of_helper(m: MockMachine)
    requires
        m.pc == 6,
        m.stack.len() > 0,
        m.stack.last() == 2,
        m.lifecycle.stopped(),
    ensures
        step_run(m, StepKind::Out).pc == 2,
        step_run(m, StepKind::Out).stack == m.stack.drop_last(),
        step_run(m, StepKind::Out).lifecycle == m.lifecycle,
{
    let m1 = machine_step(m);
    assert(m1.pc == 7);
    assert(m1.stack == m.stack);
    let m2 = machine_step(m1);
    assert(m2.pc == 2);
    assert(run_until(m1, 2, 9999) == m2);
    assert(run_until(m, 2, 10000) == run_until(m1, 2, 9999));
}

} // verus!
