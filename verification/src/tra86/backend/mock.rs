//! A simulated x86-64 backend: a fixed eleven-instruction program, a few
//! general registers that change on every step, and 64 KiB of patterned
//! memory. Used for tests and for running the tracer without a debugger.
use vstd::prelude::*;
use crate::num::{dec_digits, fmt_dec, fmt_hex_padded, hex_digits, pad_left};
use crate::text::{chars_of, push_chars, string_of};
use crate::debugger::mock::{wrap_add, wrap_sub};
use crate::tra86::backend::error::BackendError;
use crate::tra86::backend::traits::{DebugBackend, LaunchRequest, Request};
use crate::tra86::model::{
    Address, Breakpoint, BreakpointId, BreakpointLocation, DisassemblyLine, FrameState, MemoryPermissions, MemoryRegion,
    RegisterBank, RegisterRole, RegisterValue, SourceLocation, StopReason, SymbolInfo, TargetBinary, ThreadId,
    ThreadState, ThreadStatus,
};

verus! {

pub const BASE_ADDR: u64 = 0x1000;

pub const STACK_BASE: u64 = 0x7fff_ff00;

/// Number of instructions in the simulated program.
pub const SAMPLE_LEN: usize = 11;

/// Size of the simulated memory.
pub const MEMORY_LEN: usize = 0x10000;

/// The simulated program's rows: bytes, mnemonic and operands.
pub open spec fn sample_row(k: int) -> (Seq<u8>, Seq<char>, Seq<char>) {
    if k == 0 {
        (seq![0x55u8, 0x48u8, 0x89u8, 0xe5u8], "push"@, "rbp"@)
    } else if k == 1 {
        (seq![0x48u8, 0x83u8, 0xecu8, 0x20u8], "sub"@, "rsp, 0x20"@)
    } else if k == 2 {
        (seq![0x48u8, 0x8bu8, 0x45u8, 0xf8u8], "mov"@, "rax, [rbp-0x8]"@)
    } else if k == 3 {
        (seq![0x48u8, 0x83u8, 0xc0u8, 0x01u8], "add"@, "rax, 0x1"@)
    } else if k == 4 {
        (seq![0x48u8, 0x89u8, 0x45u8, 0xf8u8], "mov"@, "[rbp-0x8], rax"@)
    } else if k == 5 {
        (seq![0xe8u8, 0x07u8, 0x00u8, 0x00u8], "call"@, "0x1020"@)
    } else if k == 6 {
        (seq![0x48u8, 0x83u8, 0xc4u8, 0x20u8], "add"@, "rsp, 0x20"@)
    } else if k == 7 {
        (seq![0x5du8, 0xc3u8, 0x90u8, 0x90u8], "ret"@, ""@)
    } else if k == 8 {
        (seq![0x48u8, 0x31u8, 0xc0u8, 0x90u8], "xor"@, "rax, rax"@)
    } else if k == 9 {
        (seq![0x0fu8, 0x05u8, 0x90u8, 0x90u8], "syscall"@, ""@)
    } else {
        (seq![0xc3u8, 0x90u8, 0x90u8, 0x90u8], "ret"@, ""@)
    }
}

/// `l` is row `k` of the simulated program.
pub open spec fn is_sample_line(l: DisassemblyLine, k: int) -> bool {
    &&& l.address == BASE_ADDR + 4 * k
    &&& l.bytes@ == sample_row(k).0
    &&& l.mnemonic@ == sample_row(k).1
    &&& l.operands@ == sample_row(k).2
    &&& l.function is Some && l.function.unwrap()@ == "main"@
    &&& l.source == Some(SourceLocation { file: l.source.unwrap().file, line: (40 + k) as u32, column: Some(1) })
    &&& l.source.unwrap().file@ == "mock/main.c"@
    &&& l.branch_target == if k == 5 { Some(0x1020u64) } else { None }
    &&& l.is_current == (k == 0)
    &&& !l.has_breakpoint
}

fn push_bytes(v: &mut Vec<u8>, a: u8, b: u8, c: u8, d: u8)
    ensures
        final(v)@ == old(v)@ + seq![a, b, c, d],
{
    v.push(a);
    v.push(b);
    v.push(c);
    v.push(d);
    assert(v@ =~= old(v)@ + seq![a, b, c, d]);
}

fn sample_line(k: usize) -> (l: DisassemblyLine)
    requires
        k < SAMPLE_LEN,
    ensures
        is_sample_line(l, k as int),
{
    let mut bytes: Vec<u8> = Vec::new();
    let (mnemonic, operands): (&str, &str) = if k == 0 {
        push_bytes(&mut bytes, 0x55, 0x48, 0x89, 0xe5);
        ("push", "rbp")
    } else if k == 1 {
        push_bytes(&mut bytes, 0x48, 0x83, 0xec, 0x20);
        ("sub", "rsp, 0x20")
    } else if k == 2 {
        push_bytes(&mut bytes, 0x48, 0x8b, 0x45, 0xf8);
        ("mov", "rax, [rbp-0x8]")
    } else if k == 3 {
        push_bytes(&mut bytes, 0x48, 0x83, 0xc0, 0x01);
        ("add", "rax, 0x1")
    } else if k == 4 {
        push_bytes(&mut bytes, 0x48, 0x89, 0x45, 0xf8);
        ("mov", "[rbp-0x8], rax")
    } else if k == 5 {
        push_bytes(&mut bytes, 0xe8, 0x07, 0x00, 0x00);
        ("call", "0x1020")
    } else if k == 6 {
        push_bytes(&mut bytes, 0x48, 0x83, 0xc4, 0x20);
        ("add", "rsp, 0x20")
    } else if k == 7 {
        push_bytes(&mut bytes, 0x5d, 0xc3, 0x90, 0x90);
        ("ret", "")
    } else if k == 8 {
        push_bytes(&mut bytes, 0x48, 0x31, 0xc0, 0x90);
        ("xor", "rax, rax")
    } else if k == 9 {
        push_bytes(&mut bytes, 0x0f, 0x05, 0x90, 0x90);
        ("syscall", "")
    } else {
        push_bytes(&mut bytes, 0xc3, 0x90, 0x90, 0x90);
        ("ret", "")
    };
    assert(bytes@ =~= sample_row(k as int).0);
    let address: u64 = BASE_ADDR + 4 * (k as u64);
    DisassemblyLine {
        address,
        bytes,
        mnemonic: mnemonic.to_owned(),
        operands: operands.to_owned(),
        function: Some("main".to_owned()),
        source: Some(SourceLocation { file: "mock/main.c".to_owned(), line: 40 + (k as u32), column: Some(1) }),
        branch_target: if k == 5 { Some(0x1020) } else { None },
        is_current: address == BASE_ADDR,
        has_breakpoint: false,
    }
}

/// The simulated program.
pub fn sample_program() -> (p: Vec<DisassemblyLine>)
    ensures
        p@.len() == SAMPLE_LEN,
        forall|k: int| 0 <= k < SAMPLE_LEN ==> is_sample_line(#[trigger] p@[k], k),
{
    let mut p: Vec<DisassemblyLine> = Vec::new();
    let mut k: usize = 0;
    while k < SAMPLE_LEN
        invariant
            k <= SAMPLE_LEN,
            p@.len() == k,
            forall|j: int| 0 <= j < k ==> is_sample_line(#[trigger] p@[j], j),
        decreases SAMPLE_LEN - k,
    {
        p.push(sample_line(k));
        k = k + 1;
    }
    p
}

/// The simulated memory: byte `v` holds `v % 255`.
pub fn sample_memory() -> (m: Vec<u8>)
    ensures
        m@.len() == MEMORY_LEN,
        forall|v: int| 0 <= v < MEMORY_LEN ==> #[trigger] m@[v] == (v % 255) as u8,
{
    let mut m: Vec<u8> = Vec::new();
    let mut v: usize = 0;
    while v < MEMORY_LEN
        invariant
            v <= MEMORY_LEN,
            m@.len() == v,
            forall|j: int| 0 <= j < v ==> #[trigger] m@[j] == (j % 255) as u8,
        decreases MEMORY_LEN - v,
    {
        m.push((v % 255) as u8);
        v = v + 1;
    }
    m
}

fn wrapping_add(a: u64, b: u64) -> (r: u64)
    ensures
        r == wrap_add(a, b),
{
    if a > u64::MAX - b {
        a - (u64::MAX - b) - 1
    } else {
        a + b
    }
}

fn wrapping_sub(a: u64, b: u64) -> (r: u64)
    ensures
        r == wrap_sub(a, b),
{
    if a >= b {
        a - b
    } else {
        u64::MAX - (b - a) + 1
    }
}

/// The first enabled breakpoint at address `a`, at or after position `i`.
pub open spec fn first_enabled_at(bps: Seq<Breakpoint>, a: u64, i: int) -> int
    decreases bps.len() - i,
{
    if i < 0 || i >= bps.len() {
        -1
    } else if bps[i].enabled && bps[i].location == BreakpointLocation::Address(a) {
        i
    } else {
        first_enabled_at(bps, a, i + 1)
    }
}

/// The registers and stop state of the simulated thread.
pub struct MockRegs {
    pub pc: u64,
    pub sp: u64,
    pub bp: u64,
    pub rax: u64,
    pub rbx: u64,
    pub rcx: u64,
    pub rdx: u64,
    pub flags: u64,
}

/// The pc after one step: the next row, wrapping back to the start after
/// the last one.
pub open spec fn next_pc(pc: u64) -> u64 {
    if pc >= BASE_ADDR + (SAMPLE_LEN - 1) * 4 {
        BASE_ADDR
    } else {
        (pc + 4) as u64
    }
}

/// One simulated step of the registers.
pub open spec fn regs_step(r: MockRegs) -> MockRegs {
    let rax = wrap_add(r.rax, 1);
    MockRegs {
        pc: next_pc(r.pc),
        sp: wrap_sub(r.sp, 8),
        bp: r.bp,
        rax,
        rbx: r.rbx ^ rax,
        rcx: wrap_add(r.rcx, 4),
        rdx: r.rdx,
        flags: r.flags ^ 0x40,
    }
}

/// Where a step stores the low byte of `rax`: the stack offset from
/// `STACK_BASE`, wrapped into the simulated memory.
pub open spec fn stack_slot(sp: u64) -> int {
    (wrap_sub(sp, STACK_BASE) % (MEMORY_LEN as u64)) as int
}

pub struct MockBackend {
    target: Option<TargetBinary>,
    attached_pid: Option<u32>,
    running: bool,
    thread_id: ThreadId,
    pc: Address,
    sp: Address,
    bp: Address,
    rax: u64,
    rbx: u64,
    rcx: u64,
    rdx: u64,
    flags: u64,
    next_breakpoint_id: BreakpointId,
    breakpoints: Vec<Breakpoint>,
    stop_reason: StopReason,
    program: Vec<DisassemblyLine>,
    memory: Vec<u8>,
    requests: Ghost<Seq<Request>>,
}

impl MockBackend {
    /// A state that differs only in the received requests is as consistent,
    /// and has the same target.
    pub proof fn lemma_same_state(a: MockBackend, b: MockBackend)
        ensures
            b.same_state(a) ==> (b.wf() == a.wf() && b.target() == a.target()),
    {
    }

    /// All but the received requests are as in `other`.
    pub closed spec fn same_state(self, other: Self) -> bool {
        &&& self.target == other.target
        &&& self.attached_pid == other.attached_pid
        &&& self.running == other.running
        &&& self.thread_id == other.thread_id
        &&& self.pc == other.pc
        &&& self.sp == other.sp
        &&& self.bp == other.bp
        &&& self.rax == other.rax
        &&& self.rbx == other.rbx
        &&& self.rcx == other.rcx
        &&& self.rdx == other.rdx
        &&& self.flags == other.flags
        &&& self.next_breakpoint_id == other.next_breakpoint_id
        &&& self.breakpoints@ == other.breakpoints@
        &&& self.stop_reason == other.stop_reason
        &&& self.program@ == other.program@
        &&& self.memory@ == other.memory@
    }

    pub closed spec fn regs(&self) -> MockRegs {
        MockRegs {
            pc: self.pc,
            sp: self.sp,
            bp: self.bp,
            rax: self.rax,
            rbx: self.rbx,
            rcx: self.rcx,
            rdx: self.rdx,
            flags: self.flags,
        }
    }

    pub closed spec fn target(&self) -> Option<TargetBinary> {
        self.target
    }

    pub closed spec fn attached(&self) -> Option<u32> {
        self.attached_pid
    }

    pub closed spec fn is_running(&self) -> bool {
        self.running
    }

    pub closed spec fn stop(&self) -> StopReason {
        self.stop_reason
    }

    pub closed spec fn bps(&self) -> Seq<Breakpoint> {
        self.breakpoints@
    }

    pub closed spec fn next_id(&self) -> u64 {
        self.next_breakpoint_id
    }

    pub closed spec fn mem(&self) -> Seq<u8> {
        self.memory@
    }

    /// The program and memory keep their shape; the thread is thread 1.
    pub closed spec fn wf(&self) -> bool {
        &&& self.program@.len() == SAMPLE_LEN
        &&& forall|k: int| 0 <= k < SAMPLE_LEN ==> is_sample_line(#[trigger] self.program@[k], k)
        &&& self.memory@.len() == MEMORY_LEN
        &&& self.thread_id == 1
    }

    fn ensure_running(&self) -> (r: Result<(), BackendError>)
        ensures
            r is Ok <==> self.is_running(),
            r is Err ==> r->Err_0 is ProcessNotRunning,
    {
        if self.running {
            Ok(())
        } else {
            Err(BackendError::ProcessNotRunning)
        }
    }

    fn find_enabled_at(&self, a: u64) -> (r: Option<usize>)
        ensures
            r is Some ==> first_enabled_at(self.bps(), a, 0) == r.unwrap() as int && r.unwrap() < self.bps().len(),
            r is None ==> first_enabled_at(self.bps(), a, 0) < 0,
    {
        let mut i: usize = 0;
        proof {
            lemma_first_enabled_at(self.bps(), a, 0);
        }
        while i < self.breakpoints.len()
            invariant
                i <= self.breakpoints@.len(),
                first_enabled_at(self.bps(), a, 0) == first_enabled_at(self.bps(), a, i as int),
            decreases self.breakpoints@.len() - i,
        {
            let b = &self.breakpoints[i];
            let hit = b.enabled && match b.location {
                BreakpointLocation::Address(x) => x == a,
                _ => false,
            };
            if hit {
                return Some(i);
            }
            i = i + 1;
        }
        None
    }

    /// Executes one instruction: the registers step, the pc moves on, a hit
    /// enabled breakpoint counts and becomes the stop reason, and the low
    /// byte of `rax` is stored at the stack slot.
    fn execute_one(&mut self)
        ensures
            final(self).requests == old(self).requests,
            old(self).wf() ==> final(self).wf(),
            final(self).regs() == regs_step(old(self).regs()),
            ({
                let k = first_enabled_at(old(self).bps(), final(self).regs().pc, 0);
                if k >= 0 {
                    &&& final(self).bps() == old(self).bps().update(k, Breakpoint {
                        hit_count: wrap_add(old(self).bps()[k].hit_count, 1),
                        ..old(self).bps()[k]
                    })
                    &&& final(self).stop() == StopReason::Breakpoint(old(self).bps()[k].id)
                } else {
                    final(self).bps() == old(self).bps() && final(self).stop() == StopReason::Step
                }
            }),
            final(self).mem() == if stack_slot(final(self).regs().sp) < old(self).mem().len() {
                old(self).mem().update(stack_slot(final(self).regs().sp), (final(self).regs().rax % 256) as u8)
            } else {
                old(self).mem()
            },
            final(self).target() == old(self).target(),
            final(self).attached() == old(self).attached(),
            final(self).is_running() == old(self).is_running(),
            final(self).next_id() == old(self).next_id(),
    {
        let current = self.pc;
        self.rax = wrapping_add(self.rax, 1);
        self.rbx = self.rbx ^ self.rax;
        self.rcx = wrapping_add(self.rcx, 4);
        self.sp = wrapping_sub(self.sp, 8);
        self.flags = self.flags ^ 0x40;
        let last = BASE_ADDR + ((SAMPLE_LEN - 1) as u64) * 4;
        let next = if current >= last {
            BASE_ADDR
        } else {
            current + 4
        };
        self.pc = next;
        self.stop_reason = StopReason::Step;
        proof {
            lemma_first_enabled_at(self.bps(), next, 0);
        }
        match self.find_enabled_at(next) {
            Some(k) => {
                let ghost before = self.breakpoints@;
                let mut b = self.breakpoints.remove(k);
                b.hit_count = wrapping_add(b.hit_count, 1);
                let id = b.id;
                self.breakpoints.insert(k, b);
                self.stop_reason = StopReason::Breakpoint(id);
                proof {
                    assert(first_enabled_at(before, next, 0) == k as int);
                    assert(before == old(self).bps());
                    assert(self.breakpoints@ =~= before.update(k as int, Breakpoint {
                        hit_count: wrap_add(before[k as int].hit_count, 1),
                        ..before[k as int]
                    }));
                }
            },
            None => {},
        }
        assert(self.regs().pc == next);
        let slot = (wrapping_sub(self.sp, STACK_BASE) % (MEMORY_LEN as u64)) as usize;
        if slot < self.memory.len() {
            self.memory.set(slot, (self.rax % 256) as u8);
        }
    }
}

proof fn lemma_first_enabled_at(bps: Seq<Breakpoint>, a: u64, i: int)
    requires
        0 <= i,
    ensures
        -1 <= first_enabled_at(bps, a, i) < bps.len(),
        first_enabled_at(bps, a, i) >= 0 ==> i <= first_enabled_at(bps, a, i),
        first_enabled_at(bps, a, i) >= 0 ==> bps[first_enabled_at(bps, a, i)].enabled
            && bps[first_enabled_at(bps, a, i)].location == BreakpointLocation::Address(a),
    decreases bps.len() - i,
{
    if i < bps.len() && !(bps[i].enabled && bps[i].location == BreakpointLocation::Address(a)) {
        lemma_first_enabled_at(bps, a, i + 1);
    }
}

/// The address of the `k`-th line of a disassembly starting at `start`
/// (4 bytes per line, saturating at the top of the address space).
pub open spec fn cursor_at(start: u64, k: int) -> u64 {
    if start + 4 * k > u64::MAX {
        u64::MAX
    } else {
        (start + 4 * k) as u64
    }
}

/// Where a disassembly of `count` lines around `center` starts.
pub open spec fn disasm_start(center: u64, count: usize) -> u64 {
    let back = (count / 2) * 4;
    if center >= back {
        (center - back) as u64
    } else {
        0
    }
}

/// The program row at address `a`, if any.
pub open spec fn row_at(a: u64) -> Option<int> {
    if a >= BASE_ADDR && (a - BASE_ADDR) % 4 == 0 && (a - BASE_ADDR) / 4 < SAMPLE_LEN {
        Some((a - BASE_ADDR) / 4)
    } else {
        None
    }
}

/// Whether some enabled breakpoint sits at address `a`.
pub open spec fn enabled_bp_at(bps: Seq<Breakpoint>, a: u64) -> bool {
    exists|i: int| 0 <= i < bps.len() && (#[trigger] bps[i]).enabled && bps[i].location == BreakpointLocation::Address(a)
}

/// The disassembled line at address `a` with the pc at `pc`.
pub open spec fn mock_line(l: DisassemblyLine, a: u64, pc: u64, bps: Seq<Breakpoint>) -> bool {
    &&& l.is_current == (a == pc)
    &&& l.has_breakpoint == enabled_bp_at(bps, a)
    &&& match row_at(a) {
        Some(k) => {
            &&& l.address == a
            &&& l.bytes@ == sample_row(k).0
            &&& l.mnemonic@ == sample_row(k).1
            &&& l.operands@ == sample_row(k).2
            &&& l.function is Some && l.function.unwrap()@ == "main"@
            &&& l.source is Some && l.source.unwrap().file@ == "mock/main.c"@
            &&& l.source.unwrap().line == 40 + k && l.source.unwrap().column == Some(1u32)
            &&& l.branch_target == if k == 5 { Some(0x1020u64) } else { None }
        },
        None => {
            &&& l.address == a
            &&& l.bytes@ == seq![0x90u8]
            &&& l.mnemonic@ == "nop"@
            &&& l.operands@.len() == 0
            &&& l.function is Some && l.function.unwrap()@ == "unknown"@
            &&& l.source is None && l.branch_target is None
        },
    }
}

/// `reg` is named `n`, holds `0x` and the 16-digit hex of `v`, and plays `role`.
pub open spec fn reg_value_is(reg: RegisterValue, n: Seq<char>, v: u64, role: RegisterRole) -> bool {
    &&& reg.name@ == n
    &&& reg.value@ == seq!['0', 'x'] + pad_left(hex_digits(v as nat), 16, '0')
    &&& reg.size_bits == 64
    &&& reg.role == role
}

fn reg_value(name: &str, v: u64, role: RegisterRole) -> (r: RegisterValue)
    ensures
        reg_value_is(r, name@, v, role),
{
    let value = fmt_hex_padded(v, 16);
    RegisterValue { name: name.to_owned(), value: string_of(value.as_slice()), size_bits: 64, role }
}

fn unknown_thread(thread_id: u64) -> (e: BackendError)
    ensures
        e matches BackendError::InvalidRequest(m) && m@ == "unknown thread "@ + dec_digits(thread_id as nat),
{
    let mut v = chars_of("unknown thread ");
    let d = fmt_dec(thread_id);
    push_chars(&mut v, d.as_slice());
    BackendError::InvalidRequest(string_of(v.as_slice()))
}

impl MockBackend {
    /// Whether an enabled breakpoint sits at `a`.
    fn has_enabled_at(&self, a: u64) -> (r: bool)
        ensures
            r == enabled_bp_at(self.bps(), a),
    {
        proof {
            lemma_first_enabled_at(self.bps(), a, 0);
        }
        let found = self.find_enabled_at(a);
        proof {
            if found is Some {
                let k = first_enabled_at(self.bps(), a, 0);
                assert(self.bps()[k].enabled && self.bps()[k].location == BreakpointLocation::Address(a));
            }
            if found is None && enabled_bp_at(self.bps(), a) {
                let i = choose|i: int| 0 <= i < self.bps().len() && (#[trigger] self.bps()[i]).enabled
                    && self.bps()[i].location == BreakpointLocation::Address(a);
                lemma_first_enabled_le(self.bps(), a, 0, i);
            }
        }
        found.is_some()
    }

    /// The program line at `a`, or a `nop` filler.
    fn line_at(&self, a: u64) -> (l: DisassemblyLine)
        ensures
            self.wf() ==> mock_line(l, a, self.regs().pc, self.bps()),
    {
        let mut found: Option<usize> = None;
        let mut j: usize = 0;
        while j < self.program.len()
            invariant
                j <= self.program@.len(),
                found is None ==> forall|q: int| 0 <= q < j ==> (#[trigger] self.program@[q]).address != a,
                found is Some ==> found.unwrap() < self.program@.len() && self.program@[found.unwrap() as int].address == a,
            decreases self.program@.len() - j,
        {
            if found.is_none() && self.program[j].address == a {
                found = Some(j);
            }
            j = j + 1;
        }
        let is_current = a == self.pc;
        let has_breakpoint = self.has_enabled_at(a);
        match found {
            Some(k) => {
                let row = &self.program[k];
                proof {
                    if self.wf() {
                        assert(is_sample_line(self.program@[k as int], k as int));
                        assert(row_at(a) == Some(k as int));
                    }
                }
                let mut l = row.dup();
                l.is_current = is_current;
                l.has_breakpoint = has_breakpoint;
                l
            },
            None => {
                proof {
                    if self.wf() && row_at(a) is Some {
                        let k = row_at(a).unwrap();
                        assert(is_sample_line(self.program@[k], k));
                        assert(self.program@[k].address == a);
                    }
                }
                let mut bytes: Vec<u8> = Vec::new();
                bytes.push(0x90);
                assert(bytes@ =~= seq![0x90u8]);
                DisassemblyLine {
                    address: a,
                    bytes,
                    mnemonic: "nop".to_owned(),
                    operands: String::new(),
                    function: Some("unknown".to_owned()),
                    source: None,
                    branch_target: None,
                    is_current,
                    has_breakpoint,
                }
            },
        }
    }
}

proof fn lemma_first_enabled_le(bps: Seq<Breakpoint>, a: u64, i: int, w: int)
    requires
        0 <= i <= w < bps.len(),
        bps[w].enabled && bps[w].location == BreakpointLocation::Address(a),
    ensures
        first_enabled_at(bps, a, i) >= 0,
    decreases w - i,
{
    if !(bps[i].enabled && bps[i].location == BreakpointLocation::Address(a)) {
        lemma_first_enabled_le(bps, a, i + 1, w);
    }
}

/// The breakpoints without those numbered `id`.
pub open spec fn bps_without(bps: Seq<Breakpoint>, id: u64) -> Seq<Breakpoint>
    decreases bps.len(),
{
    if bps.len() == 0 {
        bps
    } else {
        let rest = bps_without(bps.drop_last(), id);
        if bps.last().id != id {
            rest.push(bps.last())
        } else {
            rest
        }
    }
}

impl Default for MockBackend {
    fn default() -> (m: MockBackend)
        ensures
            m.wf(),
            m.target() is None,
            m.attached() is None,
            !m.is_running(),
            m.regs() == (MockRegs { pc: BASE_ADDR, sp: STACK_BASE, bp: STACK_BASE, rax: 1, rbx: 2, rcx: 3, rdx: 4, flags: 0x202 }),
            m.next_id() == 1,
            m.bps().len() == 0,
            m.stop() == StopReason::NoReason,
            forall|v: int| 0 <= v < MEMORY_LEN ==> #[trigger] m.mem()[v] == (v % 255) as u8,
    {
        MockBackend {
            target: None,
            attached_pid: None,
            running: false,
            thread_id: 1,
            pc: BASE_ADDR,
            sp: STACK_BASE,
            bp: STACK_BASE,
            rax: 1,
            rbx: 2,
            rcx: 3,
            rdx: 4,
            flags: 0x202,
            next_breakpoint_id: 1,
            breakpoints: Vec::new(),
            stop_reason: StopReason::NoReason,
            program: sample_program(),
            memory: sample_memory(),
            requests: Ghost(Seq::empty()),
        }
    }
}

impl MockBackend {
    /// Loads a target without starting it.
    fn open_target_inner(&mut self, program: &str) -> (r: Result<(), BackendError>)
        ensures
            final(self).requests == old(self).requests,
            r is Ok,
            old(self).wf() ==> final(self).wf(),
            final(self).target() is Some && final(self).target().unwrap().program@ == program@,
            final(self).target().unwrap().args@.len() == 0 && final(self).target().unwrap().cwd is None,
            final(self).target().unwrap().env@.len() == 0,
            !final(self).is_running(),
            final(self).stop() == StopReason::NoReason,
            final(self).regs() == (MockRegs { pc: BASE_ADDR, ..old(self).regs() }),
            final(self).bps() == old(self).bps(),
    {
        self.target = Some(TargetBinary { program: program.to_owned(), args: Vec::new(), cwd: None, env: Vec::new() });
        self.running = false;
        self.stop_reason = StopReason::NoReason;
        self.pc = BASE_ADDR;
        Ok(())
    }

    /// Starts the target stopped at the entry point (pid 42000).
    fn launch_inner(&mut self, request: LaunchRequest) -> (r: Result<(), BackendError>)
        ensures
            final(self).requests == old(self).requests,
            r is Ok,
            old(self).wf() ==> final(self).wf(),
            final(self).target() == Some(request.target),
            final(self).is_running(),
            final(self).attached() == Some(42000u32),
            final(self).regs() == (MockRegs { pc: BASE_ADDR, sp: STACK_BASE, bp: STACK_BASE, ..old(self).regs() }),
            final(self).stop() == StopReason::Step,
            final(self).bps() == old(self).bps(),
    {
        self.target = Some(request.target);
        self.running = true;
        self.attached_pid = Some(42000);
        self.pc = BASE_ADDR;
        self.sp = STACK_BASE;
        self.bp = STACK_BASE;
        self.stop_reason = StopReason::Step;
        Ok(())
    }

    fn attach_inner(&mut self, pid: u32) -> (r: Result<(), BackendError>)
        ensures
            final(self).requests == old(self).requests,
            r is Ok,
            old(self).wf() ==> final(self).wf(),
            final(self).attached() == Some(pid),
            final(self).is_running(),
            final(self).stop() == StopReason::Step,
            final(self).regs() == old(self).regs(),
            final(self).target() == old(self).target(),
    {
        self.attached_pid = Some(pid);
        self.running = true;
        self.stop_reason = StopReason::Step;
        Ok(())
    }

    fn detach_inner(&mut self) -> (r: Result<(), BackendError>)
        ensures
            final(self).requests == old(self).requests,
            r is Ok,
            old(self).wf() ==> final(self).wf(),
            !final(self).is_running(),
            final(self).attached() is None,
            final(self).stop() == StopReason::Detached,
            final(self).regs() == old(self).regs(),
            final(self).target() == old(self).target(),
    {
        self.running = false;
        self.attached_pid = None;
        self.stop_reason = StopReason::Detached;
        Ok(())
    }

    fn kill_inner(&mut self) -> (r: Result<(), BackendError>)
        ensures
            final(self).requests == old(self).requests,
            r is Ok,
            old(self).wf() ==> final(self).wf(),
            !final(self).is_running(),
            final(self).stop() == StopReason::Exited(0),
            final(self).regs() == old(self).regs(),
            final(self).target() == old(self).target(),
            final(self).attached() == old(self).attached(),
    {
        self.running = false;
        self.stop_reason = StopReason::Exited(0);
        Ok(())
    }

    /// Executes up to eight instructions, stopping early at a breakpoint.
    fn continue_exec_inner(&mut self) -> (r: Result<(), BackendError>)
        ensures
            final(self).requests == old(self).requests,
            r is Ok <==> old(self).is_running(),
            r is Err ==> r->Err_0 is ProcessNotRunning,
            old(self).wf() ==> final(self).wf(),
            final(self).target() == old(self).target(),
            final(self).is_running() == old(self).is_running(),
            !old(self).is_running() ==> final(self).regs() == old(self).regs() && final(self).stop() == old(self).stop(),
    {
        match self.ensure_running() {
            Ok(()) => {},
            Err(e) => {
                return Err(e);
            },
        }
        let mut n: u32 = 0;
        while n < 8
            invariant
                self.requests == old(self).requests,
                n <= 8,
                old(self).wf() ==> self.wf(),
                self.target() == old(self).target(),
                self.is_running() == old(self).is_running(),
            decreases 8 - n,
        {
            self.execute_one();
            if matches!(self.stop_reason, StopReason::Breakpoint(_)) {
                break;
            }
            n = n + 1;
        }
        Ok(())
    }

    fn step_into_inner(&mut self) -> (r: Result<(), BackendError>)
        ensures
            final(self).requests == old(self).requests,
            r is Ok <==> old(self).is_running(),
            old(self).wf() ==> final(self).wf(),
            final(self).target() == old(self).target(),
            final(self).is_running() == old(self).is_running(),
            old(self).is_running() ==> final(self).regs() == regs_step(old(self).regs()),
            !old(self).is_running() ==> final(self).regs() == old(self).regs(),
    {
        match self.ensure_running() {
            Ok(()) => {},
            Err(e) => {
                return Err(e);
            },
        }
        self.execute_one();
        Ok(())
    }

    fn step_over_inner(&mut self) -> (r: Result<(), BackendError>)
        ensures
            final(self).requests == old(self).requests,
            r is Ok <==> old(self).is_running(),
            old(self).wf() ==> final(self).wf(),
            final(self).target() == old(self).target(),
            final(self).is_running() == old(self).is_running(),
            old(self).is_running() ==> final(self).regs() == regs_step(old(self).regs()),
            !old(self).is_running() ==> final(self).regs() == old(self).regs(),
    {
        self.step_into_inner()
    }

    /// Jumps to the epilogue at `0x1024`.
    fn step_out_inner(&mut self) -> (r: Result<(), BackendError>)
        ensures
            final(self).requests == old(self).requests,
            r is Ok <==> old(self).is_running(),
            old(self).wf() ==> final(self).wf(),
            final(self).target() == old(self).target(),
            final(self).is_running() == old(self).is_running(),
            old(self).is_running() ==> final(self).regs() == (MockRegs { pc: (BASE_ADDR + 0x24) as u64, ..old(self).regs() })
                && final(self).stop() == StopReason::Step,
    {
        match self.ensure_running() {
            Ok(()) => {},
            Err(e) => {
                return Err(e);
            },
        }
        self.pc = BASE_ADDR + 0x24;
        self.stop_reason = StopReason::Step;
        Ok(())
    }

    fn pause_inner(&mut self) -> (r: Result<(), BackendError>)
        ensures
            final(self).requests == old(self).requests,
            r is Ok <==> old(self).is_running(),
            old(self).wf() ==> final(self).wf(),
            final(self).target() == old(self).target(),
            final(self).is_running() == old(self).is_running(),
            final(self).regs() == old(self).regs(),
            old(self).is_running() ==> (final(self).stop() matches StopReason::Signal(s) && s@ == "SIGSTOP"@),
    {
        match self.ensure_running() {
            Ok(()) => {},
            Err(e) => {
                return Err(e);
            },
        }
        self.stop_reason = StopReason::Signal("SIGSTOP".to_owned());
        Ok(())
    }

    /// rip, rsp, rbp, rax, rbx, rcx, rdx and rflags, as `0x` and 16 hex digits.
    fn read_registers_inner(&mut self, thread_id: ThreadId) -> (r: Result<RegisterBank, BackendError>)
        ensures
            final(self).requests == old(self).requests,
            final(self).same_state(*old(self)),
            old(self).wf() ==> (r is Ok <==> thread_id == 1),
            r is Ok ==> {
                let b = r.unwrap();
                let g = old(self).regs();
                &&& b.thread_id == thread_id
                &&& b.bank_name@ == "general"@
                &&& b.registers@.len() == 8
                &&& reg_value_is(b.registers@[0], "rip"@, g.pc, RegisterRole::InstructionPointer)
                &&& reg_value_is(b.registers@[1], "rsp"@, g.sp, RegisterRole::StackPointer)
                &&& reg_value_is(b.registers@[2], "rbp"@, g.bp, RegisterRole::FramePointer)
                &&& reg_value_is(b.registers@[3], "rax"@, g.rax, RegisterRole::General)
                &&& reg_value_is(b.registers@[4], "rbx"@, g.rbx, RegisterRole::General)
                &&& reg_value_is(b.registers@[5], "rcx"@, g.rcx, RegisterRole::General)
                &&& reg_value_is(b.registers@[6], "rdx"@, g.rdx, RegisterRole::General)
                &&& reg_value_is(b.registers@[7], "rflags"@, g.flags, RegisterRole::Flags)
            },
            r is Err ==> (r->Err_0 matches BackendError::InvalidRequest(m) && m@ == "unknown thread "@ + dec_digits(thread_id as nat)),
    {
        if thread_id != self.thread_id {
            return Err(unknown_thread(thread_id));
        }
        let mut regs: Vec<RegisterValue> = Vec::new();
        regs.push(reg_value("rip", self.pc, RegisterRole::InstructionPointer));
        regs.push(reg_value("rsp", self.sp, RegisterRole::StackPointer));
        regs.push(reg_value("rbp", self.bp, RegisterRole::FramePointer));
        regs.push(reg_value("rax", self.rax, RegisterRole::General));
        regs.push(reg_value("rbx", self.rbx, RegisterRole::General));
        regs.push(reg_value("rcx", self.rcx, RegisterRole::General));
        regs.push(reg_value("rdx", self.rdx, RegisterRole::General));
        regs.push(reg_value("rflags", self.flags, RegisterRole::Flags));
        Ok(RegisterBank { thread_id, bank_name: "general".to_owned(), registers: regs })
    }

    /// `length` bytes from `address` on, wrapping around the simulated memory.
    fn read_memory_inner(&mut self, address: Address, length: usize) -> (r: Result<Vec<u8>, BackendError>)
        ensures
            final(self).requests == old(self).requests,
            final(self).same_state(*old(self)),
            r is Err <==> old(self).target() is None,
            r is Err ==> r->Err_0 is InvalidRequest,
            old(self).wf() && r is Ok ==> r.unwrap()@.len() == length && forall|i: int| 0 <= i < length
                ==> #[trigger] r.unwrap()@[i] == old(self).mem()[((address % (MEMORY_LEN as u64)) + i) % (MEMORY_LEN as int)],
    {
        if self.target.is_none() {
            return Err(BackendError::InvalidRequest("no target loaded for memory view".to_owned()));
        }
        let mut out: Vec<u8> = Vec::new();
        if length == 0 {
            return Ok(out);
        }
        let len = self.memory.len();
        if len == 0 {
            return Ok(out);
        }
        let start: usize = (address % (len as u64)) as usize;
        let mut i: usize = 0;
        while i < length
            invariant
                i <= length,
                len == self.memory@.len(),
                len > 0,
                start < len,
                start as int == address % (len as u64),
                out@.len() == i,
                forall|j: int| 0 <= j < i ==> #[trigger] out@[j] == self.memory@[(start + j) % (len as int)],
            decreases length - i,
        {
            let b = i % len;
            let idx = if start >= len - b { start - (len - b) } else { start + b };
            assert(idx as int == (start + i) % (len as int)) by (nonlinear_arith)
                requires
                    b as int == (i as int) % (len as int),
                    idx as int == if start >= len - b { start - (len - b) } else { start + b },
                    start < len,
                    len > 0,
            ;
            out.push(self.memory[idx]);
            i = i + 1;
        }
        Ok(out)
    }

    fn write_memory_inner(&mut self, address: Address, bytes: &[u8]) -> (r: Result<(), BackendError>)
        ensures
            final(self).requests == old(self).requests,
            r is Err <==> old(self).target() is None,
            old(self).wf() ==> final(self).wf(),
            final(self).regs() == old(self).regs(),
            final(self).target() == old(self).target(),
            final(self).mem().len() == old(self).mem().len(),
    {
        if self.target.is_none() {
            return Err(BackendError::InvalidRequest("no target loaded for memory write".to_owned()));
        }
        let len = self.memory.len();
        if len == 0 {
            return Ok(());
        }
        let start: usize = (address % (len as u64)) as usize;
        let mut i: usize = 0;
        while i < bytes.len()
            invariant
                self.requests == old(self).requests,
                i <= bytes@.len(),
                len == self.memory@.len(),
                len > 0,
                start < len,
                old(self).wf() ==> self.wf(),
                self.regs() == old(self).regs(),
                self.target() == old(self).target(),
            decreases bytes@.len() - i,
        {
            let b = i % len;
            let idx = if start >= len - b { start - (len - b) } else { start + b };
            self.memory.set(idx, bytes[i]);
            i = i + 1;
        }
        Ok(())
    }

    fn list_threads_inner(&mut self) -> (r: Result<Vec<ThreadState>, BackendError>)
        ensures
            final(self).requests == old(self).requests,
            final(self).same_state(*old(self)),
            r is Ok <==> old(self).is_running(),
            r is Err ==> r->Err_0 is ProcessNotRunning,
            r is Ok ==> r.unwrap()@.len() == 1 && ({
                let t = r.unwrap()@[0];
                &&& t.id == 1 || !old(self).wf()
                &&& t.name is Some && t.name.unwrap()@ == "main"@
                &&& t.is_current
                &&& t.status == ThreadStatus::Stopped
                &&& t.stop_reason == old(self).stop()
                &&& t.instruction_pointer == Some(old(self).regs().pc)
            }),
    {
        match self.ensure_running() {
            Ok(()) => {},
            Err(e) => {
                return Err(e);
            },
        }
        let mut v: Vec<ThreadState> = Vec::new();
        v.push(ThreadState {
            id: self.thread_id,
            name: Some("main".to_owned()),
            is_current: true,
            status: ThreadStatus::Stopped,
            stop_reason: self.stop_reason.dup(),
            instruction_pointer: Some(self.pc),
        });
        Ok(v)
    }

    fn list_frames_inner(&mut self, thread_id: ThreadId) -> (r: Result<Vec<FrameState>, BackendError>)
        ensures
            final(self).requests == old(self).requests,
            final(self).same_state(*old(self)),
            old(self).wf() ==> (r is Ok <==> thread_id == 1),
            r is Ok ==> r.unwrap()@.len() == 1 && ({
                let f = r.unwrap()@[0];
                let g = old(self).regs();
                &&& f.id == 0 && f.thread_id == thread_id && f.index == 0
                &&& f.instruction_pointer == g.pc
                &&& f.stack_pointer == Some(g.sp) && f.frame_pointer == Some(g.bp)
                &&& f.function is Some && f.function.unwrap()@ == "main"@
                &&& f.symbol is Some && f.symbol.unwrap().name@ == "main"@
                &&& f.symbol.unwrap().offset == (if g.pc >= BASE_ADDR { g.pc - BASE_ADDR } else { 0 })
                &&& f.symbol.unwrap().module == match old(self).target() {
                    Some(t) => Some(t.program),
                    None => None,
                }
                &&& f.source is Some && f.source.unwrap().file@ == "mock/main.c"@
                &&& f.source.unwrap().line == 42 && f.source.unwrap().column == Some(1u32)
            }),
    {
        if thread_id != self.thread_id {
            return Err(unknown_thread(thread_id));
        }
        let module = match &self.target {
            Some(t) => Some(t.program.clone()),
            None => None,
        };
        let mut v: Vec<FrameState> = Vec::new();
        v.push(FrameState {
            id: 0,
            thread_id,
            index: 0,
            instruction_pointer: self.pc,
            stack_pointer: Some(self.sp),
            frame_pointer: Some(self.bp),
            function: Some("main".to_owned()),
            symbol: Some(SymbolInfo {
                name: "main".to_owned(),
                module,
                offset: if self.pc >= BASE_ADDR { self.pc - BASE_ADDR } else { 0 },
            }),
            source: Some(SourceLocation { file: "mock/main.c".to_owned(), line: 42, column: Some(1) }),
        });
        Ok(v)
    }

    fn set_breakpoint_inner(&mut self, location: BreakpointLocation) -> (r: Result<Breakpoint, BackendError>)
        ensures
            final(self).requests == old(self).requests,
            r is Ok,
            r.unwrap() == (Breakpoint { id: old(self).next_id(), location, enabled: true, hit_count: 0 }),
            final(self).bps() == old(self).bps().push(r.unwrap()),
            final(self).next_id() == wrap_add(old(self).next_id(), 1),
            old(self).wf() ==> final(self).wf(),
            final(self).regs() == old(self).regs(),
            final(self).target() == old(self).target(),
    {
        let bp = Breakpoint { id: self.next_breakpoint_id, location, enabled: true, hit_count: 0 };
        self.next_breakpoint_id = wrapping_add(self.next_breakpoint_id, 1);
        self.breakpoints.push(bp.dup());
        Ok(bp)
    }

    fn remove_breakpoint_inner(&mut self, id: BreakpointId) -> (r: Result<(), BackendError>)
        ensures
            final(self).requests == old(self).requests,
            final(self).bps() == bps_without(old(self).bps(), id),
            r is Ok <==> bps_without(old(self).bps(), id).len() != old(self).bps().len(),
            r is Err ==> (r->Err_0 matches BackendError::InvalidRequest(m)
                && m@ == "breakpoint "@ + dec_digits(id as nat) + " not found"@),
            old(self).wf() ==> final(self).wf(),
            final(self).regs() == old(self).regs(),
            final(self).target() == old(self).target(),
    {
        let mut all: Vec<Breakpoint> = Vec::new();
        std::mem::swap(&mut all, &mut self.breakpoints);
        let len_before = all.len();
        let mut i: usize = 0;
        while i < all.len()
            invariant
                self.requests == old(self).requests,
                i <= all@.len(),
                all@ == old(self).bps(),
                len_before == all@.len(),
                self.breakpoints@ == bps_without(all@.take(i as int), id),
                old(self).wf() ==> self.wf(),
                self.regs() == old(self).regs(),
                self.target() == old(self).target(),
            decreases all@.len() - i,
        {
            proof {
                assert(all@.take(i + 1).drop_last() =~= all@.take(i as int));
                assert(all@.take(i + 1).last() == all@[i as int]);
            }
            if all[i].id != id {
                self.breakpoints.push(all[i].dup());
            }
            i = i + 1;
        }
        proof {
            assert(all@.take(all@.len() as int) =~= all@);
        }
        if len_before == self.breakpoints.len() {
            let mut v = chars_of("breakpoint ");
            let d = fmt_dec(id);
            push_chars(&mut v, d.as_slice());
            crate::text::push_str(&mut v, " not found");
            return Err(BackendError::InvalidRequest(string_of(v.as_slice())));
        }
        Ok(())
    }

    /// `count` lines, four bytes apart, from half of them before `address`
    /// (or the pc) on; addresses off the program read as `nop`.
    fn disassemble_inner(&mut self, address: Option<Address>, count: usize) -> (r: Result<Vec<DisassemblyLine>, BackendError>)
        ensures
            final(self).requests == old(self).requests,
            final(self).same_state(*old(self)),
            r is Err <==> old(self).target() is None,
            r is Err ==> r->Err_0 is InvalidRequest,
            old(self).wf() && r is Ok ==> {
                let center = match address {
                    Some(a) => a,
                    None => old(self).regs().pc,
                };
                let start = disasm_start(center, count);
                &&& r.unwrap()@.len() == count
                &&& forall|k: int| 0 <= k < count ==> mock_line(#[trigger] r.unwrap()@[k], cursor_at(start, k),
                    old(self).regs().pc, old(self).bps())
            },
    {
        if self.target.is_none() {
            return Err(BackendError::InvalidRequest("no target loaded for disassembly".to_owned()));
        }
        let mut lines: Vec<DisassemblyLine> = Vec::new();
        let center = match address {
            Some(a) => a,
            None => self.pc,
        };
        let half: u64 = (count / 2) as u64;
        let back: u128 = (half as u128) * 4;
        let mut cursor: u64 = if (center as u128) >= back { (center as u128 - back) as u64 } else { 0 };
        let ghost start = cursor;
        let mut k: usize = 0;
        while k < count
            invariant
                k <= count,
                *self == *old(self),
                cursor == cursor_at(start, k as int),
                lines@.len() == k,
                self.wf() ==> forall|j: int| 0 <= j < k ==> mock_line(#[trigger] lines@[j], cursor_at(start, j), self.regs().pc, self.bps()),
            decreases count - k,
        {
            let line = self.line_at(cursor);
            lines.push(line);
            cursor = if cursor > u64::MAX - 4 { u64::MAX } else { cursor + 4 };
            k = k + 1;
        }
        Ok(lines)
    }

    fn memory_map_inner(&mut self) -> (r: Result<Vec<MemoryRegion>, BackendError>)
        ensures
            final(self).requests == old(self).requests,
            final(self).same_state(*old(self)),
            r is Ok <==> old(self).is_running(),
            r is Err ==> r->Err_0 is ProcessNotRunning,
            r is Ok ==> r.unwrap()@.len() == 3 && ({
                let m = r.unwrap()@;
                &&& m[0].start == BASE_ADDR && m[0].end == BASE_ADDR + 0x4000
                &&& m[0].permissions == (MemoryPermissions { read: true, write: false, execute: true })
                &&& m[0].pathname == match old(self).target() {
                    Some(t) => Some(t.program),
                    None => None,
                }
                &&& m[0].label is Some && m[0].label.unwrap()@ == ".text"@
                &&& m[1].start == 0x2000_0000 && m[1].end == 0x2000_2000
                &&& m[1].permissions == (MemoryPermissions { read: true, write: true, execute: false })
                &&& m[1].pathname is None && m[1].label is Some && m[1].label.unwrap()@ == "heap"@
                &&& m[2].start == STACK_BASE - 0x8000 && m[2].end == STACK_BASE + 0x1000
                &&& m[2].permissions == (MemoryPermissions { read: true, write: true, execute: false })
                &&& m[2].pathname is None && m[2].label is Some && m[2].label.unwrap()@ == "stack"@
            }),
    {
        match self.ensure_running() {
            Ok(()) => {},
            Err(e) => {
                return Err(e);
            },
        }
        let path = match &self.target {
            Some(t) => Some(t.program.clone()),
            None => None,
        };
        let mut v: Vec<MemoryRegion> = Vec::new();
        v.push(MemoryRegion {
            start: BASE_ADDR,
            end: BASE_ADDR + 0x4000,
            permissions: MemoryPermissions { read: true, write: false, execute: true },
            pathname: path,
            label: Some(".text".to_owned()),
        });
        v.push(MemoryRegion {
            start: 0x2000_0000,
            end: 0x2000_2000,
            permissions: MemoryPermissions { read: true, write: true, execute: false },
            pathname: None,
            label: Some("heap".to_owned()),
        });
        v.push(MemoryRegion {
            start: STACK_BASE - 0x8000,
            end: STACK_BASE + 0x1000,
            permissions: MemoryPermissions { read: true, write: true, execute: false },
            pathname: None,
            label: Some("stack".to_owned()),
        });
        Ok(v)
    }

    fn current_instruction_inner(&mut self, thread_id: ThreadId) -> (r: Result<Option<Address>, BackendError>)
        ensures
            final(self).requests == old(self).requests,
            final(self).same_state(*old(self)),
            r is Ok,
            old(self).wf() ==> r.unwrap() == if thread_id == 1 { Some(old(self).regs().pc) } else { None },
    {
        if thread_id != self.thread_id {
            return Ok(None);
        }
        Ok(Some(self.pc))
    }

    fn current_stop_reason_inner(&mut self) -> (r: Result<StopReason, BackendError>)
        ensures
            final(self).requests == old(self).requests,
            final(self).same_state(*old(self)),
            r == Ok::<StopReason, BackendError>(old(self).stop()),
    {
        Ok(self.stop_reason.dup())
    }

    fn source_location_inner(&mut self, address: Address) -> (r: Result<Option<SourceLocation>, BackendError>)
        ensures
            final(self).requests == old(self).requests,
            final(self).same_state(*old(self)),
            r is Ok,
            (BASE_ADDR <= address <= BASE_ADDR + 0x28) ==> r.unwrap() is Some && ({
                let s = r.unwrap().unwrap();
                s.file@ == "mock/main.c"@ && s.line == 40 + (address - BASE_ADDR) / 4 && s.column == Some(1u32)
            }),
            !(BASE_ADDR <= address <= BASE_ADDR + 0x28) ==> r.unwrap() is None,
    {
        if BASE_ADDR <= address && address <= BASE_ADDR + 0x28 {
            Ok(Some(SourceLocation {
                file: "mock/main.c".to_owned(),
                line: 40 + ((address - BASE_ADDR) / 4) as u32,
                column: Some(1),
            }))
        } else {
            Ok(None)
        }
    }

    fn symbolicate_inner(&mut self, address: Address) -> (r: Result<Option<SymbolInfo>, BackendError>)
        ensures
            final(self).requests == old(self).requests,
            final(self).same_state(*old(self)),
            r is Ok,
            (BASE_ADDR <= address <= BASE_ADDR + 0x2c) ==> r.unwrap() is Some && ({
                let s = r.unwrap().unwrap();
                &&& s.name@ == "main"@
                &&& s.offset == address - BASE_ADDR
                &&& s.module == match old(self).target() {
                    Some(t) => Some(t.program),
                    None => None,
                }
            }),
            !(BASE_ADDR <= address <= BASE_ADDR + 0x2c) ==> r.unwrap() is None,
    {
        if BASE_ADDR <= address && address <= BASE_ADDR + 0x2c {
            let module = match &self.target {
                Some(t) => Some(t.program.clone()),
                None => None,
            };
            Ok(Some(SymbolInfo { name: "main".to_owned(), module, offset: address - BASE_ADDR }))
        } else {
            Ok(None)
        }
    }
}

impl DebugBackend for MockBackend {
    closed spec fn received(&self) -> Seq<Request> {
        self.requests@
    }

    open spec fn name_view(&self) -> Seq<char> {
        "mock"@
    }

    fn backend_name(&self) -> (r: &'static str)
        ensures
            r@ == "mock"@,
    {
        "mock"
    }

    /// Loads a target without starting it.
    fn open_target(&mut self, program: &str) -> (r: Result<(), BackendError>)
        ensures
            r is Ok,
            old(self).wf() ==> final(self).wf(),
            final(self).target() is Some && final(self).target().unwrap().program@ == program@,
            final(self).target().unwrap().args@.len() == 0 && final(self).target().unwrap().cwd is None,
            final(self).target().unwrap().env@.len() == 0,
            !final(self).is_running(),
            final(self).stop() == StopReason::NoReason,
            final(self).regs() == (MockRegs { pc: BASE_ADDR, ..old(self).regs() }),
            final(self).bps() == old(self).bps(),
            final(self).received() == old(self).received().push(Request::OpenTarget { program: program@, answer: r }),
    {
        let r = self.open_target_inner(program);
        self.requests = Ghost(self.requests@.push(Request::OpenTarget { program: program@, answer: r }));
        r
    }

    /// Starts the target stopped at the entry point (pid 42000).
    fn launch(&mut self, request: LaunchRequest) -> (r: Result<(), BackendError>)
        ensures
            r is Ok,
            old(self).wf() ==> final(self).wf(),
            final(self).target() == Some(request.target),
            final(self).is_running(),
            final(self).attached() == Some(42000u32),
            final(self).regs() == (MockRegs { pc: BASE_ADDR, sp: STACK_BASE, bp: STACK_BASE, ..old(self).regs() }),
            final(self).stop() == StopReason::Step,
            final(self).bps() == old(self).bps(),
            final(self).received() == old(self).received().push(Request::Launch { request, answer: r }),
    {
        let ghost req = request;
        let r = self.launch_inner(request);
        self.requests = Ghost(self.requests@.push(Request::Launch { request: req, answer: r }));
        r
    }

    fn attach(&mut self, pid: u32) -> (r: Result<(), BackendError>)
        ensures
            r is Ok,
            old(self).wf() ==> final(self).wf(),
            final(self).attached() == Some(pid),
            final(self).is_running(),
            final(self).stop() == StopReason::Step,
            final(self).regs() == old(self).regs(),
            final(self).target() == old(self).target(),
            final(self).received() == old(self).received().push(Request::Attach { pid, answer: r }),
    {
        let r = self.attach_inner(pid);
        self.requests = Ghost(self.requests@.push(Request::Attach { pid, answer: r }));
        r
    }

    fn detach(&mut self) -> (r: Result<(), BackendError>)
        ensures
            r is Ok,
            old(self).wf() ==> final(self).wf(),
            !final(self).is_running(),
            final(self).attached() is None,
            final(self).stop() == StopReason::Detached,
            final(self).regs() == old(self).regs(),
            final(self).target() == old(self).target(),
            final(self).received() == old(self).received().push(Request::Detach { answer: r }),
    {
        let r = self.detach_inner();
        self.requests = Ghost(self.requests@.push(Request::Detach { answer: r }));
        r
    }

    fn kill(&mut self) -> (r: Result<(), BackendError>)
        ensures
            r is Ok,
            old(self).wf() ==> final(self).wf(),
            !final(self).is_running(),
            final(self).stop() == StopReason::Exited(0),
            final(self).regs() == old(self).regs(),
            final(self).target() == old(self).target(),
            final(self).attached() == old(self).attached(),
            final(self).received() == old(self).received().push(Request::Kill { answer: r }),
    {
        let r = self.kill_inner();
        self.requests = Ghost(self.requests@.push(Request::Kill { answer: r }));
        r
    }

    /// Executes up to eight instructions, stopping early at a breakpoint.
    fn continue_exec(&mut self) -> (r: Result<(), BackendError>)
        ensures
            r is Ok <==> old(self).is_running(),
            r is Err ==> r->Err_0 is ProcessNotRunning,
            old(self).wf() ==> final(self).wf(),
            final(self).target() == old(self).target(),
            final(self).is_running() == old(self).is_running(),
            !old(self).is_running() ==> final(self).regs() == old(self).regs() && final(self).stop() == old(self).stop(),
            final(self).received() == old(self).received().push(Request::Continue { answer: r }),
    {
        let r = self.continue_exec_inner();
        self.requests = Ghost(self.requests@.push(Request::Continue { answer: r }));
        r
    }

    fn step_into(&mut self) -> (r: Result<(), BackendError>)
        ensures
            r is Ok <==> old(self).is_running(),
            old(self).wf() ==> final(self).wf(),
            final(self).target() == old(self).target(),
            final(self).is_running() == old(self).is_running(),
            old(self).is_running() ==> final(self).regs() == regs_step(old(self).regs()),
            !old(self).is_running() ==> final(self).regs() == old(self).regs(),
            final(self).received() == old(self).received().push(Request::StepInto { answer: r }),
    {
        let r = self.step_into_inner();
        self.requests = Ghost(self.requests@.push(Request::StepInto { answer: r }));
        r
    }

    fn step_over(&mut self) -> (r: Result<(), BackendError>)
        ensures
            r is Ok <==> old(self).is_running(),
            old(self).wf() ==> final(self).wf(),
            final(self).target() == old(self).target(),
            final(self).is_running() == old(self).is_running(),
            old(self).is_running() ==> final(self).regs() == regs_step(old(self).regs()),
            !old(self).is_running() ==> final(self).regs() == old(self).regs(),
            final(self).received() == old(self).received().push(Request::StepOver { answer: r }),
    {
        let r = self.step_over_inner();
        self.requests = Ghost(self.requests@.push(Request::StepOver { answer: r }));
        r
    }

    /// Jumps to the epilogue at `0x1024`.
    fn step_out(&mut self) -> (r: Result<(), BackendError>)
        ensures
            r is Ok <==> old(self).is_running(),
            old(self).wf() ==> final(self).wf(),
            final(self).target() == old(self).target(),
            final(self).is_running() == old(self).is_running(),
            old(self).is_running() ==> final(self).regs() == (MockRegs { pc: (BASE_ADDR + 0x24) as u64, ..old(self).regs() })
                && final(self).stop() == StopReason::Step,
            final(self).received() == old(self).received().push(Request::StepOut { answer: r }),
    {
        let r = self.step_out_inner();
        self.requests = Ghost(self.requests@.push(Request::StepOut { answer: r }));
        r
    }

    fn pause(&mut self) -> (r: Result<(), BackendError>)
        ensures
            r is Ok <==> old(self).is_running(),
            old(self).wf() ==> final(self).wf(),
            final(self).target() == old(self).target(),
            final(self).is_running() == old(self).is_running(),
            final(self).regs() == old(self).regs(),
            old(self).is_running() ==> (final(self).stop() matches StopReason::Signal(s) && s@ == "SIGSTOP"@),
            final(self).received() == old(self).received().push(Request::Pause { answer: r }),
    {
        let r = self.pause_inner();
        self.requests = Ghost(self.requests@.push(Request::Pause { answer: r }));
        r
    }

    /// rip, rsp, rbp, rax, rbx, rcx, rdx and rflags, as `0x` and 16 hex digits.
    fn read_registers(&mut self, thread_id: ThreadId) -> (r: Result<RegisterBank, BackendError>)
        ensures
            final(self).same_state(*old(self)),
            old(self).wf() ==> (r is Ok <==> thread_id == 1),
            r is Ok ==> {
                let b = r.unwrap();
                let g = old(self).regs();
                &&& b.thread_id == thread_id
                &&& b.bank_name@ == "general"@
                &&& b.registers@.len() == 8
                &&& reg_value_is(b.registers@[0], "rip"@, g.pc, RegisterRole::InstructionPointer)
                &&& reg_value_is(b.registers@[1], "rsp"@, g.sp, RegisterRole::StackPointer)
                &&& reg_value_is(b.registers@[2], "rbp"@, g.bp, RegisterRole::FramePointer)
                &&& reg_value_is(b.registers@[3], "rax"@, g.rax, RegisterRole::General)
                &&& reg_value_is(b.registers@[4], "rbx"@, g.rbx, RegisterRole::General)
                &&& reg_value_is(b.registers@[5], "rcx"@, g.rcx, RegisterRole::General)
                &&& reg_value_is(b.registers@[6], "rdx"@, g.rdx, RegisterRole::General)
                &&& reg_value_is(b.registers@[7], "rflags"@, g.flags, RegisterRole::Flags)
            },
            r is Err ==> (r->Err_0 matches BackendError::InvalidRequest(m) && m@ == "unknown thread "@ + dec_digits(thread_id as nat)),
            final(self).received() == old(self).received().push(Request::ReadRegisters { thread_id, answer: r }),
    {
        let r = self.read_registers_inner(thread_id);
        self.requests = Ghost(self.requests@.push(Request::ReadRegisters { thread_id, answer: r }));
        r
    }

    /// `length` bytes from `address` on, wrapping around the simulated memory.
    fn read_memory(&mut self, address: Address, length: usize) -> (r: Result<Vec<u8>, BackendError>)
        ensures
            final(self).same_state(*old(self)),
            r is Err <==> old(self).target() is None,
            r is Err ==> r->Err_0 is InvalidRequest,
            old(self).wf() && r is Ok ==> r.unwrap()@.len() == length && forall|i: int| 0 <= i < length
                ==> #[trigger] r.unwrap()@[i] == old(self).mem()[((address % (MEMORY_LEN as u64)) + i) % (MEMORY_LEN as int)],
            final(self).received() == old(self).received().push(Request::ReadMemory { address, length, answer: r }),
    {
        let r = self.read_memory_inner(address, length);
        self.requests = Ghost(self.requests@.push(Request::ReadMemory { address, length, answer: r }));
        r
    }

    fn write_memory(&mut self, address: Address, bytes: &[u8]) -> (r: Result<(), BackendError>)
        ensures
            r is Err <==> old(self).target() is None,
            old(self).wf() ==> final(self).wf(),
            final(self).regs() == old(self).regs(),
            final(self).target() == old(self).target(),
            final(self).mem().len() == old(self).mem().len(),
            final(self).received() == old(self).received().push(Request::WriteMemory { address, bytes: bytes@, answer: r }),
    {
        let r = self.write_memory_inner(address, bytes);
        self.requests = Ghost(self.requests@.push(Request::WriteMemory { address, bytes: bytes@, answer: r }));
        r
    }

    fn list_threads(&mut self) -> (r: Result<Vec<ThreadState>, BackendError>)
        ensures
            final(self).same_state(*old(self)),
            r is Ok <==> old(self).is_running(),
            r is Err ==> r->Err_0 is ProcessNotRunning,
            r is Ok ==> r.unwrap()@.len() == 1 && ({
                let t = r.unwrap()@[0];
                &&& t.id == 1 || !old(self).wf()
                &&& t.name is Some && t.name.unwrap()@ == "main"@
                &&& t.is_current
                &&& t.status == ThreadStatus::Stopped
                &&& t.stop_reason == old(self).stop()
                &&& t.instruction_pointer == Some(old(self).regs().pc)
            }),
            final(self).received() == old(self).received().push(Request::ListThreads { answer: r }),
    {
        let r = self.list_threads_inner();
        self.requests = Ghost(self.requests@.push(Request::ListThreads { answer: r }));
        r
    }

    fn list_frames(&mut self, thread_id: ThreadId) -> (r: Result<Vec<FrameState>, BackendError>)
        ensures
            final(self).same_state(*old(self)),
            old(self).wf() ==> (r is Ok <==> thread_id == 1),
            r is Ok ==> r.unwrap()@.len() == 1 && ({
                let f = r.unwrap()@[0];
                let g = old(self).regs();
                &&& f.id == 0 && f.thread_id == thread_id && f.index == 0
                &&& f.instruction_pointer == g.pc
                &&& f.stack_pointer == Some(g.sp) && f.frame_pointer == Some(g.bp)
                &&& f.function is Some && f.function.unwrap()@ == "main"@
                &&& f.symbol is Some && f.symbol.unwrap().name@ == "main"@
                &&& f.symbol.unwrap().offset == (if g.pc >= BASE_ADDR { g.pc - BASE_ADDR } else { 0 })
                &&& f.symbol.unwrap().module == match old(self).target() {
                    Some(t) => Some(t.program),
                    None => None,
                }
                &&& f.source is Some && f.source.unwrap().file@ == "mock/main.c"@
                &&& f.source.unwrap().line == 42 && f.source.unwrap().column == Some(1u32)
            }),
            final(self).received() == old(self).received().push(Request::ListFrames { thread_id, answer: r }),
    {
        let r = self.list_frames_inner(thread_id);
        self.requests = Ghost(self.requests@.push(Request::ListFrames { thread_id, answer: r }));
        r
    }

    fn set_breakpoint(&mut self, location: BreakpointLocation) -> (r: Result<Breakpoint, BackendError>)
        ensures
            r is Ok,
            r.unwrap() == (Breakpoint { id: old(self).next_id(), location, enabled: true, hit_count: 0 }),
            final(self).bps() == old(self).bps().push(r.unwrap()),
            final(self).next_id() == wrap_add(old(self).next_id(), 1),
            old(self).wf() ==> final(self).wf(),
            final(self).regs() == old(self).regs(),
            final(self).target() == old(self).target(),
            final(self).received() == old(self).received().push(Request::SetBreakpoint { location, answer: r }),
    {
        let ghost loc = location;
        let r = self.set_breakpoint_inner(location);
        self.requests = Ghost(self.requests@.push(Request::SetBreakpoint { location: loc, answer: r }));
        r
    }

    fn remove_breakpoint(&mut self, id: BreakpointId) -> (r: Result<(), BackendError>)
        ensures
            final(self).bps() == bps_without(old(self).bps(), id),
            r is Ok <==> bps_without(old(self).bps(), id).len() != old(self).bps().len(),
            r is Err ==> (r->Err_0 matches BackendError::InvalidRequest(m)
                && m@ == "breakpoint "@ + dec_digits(id as nat) + " not found"@),
            old(self).wf() ==> final(self).wf(),
            final(self).regs() == old(self).regs(),
            final(self).target() == old(self).target(),
            final(self).received() == old(self).received().push(Request::RemoveBreakpoint { id, answer: r }),
    {
        let r = self.remove_breakpoint_inner(id);
        self.requests = Ghost(self.requests@.push(Request::RemoveBreakpoint { id, answer: r }));
        r
    }

    /// `count` lines, four bytes apart, from half of them before `address`
    /// (or the pc) on; addresses off the program read as `nop`.
    fn disassemble(&mut self, address: Option<Address>, count: usize) -> (r: Result<Vec<DisassemblyLine>, BackendError>)
        ensures
            final(self).same_state(*old(self)),
            r is Err <==> old(self).target() is None,
            r is Err ==> r->Err_0 is InvalidRequest,
            old(self).wf() && r is Ok ==> {
                let center = match address {
                    Some(a) => a,
                    None => old(self).regs().pc,
                };
                let start = disasm_start(center, count);
                &&& r.unwrap()@.len() == count
                &&& forall|k: int| 0 <= k < count ==> mock_line(#[trigger] r.unwrap()@[k], cursor_at(start, k),
                    old(self).regs().pc, old(self).bps())
            },
            final(self).received() == old(self).received().push(Request::Disassemble { address, count, answer: r }),
    {
        let r = self.disassemble_inner(address, count);
        self.requests = Ghost(self.requests@.push(Request::Disassemble { address, count, answer: r }));
        r
    }

    fn memory_map(&mut self) -> (r: Result<Vec<MemoryRegion>, BackendError>)
        ensures
            final(self).same_state(*old(self)),
            r is Ok <==> old(self).is_running(),
            r is Err ==> r->Err_0 is ProcessNotRunning,
            r is Ok ==> r.unwrap()@.len() == 3 && ({
                let m = r.unwrap()@;
                &&& m[0].start == BASE_ADDR && m[0].end == BASE_ADDR + 0x4000
                &&& m[0].permissions == (MemoryPermissions { read: true, write: false, execute: true })
                &&& m[0].pathname == match old(self).target() {
                    Some(t) => Some(t.program),
                    None => None,
                }
                &&& m[0].label is Some && m[0].label.unwrap()@ == ".text"@
                &&& m[1].start == 0x2000_0000 && m[1].end == 0x2000_2000
                &&& m[1].permissions == (MemoryPermissions { read: true, write: true, execute: false })
                &&& m[1].pathname is None && m[1].label is Some && m[1].label.unwrap()@ == "heap"@
                &&& m[2].start == STACK_BASE - 0x8000 && m[2].end == STACK_BASE + 0x1000
                &&& m[2].permissions == (MemoryPermissions { read: true, write: true, execute: false })
                &&& m[2].pathname is None && m[2].label is Some && m[2].label.unwrap()@ == "stack"@
            }),
            final(self).received() == old(self).received().push(Request::MemoryMap { answer: r }),
    {
        let r = self.memory_map_inner();
        self.requests = Ghost(self.requests@.push(Request::MemoryMap { answer: r }));
        r
    }

    fn current_instruction(&mut self, thread_id: ThreadId) -> (r: Result<Option<Address>, BackendError>)
        ensures
            final(self).same_state(*old(self)),
            r is Ok,
            old(self).wf() ==> r.unwrap() == if thread_id == 1 { Some(old(self).regs().pc) } else { None },
            final(self).received() == old(self).received().push(Request::CurrentInstruction { thread_id, answer: r }),
    {
        let r = self.current_instruction_inner(thread_id);
        self.requests = Ghost(self.requests@.push(Request::CurrentInstruction { thread_id, answer: r }));
        r
    }

    fn current_stop_reason(&mut self) -> (r: Result<StopReason, BackendError>)
        ensures
            final(self).same_state(*old(self)),
            r == Ok::<StopReason, BackendError>(old(self).stop()),
            final(self).received() == old(self).received().push(Request::CurrentStopReason { answer: r }),
    {
        let r = self.current_stop_reason_inner();
        self.requests = Ghost(self.requests@.push(Request::CurrentStopReason { answer: r }));
        r
    }

    fn source_location(&mut self, address: Address) -> (r: Result<Option<SourceLocation>, BackendError>)
        ensures
            final(self).same_state(*old(self)),
            r is Ok,
            (BASE_ADDR <= address <= BASE_ADDR + 0x28) ==> r.unwrap() is Some && ({
                let s = r.unwrap().unwrap();
                s.file@ == "mock/main.c"@ && s.line == 40 + (address - BASE_ADDR) / 4 && s.column == Some(1u32)
            }),
            !(BASE_ADDR <= address <= BASE_ADDR + 0x28) ==> r.unwrap() is None,
            final(self).received() == old(self).received().push(Request::SourceLocation { address, answer: r }),
    {
        let r = self.source_location_inner(address);
        self.requests = Ghost(self.requests@.push(Request::SourceLocation { address, answer: r }));
        r
    }

    fn symbolicate(&mut self, address: Address) -> (r: Result<Option<SymbolInfo>, BackendError>)
        ensures
            final(self).same_state(*old(self)),
            r is Ok,
            (BASE_ADDR <= address <= BASE_ADDR + 0x2c) ==> r.unwrap() is Some && ({
                let s = r.unwrap().unwrap();
                &&& s.name@ == "main"@
                &&& s.offset == address - BASE_ADDR
                &&& s.module == match old(self).target() {
                    Some(t) => Some(t.program),
                    None => None,
                }
            }),
            !(BASE_ADDR <= address <= BASE_ADDR + 0x2c) ==> r.unwrap() is None,
            final(self).received() == old(self).received().push(Request::Symbolicate { address, answer: r }),
    {
        let r = self.symbolicate_inner(address);
        self.requests = Ghost(self.requests@.push(Request::Symbolicate { address, answer: r }));
        r
    }

    /// attach, launch, read_memory, source_location, symbolicate and
    /// write_memory, all supported.
    fn capabilities(&self) -> (r: Vec<(String, bool)>)
        ensures
            r@.len() == 6,
            r@[0].0@ == "attach"@ && r@[1].0@ == "launch"@ && r@[2].0@ == "read_memory"@,
            r@[3].0@ == "source_location"@ && r@[4].0@ == "symbolicate"@ && r@[5].0@ == "write_memory"@,
            forall|i: int| 0 <= i < 6 ==> #[trigger] r@[i].1,
    {
        let mut v: Vec<(String, bool)> = Vec::new();
        v.push(("attach".to_owned(), true));
        v.push(("launch".to_owned(), true));
        v.push(("read_memory".to_owned(), true));
        v.push(("source_location".to_owned(), true));
        v.push(("symbolicate".to_owned(), true));
        v.push(("write_memory".to_owned(), true));
        v
    }
}

} // verus!
