//! The tracer's domain model.
use vstd::prelude::*;
use crate::bind_core::event::wall_clock_nanos;

verus! {

pub type SessionId = u64;
pub type ThreadId = u64;
pub type FrameId = u64;
pub type Address = u64;
pub type BreakpointId = u64;

#[derive(Debug, Clone, Copy, PartialEq, Eq, Structural)]
pub enum CpuArch {
    X86_64,
    AArch64,
    Unknown,
}

#[derive(Debug, Clone, Copy, PartialEq, Eq, Structural)]
pub enum Endianness {
    Little,
    Big,
}

#[derive(Debug, Clone, PartialEq, Eq)]
pub struct TargetBinary {
    pub program: String,
    pub args: Vec<String>,
    pub cwd: Option<String>,
    pub env: Vec<(String, String)>,
}

#[derive(Debug, Clone, PartialEq, Eq)]
pub struct ProcessState {
    pub pid: Option<u32>,
    pub state: ProcessLifecycle,
    pub stop_reason: StopReason,
    pub arch: CpuArch,
    pub pointer_width_bits: u8,
    pub endianness: Endianness,
}

#[derive(Debug, Clone, Copy, PartialEq, Eq, Structural)]
pub enum ProcessLifecycle {
    Idle,
    Launching,
    Running,
    Stopped,
    Exited,
    Detached,
}

/// A debugging session; its creation time is nanoseconds since the Unix
/// epoch, when known.
#[derive(Debug, Clone, PartialEq, Eq)]
pub struct DebugSession {
    pub id: SessionId,
    pub created_at: Option<i64>,
    pub target: Option<TargetBinary>,
    pub process: ProcessState,
    pub threads: Vec<ThreadState>,
    pub frames: Vec<FrameState>,
    pub breakpoints: Vec<Breakpoint>,
    pub watchpoints: Vec<Watchpoint>,
    pub disassembly: Vec<DisassemblyLine>,
    pub trace_events: Vec<TraceEvent>,
    pub output_log: Vec<String>,
}

impl DebugSession {
    /// An empty session stamped with the current time.
    pub fn new(id: SessionId) -> (s: DebugSession)
        ensures
            s.id == id,
            s.target is None,
            s.process.pid is None,
            s.process.state == ProcessLifecycle::Idle,
            s.process.stop_reason == StopReason::NoReason,
            s.process.arch == CpuArch::Unknown,
            s.process.pointer_width_bits == 64,
            s.process.endianness == Endianness::Little,
            s.threads@.len() == 0,
            s.frames@.len() == 0,
            s.breakpoints@.len() == 0,
            s.watchpoints@.len() == 0,
            s.disassembly@.len() == 0,
            s.trace_events@.len() == 0,
            s.output_log@.len() == 0,
    {
        DebugSession {
            id,
            created_at: wall_clock_nanos(),
            target: None,
            process: ProcessState {
                pid: None,
                state: ProcessLifecycle::Idle,
                stop_reason: StopReason::NoReason,
                arch: CpuArch::Unknown,
                pointer_width_bits: 64,
                endianness: Endianness::Little,
            },
            threads: Vec::new(),
            frames: Vec::new(),
            breakpoints: Vec::new(),
            watchpoints: Vec::new(),
            disassembly: Vec::new(),
            trace_events: Vec::new(),
            output_log: Vec::new(),
        }
    }
}

#[derive(Debug, Clone, PartialEq, Eq)]
pub struct ThreadState {
    pub id: ThreadId,
    pub name: Option<String>,
    pub is_current: bool,
    pub status: ThreadStatus,
    pub stop_reason: StopReason,
    pub instruction_pointer: Option<Address>,
}

#[derive(Debug, Clone, Copy, PartialEq, Eq, Structural)]
pub enum ThreadStatus {
    Running,
    Stopped,
    Sleeping,
    Unknown,
}

#[derive(Debug, Clone, PartialEq, Eq)]
pub struct FrameState {
    pub id: FrameId,
    pub thread_id: ThreadId,
    pub index: usize,
    pub instruction_pointer: Address,
    pub stack_pointer: Option<Address>,
    pub frame_pointer: Option<Address>,
    pub function: Option<String>,
    pub symbol: Option<SymbolInfo>,
    pub source: Option<SourceLocation>,
}

#[derive(Debug, Clone, PartialEq, Eq)]
pub struct RegisterBank {
    pub thread_id: ThreadId,
    pub bank_name: String,
    pub registers: Vec<RegisterValue>,
}

/// The position of the first register named `name` at or after `i`, or -1.
pub open spec fn first_register_from(regs: Seq<RegisterValue>, name: Seq<char>, i: int) -> int
    decreases regs.len() - i,
{
    if i < 0 || i >= regs.len() {
        -1
    } else if regs[i].name@ == name {
        i
    } else {
        first_register_from(regs, name, i + 1)
    }
}

/// The position of the first register named `name`, or -1.
pub open spec fn first_register(regs: Seq<RegisterValue>, name: Seq<char>) -> int {
    first_register_from(regs, name, 0)
}

pub proof fn lemma_first_register_from(regs: Seq<RegisterValue>, name: Seq<char>, i: int)
    requires
        0 <= i,
    ensures
        -1 <= first_register_from(regs, name, i) < regs.len(),
        first_register_from(regs, name, i) >= 0 ==> i <= first_register_from(regs, name, i)
            && regs[first_register_from(regs, name, i)].name@ == name,
    decreases regs.len() - i,
{
    if i < regs.len() && regs[i].name@ != name {
        lemma_first_register_from(regs, name, i + 1);
    }
}

/// The registers of `newer` whose value differs from the first register of
/// the same name in `older`: (name, old value, new value), in `newer`'s order.
pub open spec fn bank_diff(newer: Seq<RegisterValue>, older: Seq<RegisterValue>) -> Seq<(Seq<char>, Seq<char>, Seq<char>)>
    decreases newer.len(),
{
    if newer.len() == 0 {
        Seq::empty()
    } else {
        let d = bank_diff(newer.drop_last(), older);
        let r = newer.last();
        let k = first_register(older, r.name@);
        if k >= 0 && older[k].value@ != r.value@ {
            d.push((r.name@, older[k].value@, r.value@))
        } else {
            d
        }
    }
}

/// The views of a list of register differences.
pub open spec fn diff_views(d: Seq<RegisterDiff>) -> Seq<(Seq<char>, Seq<char>, Seq<char>)> {
    d.map_values(|x: RegisterDiff| (x.name@, x.old_value@, x.new_value@))
}

/// The first register named `name`, if any.
pub fn find_register<'a>(regs: &'a Vec<RegisterValue>, name: &String) -> (r: Option<&'a RegisterValue>)
    ensures
        first_register(regs@, name@) >= 0 ==> r == Some(&regs@[first_register(regs@, name@)]),
        first_register(regs@, name@) < 0 ==> r is None,
{
    proof {
        lemma_first_register_from(regs@, name@, 0);
    }
    let mut j: usize = 0;
    while j < regs.len()
        invariant
            j <= regs@.len(),
            first_register(regs@, name@) == first_register_from(regs@, name@, j as int),
        decreases regs@.len() - j,
    {
        if regs[j].name == *name {
            return Some(&regs[j]);
        }
        j = j + 1;
    }
    None
}

impl RegisterBank {
    /// The registers whose value changed relative to `older`, matched by name.
    pub fn diff(&self, older: &RegisterBank) -> (d: Vec<RegisterDiff>)
        ensures
            diff_views(d@) == bank_diff(self.registers@, older.registers@),
    {
        let mut diffs: Vec<RegisterDiff> = Vec::new();
        let mut i: usize = 0;
        while i < self.registers.len()
            invariant
                i <= self.registers@.len(),
                diff_views(diffs@) == bank_diff(self.registers@.take(i as int), older.registers@),
            decreases self.registers@.len() - i,
        {
            let reg = &self.registers[i];
            proof {
                assert(self.registers@.take(i + 1).drop_last() =~= self.registers@.take(i as int));
                assert(self.registers@.take(i + 1).last() == *reg);
            }
            let ghost before = diffs@;
            match find_register(&older.registers, &reg.name) {
                Some(prev) => {
                    if prev.value != reg.value {
                        diffs.push(RegisterDiff {
                            name: reg.name.clone(),
                            old_value: prev.value.clone(),
                            new_value: reg.value.clone(),
                        });
                        proof {
                            assert(diff_views(diffs@) =~= diff_views(before).push((reg.name@, prev.value@, reg.value@)));
                        }
                    }
                },
                None => {},
            }
            i = i + 1;
        }
        proof {
            assert(self.registers@.take(self.registers@.len() as int) =~= self.registers@);
        }
        diffs
    }
}

#[derive(Debug, Clone, PartialEq, Eq)]
pub struct RegisterDiff {
    pub name: String,
    pub old_value: String,
    pub new_value: String,
}

#[derive(Debug, Clone, PartialEq, Eq)]
pub struct RegisterValue {
    pub name: String,
    pub value: String,
    pub size_bits: u16,
    pub role: RegisterRole,
}

#[derive(Debug, Clone, Copy, PartialEq, Eq, Structural)]
pub enum RegisterRole {
    General,
    InstructionPointer,
    StackPointer,
    FramePointer,
    Flags,
    Vector,
    Floating,
    Other,
}

#[derive(Debug, Clone, PartialEq, Eq)]
pub struct MemoryRegion {
    pub start: Address,
    pub end: Address,
    pub permissions: MemoryPermissions,
    pub pathname: Option<String>,
    pub label: Option<String>,
}

#[derive(Debug, Clone, Copy, PartialEq, Eq, Structural)]
pub struct MemoryPermissions {
    pub read: bool,
    pub write: bool,
    pub execute: bool,
}

/// Bytes read at `base`; the capture time is nanoseconds since the Unix epoch.
#[derive(Debug, Clone, PartialEq, Eq)]
pub struct MemorySnapshot {
    pub base: Address,
    pub bytes: Vec<u8>,
    pub captured_at: Option<i64>,
}

#[derive(Debug, Clone, PartialEq, Eq)]
pub struct Breakpoint {
    pub id: BreakpointId,
    pub location: BreakpointLocation,
    pub enabled: bool,
    pub hit_count: u64,
}

#[derive(Debug, Clone, PartialEq, Eq)]
pub enum BreakpointLocation {
    Address(Address),
    Symbol(String),
}

#[derive(Debug, Clone, PartialEq, Eq)]
pub struct Watchpoint {
    pub id: u64,
    pub address: Address,
    pub size: u64,
    pub access: WatchAccess,
    pub enabled: bool,
}

#[derive(Debug, Clone, Copy, PartialEq, Eq, Structural)]
pub enum WatchAccess {
    Read,
    Write,
    ReadWrite,
}

#[derive(Debug, Clone, PartialEq, Eq)]
pub struct InstructionRecord {
    pub address: Address,
    pub bytes: Vec<u8>,
    pub mnemonic: String,
    pub operands: String,
    pub symbol: Option<SymbolInfo>,
    pub source: Option<SourceLocation>,
}

#[derive(Debug, Clone, PartialEq, Eq)]
pub enum StopReason {
    NoReason,
    Breakpoint(BreakpointId),
    Watchpoint(u64),
    Step,
    Signal(String),
    Exception(String),
    Exited(i32),
    Detached,
    Unknown(String),
}

#[derive(Debug, Clone, PartialEq, Eq)]
pub struct DisassemblyLine {
    pub address: Address,
    pub bytes: Vec<u8>,
    pub mnemonic: String,
    pub operands: String,
    pub function: Option<String>,
    pub source: Option<SourceLocation>,
    pub branch_target: Option<Address>,
    pub is_current: bool,
    pub has_breakpoint: bool,
}

#[derive(Debug, Clone, PartialEq, Eq)]
pub struct SymbolInfo {
    pub name: String,
    pub module: Option<String>,
    pub offset: u64,
}

#[derive(Debug, Clone, PartialEq, Eq)]
pub struct SourceLocation {
    pub file: String,
    pub line: u32,
    pub column: Option<u32>,
}

/// One traced instruction; the timestamp is nanoseconds since the Unix
/// epoch, when known.
#[derive(Debug, Clone, PartialEq, Eq)]
pub struct TraceEvent {
    pub timestamp: Option<i64>,
    pub thread_id: ThreadId,
    pub instruction: InstructionRecord,
    pub stop_reason: StopReason,
    pub delta: Option<ExecutionDelta>,
}

#[derive(Debug, Clone, PartialEq, Eq)]
pub struct ExecutionDelta {
    pub changed_registers: Vec<RegisterDiff>,
    pub control_flow: ControlFlowChange,
    pub stack_pointer_delta: i64,
    pub memory_writes: Vec<MemoryWrite>,
    pub hints: Vec<ExecutionHint>,
}

#[derive(Debug, Clone, Copy, PartialEq, Eq, Structural)]
pub enum ControlFlowChange {
    Linear,
    Jump,
    Call,
    Return,
    Syscall,
    Unknown,
}

#[derive(Debug, Clone, PartialEq, Eq)]
pub struct MemoryWrite {
    pub address: Address,
    pub old_bytes: Vec<u8>,
    pub new_bytes: Vec<u8>,
}

#[derive(Debug, Clone, Copy, PartialEq, Eq, Structural)]
pub enum ExecutionHint {
    Call,
    Return,
    Jump,
    ConditionalBranch,
    Prologue,
    Epilogue,
    Syscall,
}

fn dup_opt(s: &Option<String>) -> (r: Option<String>)
    ensures
        r == *s,
{
    match s {
        Some(x) => Some(x.clone()),
        None => None,
    }
}

impl SourceLocation {
    /// A field-for-field copy.
    pub fn dup(&self) -> (r: SourceLocation)
        ensures
            r == *self,
    {
        SourceLocation { file: self.file.clone(), line: self.line, column: self.column }
    }
}

impl SymbolInfo {
    /// A field-for-field copy.
    pub fn dup(&self) -> (r: SymbolInfo)
        ensures
            r == *self,
    {
        SymbolInfo { name: self.name.clone(), module: dup_opt(&self.module), offset: self.offset }
    }
}

impl StopReason {
    /// A variant-for-variant copy.
    pub fn dup(&self) -> (r: StopReason)
        ensures
            r == *self,
    {
        match self {
            StopReason::NoReason => StopReason::NoReason,
            StopReason::Breakpoint(id) => StopReason::Breakpoint(*id),
            StopReason::Watchpoint(id) => StopReason::Watchpoint(*id),
            StopReason::Step => StopReason::Step,
            StopReason::Signal(s) => StopReason::Signal(s.clone()),
            StopReason::Exception(s) => StopReason::Exception(s.clone()),
            StopReason::Exited(c) => StopReason::Exited(*c),
            StopReason::Detached => StopReason::Detached,
            StopReason::Unknown(s) => StopReason::Unknown(s.clone()),
        }
    }
}

impl BreakpointLocation {
    /// A variant-for-variant copy.
    pub fn dup(&self) -> (r: BreakpointLocation)
        ensures
            r == *self,
    {
        match self {
            BreakpointLocation::Address(a) => BreakpointLocation::Address(*a),
            BreakpointLocation::Symbol(s) => BreakpointLocation::Symbol(s.clone()),
        }
    }
}

impl Breakpoint {
    /// A field-for-field copy.
    pub fn dup(&self) -> (r: Breakpoint)
        ensures
            r == *self,
    {
        Breakpoint { id: self.id, location: self.location.dup(), enabled: self.enabled, hit_count: self.hit_count }
    }
}

/// Two disassembly lines that agree in every field (bytes compared by value).
pub open spec fn same_line(a: DisassemblyLine, b: DisassemblyLine) -> bool {
    &&& a.address == b.address
    &&& a.bytes@ == b.bytes@
    &&& a.mnemonic == b.mnemonic
    &&& a.operands == b.operands
    &&& a.function == b.function
    &&& a.source == b.source
    &&& a.branch_target == b.branch_target
    &&& a.is_current == b.is_current
    &&& a.has_breakpoint == b.has_breakpoint
}

impl DisassemblyLine {
    /// A field-for-field copy.
    pub fn dup(&self) -> (r: DisassemblyLine)
        ensures
            same_line(r, *self),
    {
        let bytes = self.bytes.clone();
        assert(bytes@ =~= self.bytes@);
        DisassemblyLine {
            address: self.address,
            bytes,
            mnemonic: self.mnemonic.clone(),
            operands: self.operands.clone(),
            function: dup_opt(&self.function),
            source: match &self.source {
                Some(s) => Some(s.dup()),
                None => None,
            },
            branch_target: self.branch_target,
            is_current: self.is_current,
            has_breakpoint: self.has_breakpoint,
        }
    }
}

impl RegisterValue {
    /// A field-for-field copy.
    pub fn dup(&self) -> (r: RegisterValue)
        ensures
            r == *self,
    {
        RegisterValue { name: self.name.clone(), value: self.value.clone(), size_bits: self.size_bits, role: self.role }
    }
}

impl RegisterBank {
    /// A register-for-register copy.
    pub fn dup(&self) -> (r: RegisterBank)
        ensures
            r.thread_id == self.thread_id,
            r.bank_name == self.bank_name,
            r.registers@ == self.registers@,
    {
        let mut regs: Vec<RegisterValue> = Vec::new();
        let mut i: usize = 0;
        while i < self.registers.len()
            invariant
                i <= self.registers@.len(),
                regs@ == self.registers@.take(i as int),
            decreases self.registers@.len() - i,
        {
            regs.push(self.registers[i].dup());
            assert(regs@ =~= self.registers@.take(i + 1));
            i = i + 1;
        }
        assert(self.registers@.take(self.registers@.len() as int) =~= self.registers@);
        RegisterBank { thread_id: self.thread_id, bank_name: self.bank_name.clone(), registers: regs }
    }
}

/// Two records of one instruction agree, byte for byte.
pub open spec fn same_record(a: InstructionRecord, b: InstructionRecord) -> bool {
    &&& a.address == b.address
    &&& a.bytes@ == b.bytes@
    &&& a.mnemonic == b.mnemonic
    &&& a.operands == b.operands
    &&& a.symbol == b.symbol
    &&& a.source == b.source
}

/// Two memory writes agree, byte for byte.
pub open spec fn same_write(a: MemoryWrite, b: MemoryWrite) -> bool {
    a.address == b.address && a.old_bytes@ == b.old_bytes@ && a.new_bytes@ == b.new_bytes@
}

/// Two deltas agree, element for element.
pub open spec fn same_delta(a: ExecutionDelta, b: ExecutionDelta) -> bool {
    &&& a.changed_registers@ == b.changed_registers@
    &&& a.control_flow == b.control_flow
    &&& a.stack_pointer_delta == b.stack_pointer_delta
    &&& a.memory_writes@.len() == b.memory_writes@.len()
    &&& forall|i: int| 0 <= i < a.memory_writes@.len() ==> same_write(#[trigger] a.memory_writes@[i], b.memory_writes@[i])
    &&& a.hints@ == b.hints@
}

/// Two trace events agree, element for element.
pub open spec fn same_event(a: TraceEvent, b: TraceEvent) -> bool {
    &&& a.timestamp == b.timestamp
    &&& a.thread_id == b.thread_id
    &&& same_record(a.instruction, b.instruction)
    &&& a.stop_reason == b.stop_reason
    &&& match (a.delta, b.delta) {
        (Some(x), Some(y)) => same_delta(x, y),
        (None, None) => true,
        _ => false,
    }
}

/// Two traces agree, event for event.
pub open spec fn same_events(a: Seq<TraceEvent>, b: Seq<TraceEvent>) -> bool {
    a.len() == b.len() && forall|i: int| 0 <= i < a.len() ==> same_event(#[trigger] a[i], b[i])
}

pub fn dup_bytes(v: &Vec<u8>) -> (r: Vec<u8>)
    ensures
        r@ == v@,
{
    let mut out: Vec<u8> = Vec::new();
    let mut i: usize = 0;
    while i < v.len()
        invariant
            i <= v@.len(),
            out@ == v@.take(i as int),
        decreases v@.len() - i,
    {
        out.push(v[i]);
        assert(out@ =~= v@.take(i + 1));
        i = i + 1;
    }
    assert(v@.take(v@.len() as int) =~= v@);
    out
}

fn dup_opt_symbol(s: &Option<SymbolInfo>) -> (r: Option<SymbolInfo>)
    ensures
        r == *s,
{
    match s {
        Some(x) => Some(x.dup()),
        None => None,
    }
}

pub fn dup_opt_source(s: &Option<SourceLocation>) -> (r: Option<SourceLocation>)
    ensures
        r == *s,
{
    match s {
        Some(x) => Some(x.dup()),
        None => None,
    }
}

impl RegisterDiff {
    /// A field-for-field copy.
    pub fn dup(&self) -> (r: RegisterDiff)
        ensures
            r == *self,
    {
        RegisterDiff { name: self.name.clone(), old_value: self.old_value.clone(), new_value: self.new_value.clone() }
    }
}

impl InstructionRecord {
    /// A field-for-field copy.
    pub fn dup(&self) -> (r: InstructionRecord)
        ensures
            same_record(r, *self),
    {
        InstructionRecord {
            address: self.address,
            bytes: dup_bytes(&self.bytes),
            mnemonic: self.mnemonic.clone(),
            operands: self.operands.clone(),
            symbol: dup_opt_symbol(&self.symbol),
            source: dup_opt_source(&self.source),
        }
    }
}

impl ExecutionDelta {
    /// An element-for-element copy.
    pub fn dup(&self) -> (r: ExecutionDelta)
        ensures
            same_delta(r, *self),
    {
        let mut regs: Vec<RegisterDiff> = Vec::new();
        let mut i: usize = 0;
        while i < self.changed_registers.len()
            invariant
                i <= self.changed_registers@.len(),
                regs@ == self.changed_registers@.take(i as int),
            decreases self.changed_registers@.len() - i,
        {
            regs.push(self.changed_registers[i].dup());
            assert(regs@ =~= self.changed_registers@.take(i + 1));
            i = i + 1;
        }
        assert(self.changed_registers@.take(self.changed_registers@.len() as int) =~= self.changed_registers@);
        let mut writes: Vec<MemoryWrite> = Vec::new();
        let mut j: usize = 0;
        while j < self.memory_writes.len()
            invariant
                j <= self.memory_writes@.len(),
                writes@.len() == j,
                forall|k: int| 0 <= k < j ==> same_write(#[trigger] writes@[k], self.memory_writes@[k]),
            decreases self.memory_writes@.len() - j,
        {
            let w = &self.memory_writes[j];
            writes.push(MemoryWrite { address: w.address, old_bytes: dup_bytes(&w.old_bytes), new_bytes: dup_bytes(&w.new_bytes) });
            j = j + 1;
        }
        let mut hints: Vec<ExecutionHint> = Vec::new();
        let mut k: usize = 0;
        while k < self.hints.len()
            invariant
                k <= self.hints@.len(),
                hints@ == self.hints@.take(k as int),
            decreases self.hints@.len() - k,
        {
            hints.push(self.hints[k]);
            assert(hints@ =~= self.hints@.take(k + 1));
            k = k + 1;
        }
        assert(self.hints@.take(self.hints@.len() as int) =~= self.hints@);
        ExecutionDelta {
            changed_registers: regs,
            control_flow: self.control_flow,
            stack_pointer_delta: self.stack_pointer_delta,
            memory_writes: writes,
            hints,
        }
    }
}

impl TraceEvent {
    /// An element-for-element copy.
    pub fn dup(&self) -> (r: TraceEvent)
        ensures
            same_event(r, *self),
    {
        TraceEvent {
            timestamp: self.timestamp,
            thread_id: self.thread_id,
            instruction: self.instruction.dup(),
            stop_reason: self.stop_reason.dup(),
            delta: match &self.delta {
                Some(d) => Some(d.dup()),
                None => None,
            },
        }
    }
}

/// An event-for-event copy of a trace.
pub fn dup_trace(t: &Vec<TraceEvent>) -> (r: Vec<TraceEvent>)
    ensures
        same_events(r@, t@),
{
    let mut out: Vec<TraceEvent> = Vec::new();
    let mut i: usize = 0;
    while i < t.len()
        invariant
            i <= t@.len(),
            out@.len() == i,
            forall|k: int| 0 <= k < i ==> same_event(#[trigger] out@[k], t@[k]),
        decreases t@.len() - i,
    {
        out.push(t[i].dup());
        i = i + 1;
    }
    out
}

} // verus!
