//! Threads, frames, registers, breakpoints, instructions and the other
//! debugging concepts every layer shares.
use vstd::prelude::*;
use crate::bind_core::address::Address;
use crate::bind_core::arch::{Architecture, Endianness, Language};
use crate::bind_core::id::{BreakpointId, FrameId, ModuleId, Pid, ThreadId, WatchpointId};
use crate::num::{dec_digits, fmt_dec, fmt_hex, fmt_signed, hex_digits, pad, pad_left, signed_dec};
use crate::text::{chars_eq, chars_of, push_chars, push_str, string_of};

verus! {

/// A program to debug, before it runs.
#[derive(Debug, Clone, PartialEq, Eq)]
pub struct TargetSpec {
    pub program: String,
    pub args: Vec<String>,
    pub cwd: Option<String>,
    /// Explicit environment overrides. Empty means "inherit".
    pub env: Vec<(String, String)>,
    pub stop_at_entry: bool,
}

impl TargetSpec {
    pub fn program(program: &str) -> (t: TargetSpec)
        ensures
            t.program@ == program@,
            t.args@.len() == 0,
            t.cwd is None,
            t.env@.len() == 0,
            !t.stop_at_entry,
    {
        TargetSpec {
            program: program.to_owned(),
            args: Vec::new(),
            cwd: None,
            env: Vec::new(),
            stop_at_entry: false,
        }
    }
}

/// How a target is put under the debugger.
#[derive(Debug, Clone, PartialEq, Eq)]
pub enum AttachSpec {
    Launch(TargetSpec),
    Pid(Pid),
    CoreFile { program: String, core: String },
}

#[derive(Debug, Clone, Copy, PartialEq, Eq, Structural)]
pub enum ProcessLifecycle {
    Idle,
    Launching,
    Running,
    Stopped,
    Exited,
    Detached,
    Crashed,
}

impl ProcessLifecycle {
    pub open spec fn alive(self) -> bool {
        self is Launching || self is Running || self is Stopped || self is Crashed
    }

    pub open spec fn stopped(self) -> bool {
        self is Stopped || self is Crashed
    }

    pub fn is_alive(self) -> (b: bool)
        ensures
            b == self.alive(),
    {
        match self {
            ProcessLifecycle::Launching | ProcessLifecycle::Running | ProcessLifecycle::Stopped
            | ProcessLifecycle::Crashed => true,
            _ => false,
        }
    }

    pub fn is_stopped(self) -> (b: bool)
        ensures
            b == self.stopped(),
    {
        match self {
            ProcessLifecycle::Stopped | ProcessLifecycle::Crashed => true,
            _ => false,
        }
    }
}

/// A stopped process is alive.
pub proof fn lemma_stopped_is_alive(l: ProcessLifecycle)
    ensures
        l.stopped() ==> l.alive(),
{
}

/// High-level process state.
#[derive(Debug, Clone, PartialEq, Eq)]
pub struct ProcessInfo {
    pub pid: Option<Pid>,
    pub lifecycle: ProcessLifecycle,
    pub arch: Architecture,
    pub endianness: Endianness,
    pub stop_reason: StopReason,
    pub exit_code: Option<i32>,
}

impl Default for ProcessInfo {
    fn default() -> (p: Self)
        ensures
            p.pid is None,
            p.lifecycle == ProcessLifecycle::Idle,
            p.arch == Architecture::Unknown,
            p.endianness == Endianness::Little,
            p.stop_reason is NoReason,
            p.exit_code is None,
    {
        ProcessInfo {
            pid: None,
            lifecycle: ProcessLifecycle::Idle,
            arch: Architecture::Unknown,
            endianness: Endianness::Little,
            stop_reason: StopReason::NoReason,
            exit_code: None,
        }
    }
}

#[derive(Debug, Clone, Copy, PartialEq, Eq, Structural)]
pub enum ThreadRunState {
    Running,
    Stopped,
    Waiting,
    Unknown,
}

#[derive(Debug, Clone, PartialEq, Eq)]
pub struct ThreadInfo {
    pub id: ThreadId,
    pub name: Option<String>,
    pub is_selected: bool,
    pub run_state: ThreadRunState,
    pub stop_reason: StopReason,
    pub pc: Option<Address>,
}

#[derive(Debug, Clone, PartialEq, Eq)]
pub struct Frame {
    pub id: FrameId,
    pub thread_id: ThreadId,
    pub index: usize,
    pub pc: Address,
    pub sp: Option<Address>,
    pub fp: Option<Address>,
    pub function: Option<String>,
    pub symbol: Option<Symbol>,
    pub source: Option<SourceLocation>,
    /// An inlined call site rather than a physical stack frame.
    pub is_inlined: bool,
    pub is_selected: bool,
}

#[derive(Debug, Clone, Copy, PartialEq, Eq, Structural)]
pub enum RegisterRole {
    General,
    ProgramCounter,
    StackPointer,
    FramePointer,
    Flags,
    Vector,
    Float,
    Other,
}

/// One register value; wider registers carry their bytes in `wide`.
#[derive(Debug, Clone, PartialEq, Eq)]
pub struct Register {
    pub name: String,
    pub value: u64,
    pub size_bits: u16,
    pub role: RegisterRole,
    pub wide: Option<Vec<u8>>,
}

/// Number of hex digits shown for a register of `size_bits` bits.
pub open spec fn hex_width(size_bits: u16) -> nat {
    let bits: nat = if size_bits >= 1 {
        size_bits as nat
    } else {
        1
    };
    (bits + 3) / 4
}

impl Register {
    /// A field-for-field copy.
    pub fn dup(&self) -> (r: Register)
        ensures
            same_register(r, *self),
    {
        let wide = match &self.wide {
            Some(w) => {
                let c = w.clone();
                assert(c@ =~= w@);
                Some(c)
            },
            None => None,
        };
        Register {
            name: self.name.clone(),
            value: self.value,
            size_bits: self.size_bits,
            role: self.role,
            wide,
        }
    }

    pub fn new(name: &str, value: u64, size_bits: u16, role: RegisterRole) -> (r: Register)
        ensures
            r.name@ == name@,
            r.value == value,
            r.size_bits == size_bits,
            r.role == role,
            r.wide is None,
    {
        Register { name: name.to_owned(), value, size_bits, role, wide: None }
    }

    /// `0x` and the value in hex, zero-padded to the register's width.
    pub fn hex(&self) -> (s: String)
        ensures
            s@ == seq!['0', 'x'] + pad_left(
                hex_digits(self.value as nat),
                hex_width(self.size_bits),
                '0',
            ),
    {
        let bits: usize = if self.size_bits >= 1 {
            self.size_bits as usize
        } else {
            1
        };
        let digits = (bits + 3) / 4;
        let width = if digits >= 1 {
            digits
        } else {
            1
        };
        let d = pad(fmt_hex(self.value), width, '0');
        let mut v: Vec<char> = Vec::new();
        v.push('0');
        v.push('x');
        push_chars(&mut v, d.as_slice());
        string_of(v.as_slice())
    }
}

/// The registers of one thread at one stop.
#[derive(Debug, Clone, PartialEq, Eq)]
pub struct RegisterSet {
    pub thread_id: ThreadId,
    pub registers: Vec<Register>,
}

/// Index of the first register named `name`, or -1.
pub open spec fn named_index(regs: Seq<Register>, name: Seq<char>) -> int
    decreases regs.len(),
{
    if regs.len() == 0 {
        -1
    } else {
        let k = named_index(regs.drop_last(), name);
        if k >= 0 {
            k
        } else if regs.last().name@ == name {
            regs.len() - 1
        } else {
            -1
        }
    }
}

/// Index of the first register with `role`, or -1.
pub open spec fn role_index(regs: Seq<Register>, role: RegisterRole) -> int
    decreases regs.len(),
{
    if regs.len() == 0 {
        -1
    } else {
        let k = role_index(regs.drop_last(), role);
        if k >= 0 {
            k
        } else if regs.last().role == role {
            regs.len() - 1
        } else {
            -1
        }
    }
}

pub open spec fn wide_view(w: Option<Vec<u8>>) -> Option<Seq<u8>> {
    match w {
        Some(v) => Some(v@),
        None => None,
    }
}

/// Two registers that agree in every field (bytes compared by value).
pub open spec fn same_register(a: Register, b: Register) -> bool {
    &&& a.name == b.name
    &&& a.value == b.value
    &&& a.size_bits == b.size_bits
    &&& a.role == b.role
    &&& wide_view(a.wide) == wide_view(b.wide)
}

/// Two register sets that agree register by register.
pub open spec fn same_register_set(a: RegisterSet, b: RegisterSet) -> bool {
    &&& a.thread_id == b.thread_id
    &&& a.registers@.len() == b.registers@.len()
    &&& forall|i: int| 0 <= i < a.registers@.len() ==> same_register(#[trigger] a.registers@[i], b.registers@[i])
}

/// Register changes of `newer` relative to `older`, matched by name, in `newer`'s order.
pub open spec fn diff_spec(newer: Seq<Register>, older: Seq<Register>) -> Seq<(Seq<char>, u64, u64)>
    decreases newer.len(),
{
    if newer.len() == 0 {
        Seq::empty()
    } else {
        let d = diff_spec(newer.drop_last(), older);
        let r = newer.last();
        let k = named_index(older, r.name@);
        if k >= 0 && (older[k].value != r.value || wide_view(older[k].wide) != wide_view(r.wide)) {
            d.push((r.name@, older[k].value, r.value))
        } else {
            d
        }
    }
}

pub open spec fn change_view(c: RegisterChange) -> (Seq<char>, u64, u64) {
    (c.name@, c.old_value, c.new_value)
}

pub open spec fn changes_view(cs: Seq<RegisterChange>) -> Seq<(Seq<char>, u64, u64)> {
    cs.map_values(|c: RegisterChange| change_view(c))
}

proof fn lemma_named_index_bounds(regs: Seq<Register>, name: Seq<char>)
    ensures
        -1 <= named_index(regs, name) < regs.len(),
        named_index(regs, name) >= 0 ==> regs[named_index(regs, name)].name@ == name,
        named_index(regs, name) >= 0 ==> forall|j: int|
            0 <= j < named_index(regs, name) ==> regs[j].name@ != name,
        named_index(regs, name) == -1 ==> forall|j: int| 0 <= j < regs.len() ==> regs[j].name@ != name,
    decreases regs.len(),
{
    if regs.len() > 0 {
        let t = regs.drop_last();
        lemma_named_index_bounds(t, name);
        assert forall|j: int| 0 <= j < t.len() implies t[j] == regs[j] by {}
    }
}

pub fn wide_eq(a: &Option<Vec<u8>>, b: &Option<Vec<u8>>) -> (r: bool)
    ensures
        r == (wide_view(*a) == wide_view(*b)),
{
    match (a, b) {
        (Some(x), Some(y)) => {
            if x.len() != y.len() {
                return false;
            }
            let mut i: usize = 0;
            while i < x.len()
                invariant
                    wide_view(*a) == Some(x@),
                    wide_view(*b) == Some(y@),
                    x@.len() == y@.len(),
                    i <= x@.len(),
                    forall|j: int| 0 <= j < i ==> x@[j] == y@[j],
                decreases x@.len() - i,
            {
                if x[i] != y[i] {
                    assert(x@[i as int] != y@[i as int]);
                    assert(x@ != y@);
                    return false;
                }
                i = i + 1;
            }
            assert(x@ =~= y@);
            true
        },
        (None, None) => true,
        _ => false,
    }
}

impl RegisterSet {
    fn index_named(&self, name: &[char]) -> (k: Option<usize>)
        ensures
            match k {
                Some(i) => i as int == named_index(self.registers@, name@),
                None => named_index(self.registers@, name@) == -1,
            },
    {
        let mut i: usize = 0;
        while i < self.registers.len()
            invariant
                i <= self.registers@.len(),
                named_index(self.registers@.take(i as int), name@) == -1,
            decreases self.registers@.len() - i,
        {
            let n = chars_of(self.registers[i].name.as_str());
            proof {
                assert(self.registers@.take(i + 1).drop_last() =~= self.registers@.take(i as int));
            }
            if chars_eq(n.as_slice(), name) {
                proof {
                    lemma_named_prefix(self.registers@, name@, i + 1);
                }
                return Some(i);
            }
            i = i + 1;
        }
        assert(self.registers@.take(i as int) =~= self.registers@);
        None
    }

    /// A register-for-register copy.
    pub fn dup(&self) -> (r: RegisterSet)
        ensures
            same_register_set(r, *self),
    {
        let mut regs: Vec<Register> = Vec::new();
        let mut i: usize = 0;
        while i < self.registers.len()
            invariant
                i <= self.registers@.len(),
                regs@.len() == i,
                forall|j: int| 0 <= j < i ==> same_register(#[trigger] regs@[j], self.registers@[j]),
            decreases self.registers@.len() - i,
        {
            regs.push(self.registers[i].dup());
            i = i + 1;
        }
        RegisterSet { thread_id: self.thread_id, registers: regs }
    }

    /// The first register named `name`.
    pub fn get(&self, name: &str) -> (r: Option<&Register>)
        ensures
            named_index(self.registers@, name@) >= 0 ==> r == Some(
                &self.registers@[named_index(self.registers@, name@)],
            ),
            named_index(self.registers@, name@) < 0 ==> r is None,
    {
        let n = chars_of(name);
        proof {
            lemma_named_index_bounds(self.registers@, name@);
        }
        match self.index_named(n.as_slice()) {
            Some(i) => Some(&self.registers[i]),
            None => None,
        }
    }

    /// The first register with `role`.
    pub fn by_role(&self, role: RegisterRole) -> (r: Option<&Register>)
        ensures
            role_index(self.registers@, role) >= 0 ==> r == Some(
                &self.registers@[role_index(self.registers@, role)],
            ),
            role_index(self.registers@, role) < 0 ==> r is None,
    {
        let mut i: usize = 0;
        while i < self.registers.len()
            invariant
                i <= self.registers@.len(),
                role_index(self.registers@.take(i as int), role) == -1,
            decreases self.registers@.len() - i,
        {
            proof {
                assert(self.registers@.take(i + 1).drop_last() =~= self.registers@.take(i as int));
            }
            if self.registers[i].role == role {
                proof {
                    lemma_role_prefix(self.registers@, role, i + 1);
                }
                return Some(&self.registers[i]);
            }
            i = i + 1;
        }
        assert(self.registers@.take(i as int) =~= self.registers@);
        None
    }

    /// Registers whose value differs from `older`, matched by name.
    pub fn diff(&self, older: &RegisterSet) -> (changes: Vec<RegisterChange>)
        ensures
            changes_view(changes@) == diff_spec(self.registers@, older.registers@),
    {
        let mut changes: Vec<RegisterChange> = Vec::new();
        let mut i: usize = 0;
        while i < self.registers.len()
            invariant
                i <= self.registers@.len(),
                changes_view(changes@) == diff_spec(self.registers@.take(i as int), older.registers@),
            decreases self.registers@.len() - i,
        {
            let reg = &self.registers[i];
            let n = chars_of(reg.name.as_str());
            proof {
                assert(self.registers@.take(i + 1).drop_last() =~= self.registers@.take(i as int));
                assert(self.registers@.take(i + 1).last() == self.registers@[i as int]);
                lemma_named_index_bounds(older.registers@, n@);
            }
            match older.index_named(n.as_slice()) {
                Some(k) => {
                    let prev = &older.registers[k];
                    if prev.value != reg.value || !wide_eq(&prev.wide, &reg.wide) {
                        let ghost before = changes@;
                        changes.push(
                            RegisterChange {
                                name: reg.name.clone(),
                                old_value: prev.value,
                                new_value: reg.value,
                            },
                        );
                        assert(changes_view(changes@) =~= changes_view(before).push(
                            (reg.name@, prev.value, reg.value),
                        ));
                    }
                },
                None => {},
            }
            i = i + 1;
        }
        assert(self.registers@.take(i as int) =~= self.registers@);
        changes
    }
}

proof fn lemma_named_prefix(regs: Seq<Register>, name: Seq<char>, n: int)
    requires
        0 < n <= regs.len(),
        named_index(regs.take(n - 1), name) == -1,
        regs[n - 1].name@ == name,
    ensures
        named_index(regs, name) == n - 1,
    decreases regs.len(),
{
    assert(regs.take(n).drop_last() =~= regs.take(n - 1));
    if regs.len() == n {
        assert(regs.take(n) =~= regs);
    } else {
        assert(regs.drop_last().take(n) =~= regs.take(n));
        assert(regs.drop_last().take(n - 1) =~= regs.take(n - 1));
        lemma_named_prefix(regs.drop_last(), name, n);
    }
}

proof fn lemma_role_prefix(regs: Seq<Register>, role: RegisterRole, n: int)
    requires
        0 < n <= regs.len(),
        role_index(regs.take(n - 1), role) == -1,
        regs[n - 1].role == role,
    ensures
        role_index(regs, role) == n - 1,
    decreases regs.len(),
{
    assert(regs.take(n).drop_last() =~= regs.take(n - 1));
    if regs.len() == n {
        assert(regs.take(n) =~= regs);
    } else {
        assert(regs.drop_last().take(n) =~= regs.take(n));
        assert(regs.drop_last().take(n - 1) =~= regs.take(n - 1));
        lemma_role_prefix(regs.drop_last(), role, n);
    }
}

#[derive(Debug, Clone, PartialEq, Eq)]
pub struct RegisterChange {
    pub name: String,
    pub old_value: u64,
    pub new_value: u64,
}

#[derive(Debug, Clone, Copy, PartialEq, Eq, Structural)]
pub struct MemoryPermissions {
    pub read: bool,
    pub write: bool,
    pub execute: bool,
}

#[derive(Debug, Clone, PartialEq, Eq)]
pub struct MemoryRegion {
    pub start: Address,
    pub end: Address,
    pub permissions: MemoryPermissions,
    pub name: Option<String>,
}

/// A loaded module (main executable or shared library).
#[derive(Debug, Clone, PartialEq, Eq)]
pub struct Module {
    pub id: ModuleId,
    pub path: String,
    pub load_address: Option<Address>,
    /// Created at runtime (JIT) rather than loaded from a file.
    pub is_jit: bool,
    pub has_debug_info: bool,
}

#[derive(Debug, Clone, PartialEq, Eq)]
pub struct Symbol {
    pub name: String,
    /// Human-readable demangled name when available.
    pub demangled: Option<String>,
    pub module: Option<String>,
    pub start: Option<Address>,
    /// Offset of the referring address from the symbol start.
    pub offset: u64,
}

pub open spec fn symbol_display(s: Symbol) -> Seq<char> {
    match s.demangled {
        Some(d) => d@,
        None => s.name@,
    }
}

impl Symbol {
    /// A field-for-field copy.
    pub fn dup(&self) -> (r: Symbol)
        ensures
            r == *self,
    {
        Symbol {
            name: self.name.clone(),
            demangled: dup_opt_string(&self.demangled),
            module: dup_opt_string(&self.module),
            start: self.start,
            offset: self.offset,
        }
    }

    /// The demangled name if present, else the raw one.
    pub fn display(&self) -> (r: &str)
        ensures
            r@ == symbol_display(*self),
    {
        match &self.demangled {
            Some(d) => d.as_str(),
            None => self.name.as_str(),
        }
    }
}

#[derive(Debug, Clone, PartialEq, Eq)]
pub struct SourceLocation {
    pub file: String,
    pub line: u32,
    pub column: Option<u32>,
}

/// One disassembled instruction.
#[derive(Debug, Clone, PartialEq, Eq)]
pub struct Instruction {
    pub address: Address,
    pub bytes: Vec<u8>,
    pub mnemonic: String,
    pub operands: String,
    pub symbol: Option<Symbol>,
    pub source: Option<SourceLocation>,
    pub branch_target: Option<Address>,
    pub is_current: bool,
    pub has_breakpoint: bool,
}

#[derive(Debug, Clone, PartialEq, Eq)]
pub enum BreakpointLocation {
    Address(Address),
    Symbol(String),
    Source { file: String, line: u32 },
}

#[derive(Debug, Clone, PartialEq, Eq)]
pub struct ResolvedLocation {
    pub address: Address,
    pub symbol: Option<Symbol>,
    pub source: Option<SourceLocation>,
}

#[derive(Debug, Clone, PartialEq, Eq)]
pub struct Breakpoint {
    pub id: BreakpointId,
    pub location: BreakpointLocation,
    pub enabled: bool,
    pub hit_count: u64,
    pub condition: Option<String>,
    /// Concrete addresses this logical breakpoint resolved to.
    pub resolved: Vec<ResolvedLocation>,
}

impl SourceLocation {
    /// A field-for-field copy.
    pub fn dup(&self) -> (r: SourceLocation)
        ensures
            r == *self,
    {
        SourceLocation { file: self.file.clone(), line: self.line, column: self.column }
    }
}

impl BreakpointLocation {
    /// A variant-for-variant copy.
    pub fn dup(&self) -> (r: BreakpointLocation)
        ensures
            r == *self,
    {
        match self {
            BreakpointLocation::Address(a) => BreakpointLocation::Address(*a),
            BreakpointLocation::Symbol(s) => BreakpointLocation::Symbol(s.clone()),
            BreakpointLocation::Source { file, line } => BreakpointLocation::Source { file: file.clone(), line: *line },
        }
    }
}

impl ResolvedLocation {
    /// A field-for-field copy.
    pub fn dup(&self) -> (r: ResolvedLocation)
        ensures
            r == *self,
    {
        ResolvedLocation {
            address: self.address,
            symbol: match &self.symbol {
                Some(s) => Some(s.dup()),
                None => None,
            },
            source: match &self.source {
                Some(s) => Some(s.dup()),
                None => None,
            },
        }
    }
}

/// A breakpoint with its resolved locations taken by value.
pub open spec fn bp_view(b: Breakpoint) -> (BreakpointId, BreakpointLocation, bool, u64, Option<String>, Seq<ResolvedLocation>) {
    (b.id, b.location, b.enabled, b.hit_count, b.condition, b.resolved@)
}

/// The views of a list of breakpoints.
pub open spec fn bp_views(bs: Seq<Breakpoint>) -> Seq<(BreakpointId, BreakpointLocation, bool, u64, Option<String>, Seq<ResolvedLocation>)> {
    bs.map_values(|b: Breakpoint| bp_view(b))
}

impl Breakpoint {
    /// A copy with the same view.
    pub fn dup(&self) -> (r: Breakpoint)
        ensures
            bp_view(r) == bp_view(*self),
    {
        let mut resolved: Vec<ResolvedLocation> = Vec::new();
        let mut i: usize = 0;
        while i < self.resolved.len()
            invariant
                i <= self.resolved@.len(),
                resolved@ == self.resolved@.take(i as int),
            decreases self.resolved@.len() - i,
        {
            resolved.push(self.resolved[i].dup());
            proof {
                assert(resolved@ =~= self.resolved@.take(i + 1));
            }
            i = i + 1;
        }
        proof {
            assert(self.resolved@.take(self.resolved@.len() as int) =~= self.resolved@);
        }
        Breakpoint {
            id: self.id,
            location: self.location.dup(),
            enabled: self.enabled,
            hit_count: self.hit_count,
            condition: dup_opt_string(&self.condition),
            resolved,
        }
    }

    pub fn is_resolved(&self) -> (b: bool)
        ensures
            b == (self.resolved@.len() > 0),
    {
        self.resolved.len() > 0
    }
}

#[derive(Debug, Clone, Copy, PartialEq, Eq, Structural)]
pub enum WatchKind {
    Read,
    Write,
    ReadWrite,
}

#[derive(Debug, Clone, PartialEq, Eq)]
pub struct Watchpoint {
    pub id: WatchpointId,
    pub address: Address,
    pub size: u64,
    pub kind: WatchKind,
    pub enabled: bool,
    pub hit_count: u64,
}

/// A copy of an optional string.
pub fn dup_opt_string(s: &Option<String>) -> (r: Option<String>)
    ensures
        r == *s,
{
    match s {
        Some(x) => Some(x.clone()),
        None => None,
    }
}

impl Module {
    /// A field-for-field copy.
    pub fn dup(&self) -> (r: Module)
        ensures
            r == *self,
    {
        Module {
            id: self.id,
            path: self.path.clone(),
            load_address: self.load_address,
            is_jit: self.is_jit,
            has_debug_info: self.has_debug_info,
        }
    }
}

/// Why the target stopped.
#[derive(Debug, Clone, PartialEq, Eq)]
pub enum StopReason {
    NoReason,
    Breakpoint(BreakpointId),
    Watchpoint(WatchpointId),
    Step,
    Signal(String),
    Exception(String),
    Exited(i32),
    Detached,
    Unknown(String),
}

/// The short label of a stop reason.
pub open spec fn short_text(r: StopReason) -> Seq<char> {
    match r {
        StopReason::NoReason => "none"@,
        StopReason::Breakpoint(id) => "breakpoint #"@ + dec_digits(id.0 as nat),
        StopReason::Watchpoint(id) => "watchpoint #"@ + dec_digits(id.0 as nat),
        StopReason::Step => "step"@,
        StopReason::Signal(s) => "signal "@ + s@,
        StopReason::Exception(e) => "exception "@ + e@,
        StopReason::Exited(code) => "exited "@ + signed_dec(code as int),
        StopReason::Detached => "detached"@,
        StopReason::Unknown(s) => "stop ("@ + s@ + ")"@,
    }
}

impl StopReason {
    /// A variant-for-variant copy.
    pub fn dup(&self) -> (r: StopReason)
        ensures
            r == *self,
    {
        match self {
            StopReason::NoReason => StopReason::NoReason,
            StopReason::Breakpoint(id) => StopReason::Breakpoint(*id),
            StopReason::Watchpoint(id) => StopReason::Watchpoint(*id),
            StopReason::Step => StopReason::Step,
            StopReason::Signal(s) => StopReason::Signal(s.clone()),
            StopReason::Exception(e) => StopReason::Exception(e.clone()),
            StopReason::Exited(c) => StopReason::Exited(*c),
            StopReason::Detached => StopReason::Detached,
            StopReason::Unknown(s) => StopReason::Unknown(s.clone()),
        }
    }

    pub fn short(&self) -> (s: String)
        ensures
            s@ == short_text(*self),
    {
        let mut v: Vec<char> = Vec::new();
        match self {
            StopReason::NoReason => push_str(&mut v, "none"),
            StopReason::Breakpoint(id) => {
                push_str(&mut v, "breakpoint #");
                let d = fmt_dec(id.0);
                push_chars(&mut v, d.as_slice());
            },
            StopReason::Watchpoint(id) => {
                push_str(&mut v, "watchpoint #");
                let d = fmt_dec(id.0);
                push_chars(&mut v, d.as_slice());
            },
            StopReason::Step => push_str(&mut v, "step"),
            StopReason::Signal(s) => {
                push_str(&mut v, "signal ");
                push_str(&mut v, s.as_str());
            },
            StopReason::Exception(e) => {
                push_str(&mut v, "exception ");
                push_str(&mut v, e.as_str());
            },
            StopReason::Exited(code) => {
                push_str(&mut v, "exited ");
                let d = fmt_signed(*code as i64);
                push_chars(&mut v, d.as_slice());
            },
            StopReason::Detached => push_str(&mut v, "detached"),
            StopReason::Unknown(s) => {
                push_str(&mut v, "stop (");
                push_str(&mut v, s.as_str());
                push_str(&mut v, ")");
            },
        }
        string_of(v.as_slice())
    }
}

/// Language metadata of the current frame or process.
#[derive(Debug, Clone, Copy, PartialEq, Eq, Structural, Default)]
pub struct LanguageInfo {
    pub language: Language,
}

} // verus!
