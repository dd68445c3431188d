//! The debugger model read out of the driver's replies: threads, frames,
//! registers, disassembly and modules.
use vstd::prelude::*;
use vstd::string::StringSliceAdditionalSpecFns;
use vstd::utf8::encode_utf8;
use crate::bind_core::address::Address;
use crate::bind_core::arch::{Architecture, role_of};
use crate::bind_core::id::{FrameId, ModuleId, ThreadId};
use crate::bind_core::model::{
    Breakpoint, Frame, Instruction, Module, Register, RegisterRole, RegisterSet, SourceLocation, StopReason, Symbol,
    ThreadInfo, ThreadRunState,
};
use crate::lldb::decode::{decode_hex, decoded_from};
use crate::lldb::json::{JsonValue, bool_at, bool_field, json_get, json_items, str_at, str_field, u64_at, u64_field};

verus! {

/// The view of an optional string.
pub open spec fn opt_view(o: Option<String>) -> Option<Seq<char>> {
    match o {
        Some(s) => Some(s@),
        None => None,
    }
}

/// A string member, or `dflt` when absent.
pub open spec fn str_or(v: JsonValue, key: Seq<char>, dflt: Seq<char>) -> Seq<char> {
    match str_field(v, key) {
        Some(s) => s,
        None => dflt,
    }
}

pub open spec fn u64_or(v: JsonValue, key: Seq<char>, dflt: u64) -> u64 {
    match u64_field(v, key) {
        Some(n) => n,
        None => dflt,
    }
}

pub open spec fn addr_field(v: JsonValue, key: Seq<char>) -> Option<Address> {
    match u64_field(v, key) {
        Some(n) => Some(Address(n)),
        None => None,
    }
}

/// The items of the array under `key`, none when it is not an array.
pub open spec fn items_at(v: JsonValue, key: Seq<char>) -> Seq<JsonValue> {
    match json_get(v, key) {
        Some(x) => json_items(x),
        None => Seq::empty(),
    }
}

fn str_or_owned(v: &JsonValue, key: &str, dflt: &str) -> (r: String)
    ensures
        r@ == str_or(*v, key@, dflt@),
{
    match str_at(v, key) {
        Some(s) => s,
        None => dflt.to_owned(),
    }
}

fn addr_at(v: &JsonValue, key: &str) -> (r: Option<Address>)
    ensures
        r == addr_field(*v, key@),
{
    match u64_at(v, key) {
        Some(n) => Some(Address(n)),
        None => None,
    }
}

/// One thread of a `threads` reply.
pub open spec fn thread_read(t: JsonValue, selected: Option<ThreadId>, r: ThreadInfo) -> bool {
    let id = ThreadId(u64_or(t, "id"@, 0));
    &&& r.id == id
    &&& opt_view(r.name) == str_field(t, "name"@)
    &&& r.is_selected == (selected == Some(id))
    &&& r.run_state == ThreadRunState::Stopped
    &&& r.stop_reason == StopReason::NoReason
    &&& r.pc == addr_field(t, "pc"@)
}

pub fn threads_from(v: &JsonValue, selected: Option<ThreadId>) -> (r: Vec<ThreadInfo>)
    ensures
        r@.len() == json_items(*v).len(),
        forall|i: int| 0 <= i < r@.len() ==> thread_read(json_items(*v)[i], selected, #[trigger] r@[i]),
{
    let items = v.items();
    let mut out: Vec<ThreadInfo> = Vec::new();
    let mut i: usize = 0;
    while i < items.len()
        invariant
            i <= items@.len(),
            items@ == json_items(*v),
            out@.len() == i,
            forall|j: int| 0 <= j < i ==> thread_read(items@[j], selected, #[trigger] out@[j]),
        decreases items@.len() - i,
    {
        let t = &items[i];
        let id = ThreadId(match u64_at(t, "id") {
            Some(n) => n,
            None => 0,
        });
        out.push(ThreadInfo {
            id,
            name: str_at(t, "name"),
            is_selected: selected == Some(id),
            run_state: ThreadRunState::Stopped,
            stop_reason: StopReason::NoReason,
            pc: addr_at(t, "pc"),
        });
        i = i + 1;
    }
    out
}

/// The source position a frame reports: a file with a line above zero.
pub open spec fn frame_source(f: JsonValue, s: Option<SourceLocation>) -> bool {
    match (str_field(f, "file"@), u64_field(f, "line"@)) {
        (Some(file), Some(line)) => if line > 0 {
            s matches Some(loc) && loc.file@ == file && loc.line == line as u32 && loc.column is None
        } else {
            s is None
        },
        _ => s is None,
    }
}

/// Frame `i` of thread `thread` in a `frames` reply.
pub open spec fn frame_read(f: JsonValue, i: int, thread: ThreadId, r: Frame) -> bool {
    &&& r.id == FrameId(i as u64)
    &&& r.thread_id == thread
    &&& r.index == i
    &&& r.pc == Address(u64_or(f, "pc"@, 0))
    &&& r.sp == addr_field(f, "sp"@)
    &&& r.fp == addr_field(f, "fp"@)
    &&& opt_view(r.function) == str_field(f, "function"@)
    &&& match r.symbol {
        Some(sym) => str_field(f, "function"@) == Some(sym.name@) && sym.demangled is None
            && opt_view(sym.module) == str_field(f, "module"@) && sym.start is None && sym.offset == 0,
        None => str_field(f, "function"@) is None,
    }
    &&& frame_source(f, r.source)
    &&& r.is_inlined == (bool_field(f, "inlined"@) == Some(true))
    &&& r.is_selected == (i == 0)
}

pub fn frames_from(v: &JsonValue, thread: ThreadId) -> (r: Vec<Frame>)
    ensures
        r@.len() == json_items(*v).len(),
        forall|i: int| 0 <= i < r@.len() ==> frame_read(json_items(*v)[i], i, thread, #[trigger] r@[i]),
{
    let items = v.items();
    let mut out: Vec<Frame> = Vec::new();
    let mut i: usize = 0;
    while i < items.len()
        invariant
            i <= items@.len(),
            items@ == json_items(*v),
            out@.len() == i,
            forall|j: int| 0 <= j < i ==> frame_read(items@[j], j, thread, #[trigger] out@[j]),
        decreases items@.len() - i,
    {
        let f = &items[i];
        let function = str_at(f, "function");
        let symbol = match &function {
            Some(name) => Some(Symbol {
                name: name.clone(),
                demangled: None,
                module: str_at(f, "module"),
                start: None,
                offset: 0,
            }),
            None => None,
        };
        let source = match (str_at(f, "file"), u64_at(f, "line")) {
            (Some(file), Some(line)) => if line > 0 {
                Some(SourceLocation { file, line: line as u32, column: None })
            } else {
                None
            },
            _ => None,
        };
        let inlined = match bool_at(f, "inlined") {
            Some(b) => b,
            None => false,
        };
        out.push(Frame {
            id: FrameId(i as u64),
            thread_id: thread,
            index: i,
            pc: Address(match u64_at(f, "pc") {
                Some(n) => n,
                None => 0,
            }),
            sp: addr_at(f, "sp"),
            fp: addr_at(f, "fp"),
            function,
            symbol,
            source,
            is_inlined: inlined,
            is_selected: i == 0,
        });
        i = i + 1;
    }
    out
}

/// The registers a `registers` reply lists: each item with a name, its
/// value (0 when absent), its width (64 when absent, kept to 16 bits) and
/// the role the name has on `arch`.
pub open spec fn registers_read(items: Seq<JsonValue>, arch: Architecture) -> Seq<(Seq<char>, u64, u16, RegisterRole)>
    decreases items.len(),
{
    if items.len() == 0 {
        Seq::empty()
    } else {
        let rest = registers_read(items.drop_last(), arch);
        let x = items.last();
        match str_field(x, "name"@) {
            Some(name) => rest.push((name, u64_or(x, "value"@, 0), u64_or(x, "size"@, 64) as u16, role_of(arch, name))),
            None => rest,
        }
    }
}

pub open spec fn register_view(r: Register) -> (Seq<char>, u64, u16, RegisterRole) {
    (r.name@, r.value, r.size_bits, r.role)
}

pub fn registers_from(v: &JsonValue, arch: Architecture, thread: ThreadId) -> (r: RegisterSet)
    ensures
        r.thread_id == thread,
        r.registers@.map_values(|x: Register| register_view(x)) == registers_read(json_items(*v), arch),
        forall|i: int| 0 <= i < r.registers@.len() ==> (#[trigger] r.registers@[i]).wide is None,
{
    let items = v.items();
    let mut out: Vec<Register> = Vec::new();
    let mut i: usize = 0;
    while i < items.len()
        invariant
            i <= items@.len(),
            items@ == json_items(*v),
            out@.map_values(|x: Register| register_view(x)) == registers_read(items@.take(i as int), arch),
            forall|j: int| 0 <= j < out@.len() ==> (#[trigger] out@[j]).wide is None,
        decreases items@.len() - i,
    {
        let x = &items[i];
        proof {
            let t = items@.take(i as int + 1);
            assert(t.drop_last() =~= items@.take(i as int));
            assert(t.last() == items@[i as int]);
        }
        let ghost before = out@;
        match str_at(x, "name") {
            Some(name) => {
                let value = match u64_at(x, "value") {
                    Some(n) => n,
                    None => 0,
                };
                let size = match u64_at(x, "size") {
                    Some(n) => n,
                    None => 64,
                };
                let role = arch.classify_register(name.as_str());
                out.push(Register { name, value, size_bits: size as u16, role, wide: None });
                assert(out@.map_values(|y: Register| register_view(y)) =~= before.map_values(
                    |y: Register| register_view(y),
                ).push(register_view(out@.last())));
            },
            None => {},
        }
        i = i + 1;
    }
    assert(items@.take(i as int) =~= items@);
    RegisterSet { thread_id: thread, registers: out }
}

/// Whether a breakpoint in `bps` resolved at `a`.
pub open spec fn has_breakpoint_at(bps: Seq<Breakpoint>, a: Address) -> bool {
    exists|i: int, j: int| 0 <= i < bps.len() && 0 <= j < bps[i].resolved@.len()
        && (#[trigger] bps[i].resolved@[j]).address == a
}

/// One instruction of a `disassemble` reply, `current` being the last stop
/// pc and `bps` the known breakpoints.
pub open spec fn instruction_read(x: JsonValue, current: Option<Address>, bps: Seq<Breakpoint>, r: Instruction) -> bool {
    let address = Address(u64_or(x, "address"@, 0));
    &&& r.address == address
    &&& r.bytes@ == decoded_from(encode_utf8(str_or(x, "bytes"@, ""@)), 0)
    &&& r.mnemonic@ == str_or(x, "mnemonic"@, ""@)
    &&& r.operands@ == str_or(x, "operands"@, ""@)
    &&& match r.symbol {
        Some(sym) => str_field(x, "function"@) == Some(sym.name@) && sym.demangled is None && sym.module is None
            && sym.start is None && sym.offset == 0,
        None => str_field(x, "function"@) is None,
    }
    &&& r.source is None
    &&& r.branch_target is None
    &&& r.is_current == (current == Some(address))
    &&& r.has_breakpoint == has_breakpoint_at(bps, address)
}

fn breakpoint_at(bps: &Vec<Breakpoint>, a: Address) -> (r: bool)
    ensures
        r == has_breakpoint_at(bps@, a),
{
    let mut i: usize = 0;
    while i < bps.len()
        invariant
            i <= bps@.len(),
            forall|k: int, j: int| 0 <= k < i && 0 <= j < bps@[k].resolved@.len()
                ==> (#[trigger] bps@[k].resolved@[j]).address != a,
        decreases bps@.len() - i,
    {
        let b = &bps[i];
        let mut j: usize = 0;
        while j < b.resolved.len()
            invariant
                j <= b.resolved@.len(),
                i < bps@.len(),
                *b == bps@[i as int],
                forall|m: int| 0 <= m < j ==> (#[trigger] b.resolved@[m]).address != a,
            decreases b.resolved@.len() - j,
        {
            if b.resolved[j].address == a {
                assert(bps@[i as int].resolved@[j as int].address == a);
                return true;
            }
            j = j + 1;
        }
        i = i + 1;
    }
    false
}

pub fn disassembly_from(v: &JsonValue, current: Option<Address>, bps: &Vec<Breakpoint>) -> (r: Vec<Instruction>)
    ensures
        r@.len() == json_items(*v).len(),
        forall|i: int| 0 <= i < r@.len() ==> instruction_read(json_items(*v)[i], current, bps@, #[trigger] r@[i]),
{
    let items = v.items();
    let mut out: Vec<Instruction> = Vec::new();
    let mut i: usize = 0;
    while i < items.len()
        invariant
            i <= items@.len(),
            items@ == json_items(*v),
            out@.len() == i,
            forall|j: int| 0 <= j < i ==> instruction_read(items@[j], current, bps@, #[trigger] out@[j]),
        decreases items@.len() - i,
    {
        let x = &items[i];
        let address = Address(match u64_at(x, "address") {
            Some(n) => n,
            None => 0,
        });
        let hex = str_or_owned(x, "bytes", "");
        let bytes = decode_hex(hex.as_str());
        let symbol = match str_at(x, "function") {
            Some(name) => Some(Symbol { name, demangled: None, module: None, start: None, offset: 0 }),
            None => None,
        };
        out.push(Instruction {
            address,
            bytes,
            mnemonic: str_or_owned(x, "mnemonic", ""),
            operands: str_or_owned(x, "operands", ""),
            symbol,
            source: None,
            branch_target: None,
            is_current: current == Some(address),
            has_breakpoint: breakpoint_at(bps, address),
        });
        i = i + 1;
    }
    out
}

/// Module `i` of a `modules` reply.
pub open spec fn module_read(m: JsonValue, i: int, r: Module) -> bool {
    &&& r.id == ModuleId(i as u64)
    &&& r.path@ == str_or(m, "path"@, ""@)
    &&& r.load_address is None
    &&& !r.is_jit
    &&& r.has_debug_info == (bool_field(m, "has_debug"@) == Some(true))
}

pub fn modules_from(v: &JsonValue) -> (r: Vec<Module>)
    ensures
        r@.len() == json_items(*v).len(),
        forall|i: int| 0 <= i < r@.len() ==> module_read(json_items(*v)[i], i, #[trigger] r@[i]),
{
    let items = v.items();
    let mut out: Vec<Module> = Vec::new();
    let mut i: usize = 0;
    while i < items.len()
        invariant
            i <= items@.len(),
            items@ == json_items(*v),
            out@.len() == i,
            forall|j: int| 0 <= j < i ==> module_read(items@[j], j, #[trigger] out@[j]),
        decreases items@.len() - i,
    {
        let m = &items[i];
        out.push(Module {
            id: ModuleId(i as u64),
            path: str_or_owned(m, "path", ""),
            load_address: None,
            is_jit: false,
            has_debug_info: match bool_at(m, "has_debug") {
                Some(b) => b,
                None => false,
            },
        });
        i = i + 1;
    }
    out
}

} // verus!
