//! The typed command palette.
//!
//! Text typed into the palette (or a keybinding) is parsed here into either a
//! command for the worker or an action handled in the interface. Every core
//! operation maps to a typed command; parse errors are returned as messages.
use vstd::prelude::*;
use crate::analysis::analyzers::string_views;
use crate::bind_core::address::Address;
use crate::bind_core::command::{Command, RunTarget, StepKind};
use crate::bind_core::id::{BreakpointId, FrameId, ThreadId};
use crate::bind_core::model::BreakpointLocation;
use crate::num::{parse_radix, parse_uint, lemma_parse_uint_bound};
use crate::text::{
    chars_of, contains_char, is_word, join, lower_all, lower_seq, occurs, starts, starts_with_lit, string_of, trim,
    trim_chars, split_whitespace, views, words, push_chars, lex_lt, lex_less, lemma_lex_order, slice_of,
};
use crate::tra86::lldb_output::{last_pos, last_pos_of};
use crate::analysis::tally::{ranks_before, ranked_order, lemma_ranks_before};

verus! {

/// Actions handled entirely within the interface (no debugger involvement).
#[derive(Debug, Clone, PartialEq, Eq)]
pub enum UiAction {
    Quit,
    Help(Option<String>),
    Layout(LayoutMode),
    FocusPanel(Panel),
    Search(String),
    ShowMemory { addr: Address, len: usize },
    /// Begin recording the event stream (to a file when `path` is given).
    TraceStart { path: Option<String> },
    TraceStop,
}

#[derive(Debug, Clone, Copy, PartialEq, Eq, Structural)]
pub enum LayoutMode {
    /// Source and disassembly side by side (default).
    Mixed,
    /// Source only.
    Source,
    /// Disassembly only.
    Disassembly,
}

#[derive(Debug, Clone, Copy, PartialEq, Eq, Structural)]
pub enum Panel {
    Code,
    Registers,
    Stack,
    Timeline,
}

/// The parsed result of a palette line.
#[derive(Debug, Clone, PartialEq, Eq)]
pub enum Parsed {
    Command(Command),
    Ui(UiAction),
}

/// The command names, used for the palette's suggestions.
pub const COMMAND_NAMES: [&'static str; 17] = [
    "continue",
    "pause",
    "step",
    "next",
    "finish",
    "step-instruction",
    "break",
    "delete-breakpoint",
    "thread",
    "frame",
    "memory",
    "goto",
    "trace",
    "layout",
    "search",
    "help",
    "quit",
];

/// An address typed in the palette: hexadecimal after `0x`/`0X`; bare, read
/// as hexadecimal, else as decimal.
pub open spec fn palette_address(tok: Seq<char>) -> Option<nat> {
    let t = trim(tok);
    if starts(t, "0x"@) || starts(t, "0X"@) {
        parse_uint(t.skip(2), 16, u64::MAX as nat)
    } else {
        match parse_uint(t, 16, u64::MAX as nat) {
            Some(v) => Some(v),
            None => parse_uint(t, 10, u64::MAX as nat),
        }
    }
}

pub fn parse_address(tok: &str) -> (r: Result<Address, String>)
    ensures
        match palette_address(tok@) {
            Some(v) => r == Ok::<Address, String>(Address(v as u64)),
            None => r matches Err(e) && e@ == "invalid address: "@ + tok@,
        },
{
    proof {
        reveal_strlit("0x");
        reveal_strlit("0X");
    }
    let c = chars_of(tok);
    let t = trim_chars(c.as_slice());
    let value = if starts_with_lit(t.as_slice(), "0x") || starts_with_lit(t.as_slice(), "0X") {
        let rest = slice_of(t.as_slice(), 2, t.len());
        assert(rest@ =~= t@.skip(2));
        proof {
            lemma_parse_uint_bound(rest@, 16, u64::MAX as nat);
        }
        parse_radix(rest.as_slice(), 16, u64::MAX)
    } else {
        proof {
            lemma_parse_uint_bound(t@, 16, u64::MAX as nat);
            lemma_parse_uint_bound(t@, 10, u64::MAX as nat);
        }
        match parse_radix(t.as_slice(), 16, u64::MAX) {
            Some(v) => Some(v),
            None => parse_radix(t.as_slice(), 10, u64::MAX),
        }
    };
    match value {
        Some(v) => Ok(Address::new(v)),
        None => {
            let mut m = chars_of("invalid address: ");
            push_chars(&mut m, c.as_slice());
            Err(string_of(m.as_slice()))
        },
    }
}

/// A numbered argument `rest[0]`, required under `usage`, that must read
/// as a number (else `bad`).
pub open spec fn number_arg(rest: Seq<Seq<char>>, usage: Seq<char>, bad: Seq<char>) -> Result<u64, Seq<char>> {
    if rest.len() == 0 {
        Err(usage)
    } else {
        match parse_uint(rest[0], 10, u64::MAX as nat) {
            Some(v) => Ok(v as u64),
            None => Err(bad),
        }
    }
}

/// The commands whose result holds no text: the execution commands, the
/// numbered selections, memory, goto, layout and quit. `None` for the others.
pub open spec fn simple_command(cmd: Seq<char>, rest: Seq<Seq<char>>) -> Option<Result<Parsed, Seq<char>>> {
    if cmd == "continue"@ || cmd == "c"@ {
        Some(Ok(Parsed::Command(Command::Continue)))
    } else if cmd == "pause"@ {
        Some(Ok(Parsed::Command(Command::Pause)))
    } else if cmd == "step"@ || cmd == "s"@ {
        Some(Ok(Parsed::Command(Command::Step(StepKind::Into))))
    } else if cmd == "next"@ || cmd == "n"@ {
        Some(Ok(Parsed::Command(Command::Step(StepKind::Over))))
    } else if cmd == "finish"@ || cmd == "o"@ {
        Some(Ok(Parsed::Command(Command::Step(StepKind::Out))))
    } else if cmd == "step-instruction"@ || cmd == "si"@ || cmd == "i"@ {
        Some(Ok(Parsed::Command(Command::Step(StepKind::Instruction))))
    } else if cmd == "delete-breakpoint"@ || cmd == "d"@ {
        Some(match number_arg(rest, "usage: delete-breakpoint <id>"@, "breakpoint id must be a number"@) {
            Ok(id) => Ok(Parsed::Command(Command::RemoveBreakpoint(BreakpointId(id)))),
            Err(m) => Err(m),
        })
    } else if cmd == "thread"@ {
        Some(match number_arg(rest, "usage: thread <id>"@, "thread id must be a number"@) {
            Ok(id) => Ok(Parsed::Command(Command::SelectThread(ThreadId(id)))),
            Err(m) => Err(m),
        })
    } else if cmd == "frame"@ {
        Some(match number_arg(rest, "usage: frame <index>"@, "frame index must be a number"@) {
            Ok(id) => Ok(Parsed::Command(Command::SelectFrame(FrameId(id)))),
            Err(m) => Err(m),
        })
    } else if cmd == "memory"@ || cmd == "mem"@ || cmd == "x"@ {
        Some(if rest.len() == 0 {
            Err("usage: memory <addr> [len]"@)
        } else {
            match palette_address(rest[0]) {
                None => Err("invalid address: "@ + rest[0]),
                Some(a) => if rest.len() > 1 {
                    match parse_uint(rest[1], 10, usize::MAX as nat) {
                        Some(n) => Ok(Parsed::Ui(UiAction::ShowMemory { addr: Address(a as u64), len: n as usize })),
                        None => Err("length must be a number"@),
                    }
                } else {
                    Ok(Parsed::Ui(UiAction::ShowMemory { addr: Address(a as u64), len: 128 }))
                },
            }
        })
    } else if cmd == "goto"@ || cmd == "g"@ {
        Some(if rest.len() == 0 {
            Err("usage: goto <addr>"@)
        } else {
            match palette_address(rest[0]) {
                None => Err("invalid address: "@ + rest[0]),
                Some(a) => Ok(Parsed::Command(Command::RunTo(RunTarget::Address(Address(a as u64))))),
            }
        })
    } else if cmd == "layout"@ {
        Some(if rest.len() == 0 || rest[0] == "mixed"@ {
            Ok(Parsed::Ui(UiAction::Layout(LayoutMode::Mixed)))
        } else if rest[0] == "source"@ {
            Ok(Parsed::Ui(UiAction::Layout(LayoutMode::Source)))
        } else if rest[0] == "disassembly"@ || rest[0] == "disasm"@ || rest[0] == "asm"@ {
            Ok(Parsed::Ui(UiAction::Layout(LayoutMode::Disassembly)))
        } else {
            Err("unknown layout: "@ + rest[0])
        })
    } else if cmd == "quit"@ || cmd == "q"@ || cmd == "exit"@ {
        Some(Ok(Parsed::Ui(UiAction::Quit)))
    } else {
        None
    }
}

/// A breakpoint at `loc`, with no condition.
pub open spec fn is_break_at(r: Result<Option<Parsed>, String>, loc: BreakpointLocation) -> bool {
    r matches Ok(Some(Parsed::Command(Command::AddBreakpoint { location, condition }))) && location == loc && condition is None
}

/// A breakpoint at the address `t`.
pub open spec fn address_break(t: Seq<char>, r: Result<Option<Parsed>, String>) -> bool {
    match palette_address(t) {
        Some(v) => is_break_at(r, BreakpointLocation::Address(Address(v as u64))),
        None => r matches Err(e) && e@ == "invalid address: "@ + t,
    }
}

/// A breakpoint at `file:line`, split at the last colon.
pub open spec fn source_break(t: Seq<char>, r: Result<Option<Parsed>, String>) -> bool {
    let k = last_pos(t, ':');
    if k < 0 {
        r matches Err(e) && e@ == "usage: break file <path>:<line>"@
    } else {
        match parse_uint(t.skip(k + 1), 10, u32::MAX as nat) {
            Some(n) => r matches Ok(Some(Parsed::Command(Command::AddBreakpoint {
                location: BreakpointLocation::Source { file, line },
                condition: None,
            }))) && file@ == t.take(k) && line == n,
            None => r matches Err(e) && e@ == "invalid line"@,
        }
    }
}

/// `break <symbol> | break address A | break file F:L`, with the shorthands
/// `break 0x..` and `break F:L`.
pub open spec fn break_parsed(rest: Seq<Seq<char>>, r: Result<Option<Parsed>, String>) -> bool {
    if rest.len() == 0 {
        r matches Err(e) && e@ == "usage: break <symbol> | break address 0x.. | break file f:line"@
    } else {
        let a = rest[0];
        if a == "symbol"@ {
            if rest.len() > 1 {
                r matches Ok(Some(Parsed::Command(Command::AddBreakpoint {
                    location: BreakpointLocation::Symbol(n),
                    condition: None,
                }))) && n@ == rest[1]
            } else {
                r matches Err(e) && e@ == "usage: break symbol <name>"@
            }
        } else if a == "address"@ {
            if rest.len() > 1 {
                address_break(rest[1], r)
            } else {
                r matches Err(e) && e@ == "usage: break address 0x.."@
            }
        } else if a == "file"@ {
            if rest.len() > 1 {
                source_break(rest[1], r)
            } else {
                r matches Err(e) && e@ == "usage: break file <path>:<line>"@
            }
        } else if starts(a, "0x"@) {
            address_break(a, r)
        } else if a.contains(':') {
            source_break(a, r)
        } else {
            r matches Ok(Some(Parsed::Command(Command::AddBreakpoint {
                location: BreakpointLocation::Symbol(n),
                condition: None,
            }))) && n@ == a
        }
    }
}

/// The meaning of a palette line, as a check of the result `r`.
pub open spec fn palette_parsed(line: Seq<char>, r: Result<Option<Parsed>, String>) -> bool {
    let ws = words(trim(line));
    if ws.len() == 0 {
        r matches Ok(None)
    } else {
        let cmd = ws[0];
        let rest = ws.skip(1);
        if cmd == "break"@ || cmd == "b"@ {
            break_parsed(rest, r)
        } else if cmd == "trace"@ {
            if rest.len() > 0 && rest[0] == "start"@ {
                r matches Ok(Some(Parsed::Ui(UiAction::TraceStart { path }))) && match path {
                    Some(p) => rest.len() > 1 && p@ == rest[1],
                    None => rest.len() <= 1,
                }
            } else if rest.len() > 0 && rest[0] == "stop"@ {
                r matches Ok(Some(Parsed::Ui(UiAction::TraceStop)))
            } else {
                r matches Err(e) && e@ == "usage: trace start [path] | trace stop"@
            }
        } else if cmd == "search"@ || cmd == "/"@ {
            r matches Ok(Some(Parsed::Ui(UiAction::Search(s)))) && s@ == join(rest, " "@)
        } else if cmd == "help"@ || cmd == "?"@ {
            r matches Ok(Some(Parsed::Ui(UiAction::Help(h)))) && match h {
                Some(t) => rest.len() > 0 && t@ == rest[0],
                None => rest.len() == 0,
            }
        } else {
            match simple_command(cmd, rest) {
                Some(Ok(p)) => r matches Ok(Some(x)) && x == p,
                Some(Err(m)) => r matches Err(e) && e@ == m,
                None => r matches Err(e) && e@ == "unknown command: "@ + cmd,
            }
        }
    }
}

fn text_with(prefix: &str, tail: &[char]) -> (r: String)
    ensures
        r@ == prefix@ + tail@,
{
    let mut m = chars_of(prefix);
    push_chars(&mut m, tail);
    string_of(m.as_slice())
}

fn number_arg_of(rest: &Vec<Vec<char>>, usage: &str, bad: &str) -> (r: Result<u64, String>)
    ensures
        match number_arg(views(rest@), usage@, bad@) {
            Ok(v) => r matches Ok(x) && x == v,
            Err(m) => r matches Err(e) && e@ == m,
        },
{
    if rest.len() == 0 {
        return Err(usage.to_owned());
    }
    assert(views(rest@)[0] == rest@[0]@);
    proof {
        lemma_parse_uint_bound(rest@[0]@, 10, u64::MAX as nat);
    }
    match parse_radix(rest[0].as_slice(), 10, u64::MAX) {
        Some(v) => Ok(v),
        None => Err(bad.to_owned()),
    }
}

fn address_of(t: &Vec<char>) -> (r: Result<Address, String>)
    ensures
        match palette_address(t@) {
            Some(v) => r == Ok::<Address, String>(Address(v as u64)),
            None => r matches Err(e) && e@ == "invalid address: "@ + t@,
        },
{
    let s = string_of(t.as_slice());
    parse_address(s.as_str())
}

fn simple_of(cmd: &[char], rest: &Vec<Vec<char>>) -> (r: Option<Result<Parsed, String>>)
    ensures
        match simple_command(cmd@, views(rest@)) {
            None => r is None,
            Some(Ok(p)) => r matches Some(Ok(x)) && x == p,
            Some(Err(m)) => r matches Some(Err(e)) && e@ == m,
        },
{
    let ghost rv = views(rest@);
    if is_word(cmd, "continue") || is_word(cmd, "c") {
        Some(Ok(Parsed::Command(Command::Continue)))
    } else if is_word(cmd, "pause") {
        Some(Ok(Parsed::Command(Command::Pause)))
    } else if is_word(cmd, "step") || is_word(cmd, "s") {
        Some(Ok(Parsed::Command(Command::Step(StepKind::Into))))
    } else if is_word(cmd, "next") || is_word(cmd, "n") {
        Some(Ok(Parsed::Command(Command::Step(StepKind::Over))))
    } else if is_word(cmd, "finish") || is_word(cmd, "o") {
        Some(Ok(Parsed::Command(Command::Step(StepKind::Out))))
    } else if is_word(cmd, "step-instruction") || is_word(cmd, "si") || is_word(cmd, "i") {
        Some(Ok(Parsed::Command(Command::Step(StepKind::Instruction))))
    } else if is_word(cmd, "delete-breakpoint") || is_word(cmd, "d") {
        Some(match number_arg_of(rest, "usage: delete-breakpoint <id>", "breakpoint id must be a number") {
            Ok(id) => Ok(Parsed::Command(Command::RemoveBreakpoint(BreakpointId::new(id)))),
            Err(e) => Err(e),
        })
    } else if is_word(cmd, "thread") {
        Some(match number_arg_of(rest, "usage: thread <id>", "thread id must be a number") {
            Ok(id) => Ok(Parsed::Command(Command::SelectThread(ThreadId::new(id)))),
            Err(e) => Err(e),
        })
    } else if is_word(cmd, "frame") {
        Some(match number_arg_of(rest, "usage: frame <index>", "frame index must be a number") {
            Ok(id) => Ok(Parsed::Command(Command::SelectFrame(FrameId::new(id)))),
            Err(e) => Err(e),
        })
    } else if is_word(cmd, "memory") || is_word(cmd, "mem") || is_word(cmd, "x") {
        if rest.len() == 0 {
            return Some(Err("usage: memory <addr> [len]".to_owned()));
        }
        assert(rv[0] == rest@[0]@);
        match address_of(&rest[0]) {
            Err(e) => Some(Err(e)),
            Ok(addr) => if rest.len() > 1 {
                assert(rv[1] == rest@[1]@);
                proof {
                    lemma_parse_uint_bound(rest@[1]@, 10, usize::MAX as nat);
                }
                match parse_radix(rest[1].as_slice(), 10, usize::MAX as u64) {
                    Some(n) => Some(Ok(Parsed::Ui(UiAction::ShowMemory { addr, len: n as usize }))),
                    None => Some(Err("length must be a number".to_owned())),
                }
            } else {
                Some(Ok(Parsed::Ui(UiAction::ShowMemory { addr, len: 128 })))
            },
        }
    } else if is_word(cmd, "goto") || is_word(cmd, "g") {
        if rest.len() == 0 {
            return Some(Err("usage: goto <addr>".to_owned()));
        }
        assert(rv[0] == rest@[0]@);
        match address_of(&rest[0]) {
            Err(e) => Some(Err(e)),
            Ok(addr) => Some(Ok(Parsed::Command(Command::RunTo(RunTarget::Address(addr))))),
        }
    } else if is_word(cmd, "layout") {
        if rest.len() > 0 {
            assert(rv[0] == rest@[0]@);
        }
        Some(if rest.len() == 0 || is_word(rest[0].as_slice(), "mixed") {
            Ok(Parsed::Ui(UiAction::Layout(LayoutMode::Mixed)))
        } else if is_word(rest[0].as_slice(), "source") {
            Ok(Parsed::Ui(UiAction::Layout(LayoutMode::Source)))
        } else if is_word(rest[0].as_slice(), "disassembly") || is_word(rest[0].as_slice(), "disasm")
            || is_word(rest[0].as_slice(), "asm") {
            Ok(Parsed::Ui(UiAction::Layout(LayoutMode::Disassembly)))
        } else {
            Err(text_with("unknown layout: ", rest[0].as_slice()))
        })
    } else if is_word(cmd, "quit") || is_word(cmd, "q") || is_word(cmd, "exit") {
        Some(Ok(Parsed::Ui(UiAction::Quit)))
    } else {
        None
    }
}

/// Reads `file:line` (split at the last colon) as a source location.
pub fn parse_source_spec(spec: &Vec<char>) -> (r: Result<BreakpointLocation, String>)
    ensures
        ({
            let k = last_pos(spec@, ':');
            if k < 0 {
                r matches Err(e) && e@ == "usage: break file <path>:<line>"@
            } else {
                match parse_uint(spec@.skip(k + 1), 10, u32::MAX as nat) {
                    Some(n) => r matches Ok(BreakpointLocation::Source { file, line }) && file@ == spec@.take(k) && line == n,
                    None => r matches Err(e) && e@ == "invalid line"@,
                }
            }
        }),
{
    let n = spec.len();
    assert(spec@.take(n as int) =~= spec@);
    let pos = match last_pos_of(spec.as_slice(), n, ':') {
        Some(p) => p,
        None => {
            return Err("usage: break file <path>:<line>".to_owned());
        },
    };
    let file = slice_of(spec.as_slice(), 0, pos);
    let tail = slice_of(spec.as_slice(), pos + 1, spec.len());
    assert(tail@ =~= spec@.skip(pos + 1));
    assert(file@ =~= spec@.take(pos as int));
    proof {
        lemma_parse_uint_bound(tail@, 10, u32::MAX as nat);
    }
    match parse_radix(tail.as_slice(), 10, u32::MAX as u64) {
        Some(n) => Ok(BreakpointLocation::Source { file: string_of(file.as_slice()), line: n as u32 }),
        None => Err("invalid line".to_owned()),
    }
}

fn symbol_break(name: &Vec<char>) -> (r: Result<Option<Parsed>, String>)
    ensures
        r matches Ok(Some(Parsed::Command(Command::AddBreakpoint {
            location: BreakpointLocation::Symbol(n),
            condition: None,
        }))) && n@ == name@,
{
    Ok(Some(Parsed::Command(Command::AddBreakpoint {
        location: BreakpointLocation::Symbol(string_of(name.as_slice())),
        condition: None,
    })))
}

fn address_break_of(t: &Vec<char>) -> (r: Result<Option<Parsed>, String>)
    ensures
        address_break(t@, r),
{
    match address_of(t) {
        Ok(a) => Ok(Some(Parsed::Command(Command::AddBreakpoint { location: BreakpointLocation::Address(a), condition: None }))),
        Err(e) => Err(e),
    }
}

fn source_break_of(t: &Vec<char>) -> (r: Result<Option<Parsed>, String>)
    ensures
        source_break(t@, r),
{
    match parse_source_spec(t) {
        Ok(location) => Ok(Some(Parsed::Command(Command::AddBreakpoint { location, condition: None }))),
        Err(e) => Err(e),
    }
}

/// Reads the words after `break`.
pub fn parse_break(rest: &Vec<Vec<char>>) -> (r: Result<Option<Parsed>, String>)
    ensures
        break_parsed(views(rest@), r),
{
    let ghost rv = views(rest@);
    if rest.len() == 0 {
        return Err("usage: break <symbol> | break address 0x.. | break file f:line".to_owned());
    }
    assert(rv[0] == rest@[0]@);
    if rest.len() > 1 {
        assert(rv[1] == rest@[1]@);
    }
    let a = &rest[0];
    if is_word(a.as_slice(), "symbol") {
        if rest.len() > 1 {
            symbol_break(&rest[1])
        } else {
            Err("usage: break symbol <name>".to_owned())
        }
    } else if is_word(a.as_slice(), "address") {
        if rest.len() > 1 {
            address_break_of(&rest[1])
        } else {
            Err("usage: break address 0x..".to_owned())
        }
    } else if is_word(a.as_slice(), "file") {
        if rest.len() > 1 {
            source_break_of(&rest[1])
        } else {
            Err("usage: break file <path>:<line>".to_owned())
        }
    } else if starts_with_lit(a.as_slice(), "0x") {
        address_break_of(a)
    } else if contains_char(a.as_slice(), ':') {
        source_break_of(a)
    } else {
        symbol_break(a)
    }
}

/// Reads the words after `trace`: `start [path]` or `stop`.
pub fn parse_trace(rest: &Vec<Vec<char>>) -> (r: Result<Option<Parsed>, String>)
    ensures
        ({
            let rv = views(rest@);
            if rv.len() > 0 && rv[0] == "start"@ {
                r matches Ok(Some(Parsed::Ui(UiAction::TraceStart { path }))) && match path {
                    Some(p) => rv.len() > 1 && p@ == rv[1],
                    None => rv.len() <= 1,
                }
            } else if rv.len() > 0 && rv[0] == "stop"@ {
                r matches Ok(Some(Parsed::Ui(UiAction::TraceStop)))
            } else {
                r matches Err(e) && e@ == "usage: trace start [path] | trace stop"@
            }
        }),
{
    let ghost rv = views(rest@);
    if rest.len() > 0 {
        assert(rv[0] == rest@[0]@);
        if is_word(rest[0].as_slice(), "start") {
            let path = if rest.len() > 1 {
                assert(rv[1] == rest@[1]@);
                Some(string_of(rest[1].as_slice()))
            } else {
                None
            };
            return Ok(Some(Parsed::Ui(UiAction::TraceStart { path })));
        }
        if is_word(rest[0].as_slice(), "stop") {
            return Ok(Some(Parsed::Ui(UiAction::TraceStop)));
        }
    }
    Err("usage: trace start [path] | trace stop".to_owned())
}

fn join_from(ws: &Vec<Vec<char>>, from: usize) -> (r: Vec<char>)
    requires
        from <= ws@.len(),
    ensures
        r@ == join(views(ws@).skip(from as int), " "@),
{
    let mut out: Vec<char> = Vec::new();
    let mut i: usize = from;
    while i < ws.len()
        invariant
            from <= i <= ws@.len(),
            out@ == join(views(ws@).subrange(from as int, i as int), " "@),
        decreases ws@.len() - i,
    {
        let ghost before = out@;
        if i > from {
            out.push(' ');
        }
        push_chars(&mut out, ws[i].as_slice());
        proof {
            let parts = views(ws@).subrange(from as int, i + 1);
            assert(parts.drop_last() =~= views(ws@).subrange(from as int, i as int));
            assert(parts.last() == ws@[i as int]@);
            if i == from {
                assert(out@ =~= parts[0]);
            } else {
                assert(out@ =~= before + " "@ + parts.last()) by {
                    reveal_strlit(" ");
                }
            }
        }
        i = i + 1;
    }
    assert(views(ws@).subrange(from as int, ws@.len() as int) =~= views(ws@).skip(from as int));
    out
}

fn rest_of(ws: &Vec<Vec<char>>) -> (r: Vec<Vec<char>>)
    requires
        ws@.len() > 0,
    ensures
        views(r@) == views(ws@).skip(1),
{
    let mut out: Vec<Vec<char>> = Vec::new();
    let mut i: usize = 1;
    while i < ws.len()
        invariant
            1 <= i <= ws@.len(),
            views(out@) == views(ws@).subrange(1, i as int),
        decreases ws@.len() - i,
    {
        let w = slice_of(ws[i].as_slice(), 0, ws[i].len());
        assert(w@ =~= ws@[i as int]@);
        let ghost before = views(out@);
        out.push(w);
        assert(views(out@) =~= before.push(ws@[i as int]@));
        assert(views(ws@).subrange(1, i + 1) =~= views(ws@).subrange(1, i as int).push(ws@[i as int]@));
        i = i + 1;
    }
    assert(views(ws@).subrange(1, ws@.len() as int) =~= views(ws@).skip(1));
    out
}

/// Parses one palette command line; `Ok(None)` for a blank line.
pub fn parse(line: &str) -> (r: Result<Option<Parsed>, String>)
    ensures
        palette_parsed(line@, r),
{
    let c = chars_of(line);
    let t = trim_chars(c.as_slice());
    let ws = split_whitespace(t.as_slice());
    let ghost wv = views(ws@);
    if ws.len() == 0 {
        return Ok(None);
    }
    let cmd = &ws[0];
    assert(wv[0] == cmd@);
    let rest = rest_of(&ws);
    if is_word(cmd.as_slice(), "break") || is_word(cmd.as_slice(), "b") {
        parse_break(&rest)
    } else if is_word(cmd.as_slice(), "trace") {
        parse_trace(&rest)
    } else if is_word(cmd.as_slice(), "search") || is_word(cmd.as_slice(), "/") {
        let j = join_from(&ws, 1);
        Ok(Some(Parsed::Ui(UiAction::Search(string_of(j.as_slice())))))
    } else if is_word(cmd.as_slice(), "help") || is_word(cmd.as_slice(), "?") {
        let h = if ws.len() > 1 {
            assert(wv[1] == ws@[1]@);
            Some(string_of(ws[1].as_slice()))
        } else {
            None
        };
        Ok(Some(Parsed::Ui(UiAction::Help(h))))
    } else {
        match simple_of(cmd.as_slice(), &rest) {
            Some(Ok(p)) => Ok(Some(p)),
            Some(Err(e)) => Err(e),
            None => Err(text_with("unknown command: ", cmd.as_slice())),
        }
    }
}

/// The command names, in their listed order.
pub open spec fn command_names() -> Seq<Seq<char>> {
    seq!["continue"@, "pause"@, "step"@, "next"@, "finish"@, "step-instruction"@, "break"@, "delete-breakpoint"@,
        "thread"@, "frame"@, "memory"@, "goto"@, "trace"@, "layout"@, "search"@, "help"@, "quit"@]
}

/// The views of a list of names.
pub open spec fn str_views(v: Seq<&str>) -> Seq<Seq<char>> {
    v.map_values(|s: &str| s@)
}

fn command_name_list() -> (r: Vec<&'static str>)
    ensures
        str_views(r@) == command_names(),
{
    let mut v: Vec<&'static str> = Vec::new();
    v.push("continue");
    v.push("pause");
    v.push("step");
    v.push("next");
    v.push("finish");
    v.push("step-instruction");
    v.push("break");
    v.push("delete-breakpoint");
    v.push("thread");
    v.push("frame");
    v.push("memory");
    v.push("goto");
    v.push("trace");
    v.push("layout");
    v.push("search");
    v.push("help");
    v.push("quit");
    assert(str_views(v@) =~= command_names());
    v
}

/// `n` is a subsequence of `h` (its characters occur in `h` in order).
pub open spec fn is_subseq(n: Seq<char>, h: Seq<char>) -> bool
    decreases h.len(),
{
    if n.len() == 0 {
        true
    } else if h.len() == 0 {
        false
    } else if n[0] == h[0] {
        is_subseq(n.drop_first(), h.drop_first())
    } else {
        is_subseq(n, h.drop_first())
    }
}

pub fn is_subsequence(needle: &[char], haystack: &[char]) -> (r: bool)
    ensures
        r == is_subseq(needle@, haystack@),
{
    let mut i: usize = 0;
    let mut j: usize = 0;
    assert(needle@.skip(0) =~= needle@);
    assert(haystack@.skip(0) =~= haystack@);
    while j < haystack.len() && i < needle.len()
        invariant
            i <= needle@.len(),
            j <= haystack@.len(),
            is_subseq(needle@, haystack@) == is_subseq(needle@.skip(i as int), haystack@.skip(j as int)),
        decreases haystack@.len() - j,
    {
        proof {
            let n = needle@.skip(i as int);
            let h = haystack@.skip(j as int);
            assert(n[0] == needle@[i as int]);
            assert(h[0] == haystack@[j as int]);
            assert(n.drop_first() =~= needle@.skip(i + 1));
            assert(h.drop_first() =~= haystack@.skip(j + 1));
        }
        if needle[i] == haystack[j] {
            i = i + 1;
        }
        j = j + 1;
    }
    proof {
        assert(needle@.skip(0) =~= needle@);
        if i == needle@.len() {
            assert(needle@.skip(i as int).len() == 0);
        }
    }
    i == needle.len()
}

/// How well `name` matches `p`: 2 when it starts with it, 1 when it
/// contains it, 0 when it holds its characters in order.
pub open spec fn match_weight(name: Seq<char>, p: Seq<char>) -> Option<u64> {
    if starts(name, p) {
        Some(2)
    } else if occurs(name, p) {
        Some(1)
    } else if is_subseq(p, name) {
        Some(0)
    } else {
        None
    }
}

/// The matching names with their weights, in listed order.
pub open spec fn weighted(names: Seq<Seq<char>>, p: Seq<char>) -> Seq<(Seq<char>, u64)>
    decreases names.len(),
{
    if names.len() == 0 {
        Seq::empty()
    } else {
        let rest = weighted(names.drop_last(), p);
        match match_weight(names.last(), p) {
            Some(w) => rest.push((names.last(), w)),
            None => rest,
        }
    }
}

/// The first elements of a ranking.
pub open spec fn ranked_names(rk: Seq<(Seq<char>, u64)>) -> Seq<Seq<char>> {
    rk.map_values(|e: (Seq<char>, u64)| e.0)
}

pub open spec fn entry_views(v: Seq<(&str, u64)>) -> Seq<(Seq<char>, u64)> {
    v.map_values(|e: (&str, u64)| (e.0@, e.1))
}

fn entry_before(a: &(&'static str, u64), b: &(&'static str, u64)) -> (r: bool)
    ensures
        r == ranks_before((a.0@, a.1), (b.0@, b.1)),
{
    if a.1 != b.1 {
        return a.1 > b.1;
    }
    let x = chars_of(a.0);
    let y = chars_of(b.0);
    lex_less(x.as_slice(), y.as_slice())
}

fn rank_entries(items: &Vec<(&'static str, u64)>) -> (r: Vec<(&'static str, u64)>)
    ensures
        ranked_order(entry_views(r@)),
        entry_views(r@).to_multiset() == entry_views(items@).to_multiset(),
{
    broadcast use vstd::seq_lib::group_to_multiset_ensures;
    let mut out: Vec<(&'static str, u64)> = Vec::new();
    let mut i: usize = 0;
    while i < items.len()
        invariant
            i <= items@.len(),
            ranked_order(entry_views(out@)),
            entry_views(out@).to_multiset() == entry_views(items@).take(i as int).to_multiset(),
        decreases items@.len() - i,
    {
        let x = items[i];
        let ghost xv = (x.0@, x.1);
        let ghost before = entry_views(out@);
        let mut p: usize = 0;
        while p < out.len() && !entry_before(&x, &out[p])
            invariant
                p <= out@.len(),
                before == entry_views(out@),
                xv == (x.0@, x.1),
                forall|k: int| 0 <= k < p ==> !ranks_before(xv, #[trigger] before[k]),
            decreases out@.len() - p,
        {
            p = p + 1;
        }
        out.insert(p, x);
        proof {
            let after = entry_views(out@);
            assert(after =~= before.insert(p as int, xv));
            assert forall|a: int, b: int| 0 <= a < b < after.len()
                implies !ranks_before(#[trigger] after[b], #[trigger] after[a]) by {
                if b < p {
                    assert(after[a] == before[a] && after[b] == before[b]);
                } else if b == p {
                    assert(after[a] == before[a]);
                    lemma_ranks_before(xv, before[a], xv);
                } else if a < p {
                    assert(after[a] == before[a] && after[b] == before[b - 1]);
                } else if a == p {
                    assert(after[b] == before[b - 1]);
                    lemma_ranks_before(before[b - 1], xv, before[p as int]);
                    if b - 1 > p {
                        assert(!ranks_before(before[b - 1], before[p as int]));
                    }
                } else {
                    assert(after[a] == before[a - 1] && after[b] == before[b - 1]);
                }
            }
            assert(entry_views(items@).take(i + 1) =~= entry_views(items@).take(i as int).push(xv));
            vstd::seq_lib::to_multiset_insert(before, p as int, xv);
            vstd::seq_lib::to_multiset_build(entry_views(items@).take(i as int), xv);
            assert(entry_views(items@).take(i as int).push(xv).to_multiset()
                == entry_views(items@).take(i as int).to_multiset().insert(xv));
        }
        i = i + 1;
    }
    proof {
        assert(entry_views(items@).take(items@.len() as int) =~= entry_views(items@));
    }
    out
}

/// The command names that match what was typed (trimmed, lower-cased):
/// those it starts, then those that contain it, then those that hold its
/// characters in order, each group by name. All of them for nothing typed.
pub fn suggestions(prefix: &str) -> (r: Vec<&'static str>)
    ensures
        ({
            let p = lower_seq(trim(prefix@));
            &&& p.len() == 0 ==> str_views(r@) == command_names()
            &&& p.len() > 0 ==> exists|rk: Seq<(Seq<char>, u64)>| #[trigger] ranked_names(rk) == str_views(r@)
                && ranked_order(rk) && rk.to_multiset() == weighted(command_names(), p).to_multiset()
        }),
{
    let names = command_name_list();
    let c = chars_of(prefix);
    let t = trim_chars(c.as_slice());
    let p = lower_all(t.as_slice());
    if p.len() == 0 {
        return names;
    }
    let ghost nv = command_names();
    let mut items: Vec<(&'static str, u64)> = Vec::new();
    let mut i: usize = 0;
    while i < names.len()
        invariant
            i <= names@.len(),
            str_views(names@) == nv,
            nv == command_names(),
            entry_views(items@) == weighted(nv.take(i as int), p@),
        decreases names@.len() - i,
    {
        proof {
            assert(nv.take(i + 1).drop_last() =~= nv.take(i as int));
            assert(nv.take(i + 1).last() == names@[i as int]@);
        }
        let n = names[i];
        let nc = chars_of(n);
        let w: Option<u64> = if crate::text::starts_with(nc.as_slice(), p.as_slice()) {
            Some(2)
        } else if crate::text::contains(nc.as_slice(), p.as_slice()) {
            Some(1)
        } else if is_subsequence(p.as_slice(), nc.as_slice()) {
            Some(0)
        } else {
            None
        };
        match w {
            Some(k) => {
                let ghost before = entry_views(items@);
                items.push((n, k));
                assert(entry_views(items@) =~= before.push((n@, k)));
            },
            None => {},
        }
        i = i + 1;
    }
    proof {
        assert(nv.take(nv.len() as int) =~= nv);
    }
    let ranked = rank_entries(&items);
    let mut out: Vec<&'static str> = Vec::new();
    let mut k: usize = 0;
    while k < ranked.len()
        invariant
            k <= ranked@.len(),
            str_views(out@) == ranked_names(entry_views(ranked@)).take(k as int),
        decreases ranked@.len() - k,
    {
        let ghost before = str_views(out@);
        out.push(ranked[k].0);
        assert(str_views(out@) =~= before.push(ranked@[k as int].0@));
        assert(ranked_names(entry_views(ranked@))[k as int] == ranked@[k as int].0@);
        assert(str_views(out@) =~= ranked_names(entry_views(ranked@)).take(k + 1));
        k = k + 1;
    }
    assert(ranked_names(entry_views(ranked@)).take(ranked@.len() as int) =~= ranked_names(entry_views(ranked@)));
    out
}


/// The length and first letter of each palette word; no two of them agree
/// on both.
proof fn lemma_command_words()
    ensures
        "break"@.len() == 5 && "break"@[0] == 'b',
        "b"@.len() == 1 && "b"@[0] == 'b',
        "trace"@.len() == 5 && "trace"@[0] == 't',
        "search"@.len() == 6 && "search"@[0] == 's',
        "/"@.len() == 1 && "/"@[0] == '/',
        "help"@.len() == 4 && "help"@[0] == 'h',
        "?"@.len() == 1 && "?"@[0] == '?',
        "continue"@.len() == 8 && "continue"@[0] == 'c',
        "c"@.len() == 1 && "c"@[0] == 'c',
        "pause"@.len() == 5 && "pause"@[0] == 'p',
        "step"@.len() == 4 && "step"@[0] == 's',
        "s"@.len() == 1 && "s"@[0] == 's',
        "next"@.len() == 4 && "next"@[0] == 'n',
        "n"@.len() == 1 && "n"@[0] == 'n',
        "finish"@.len() == 6 && "finish"@[0] == 'f',
        "o"@.len() == 1 && "o"@[0] == 'o',
        "step-instruction"@.len() == 16 && "step-instruction"@[0] == 's',
        "si"@.len() == 2 && "si"@[0] == 's',
        "i"@.len() == 1 && "i"@[0] == 'i',
        "delete-breakpoint"@.len() == 17 && "delete-breakpoint"@[0] == 'd',
        "d"@.len() == 1 && "d"@[0] == 'd',
        "thread"@.len() == 6 && "thread"@[0] == 't',
        "frame"@.len() == 5 && "frame"@[0] == 'f',
        "memory"@.len() == 6 && "memory"@[0] == 'm',
        "mem"@.len() == 3 && "mem"@[0] == 'm',
        "x"@.len() == 1 && "x"@[0] == 'x',
        "goto"@.len() == 4 && "goto"@[0] == 'g',
        "g"@.len() == 1 && "g"@[0] == 'g',
        "layout"@.len() == 6 && "layout"@[0] == 'l',
        "quit"@.len() == 4 && "quit"@[0] == 'q',
        "q"@.len() == 1 && "q"@[0] == 'q',
        "exit"@.len() == 4 && "exit"@[0] == 'e',
        "mixed"@.len() == 5 && "mixed"@[0] == 'm',
        "source"@.len() == 6 && "source"@[0] == 's',
        "disassembly"@.len() == 11 && "disassembly"@[0] == 'd',
        "disasm"@.len() == 6 && "disasm"@[0] == 'd',
        "asm"@.len() == 3 && "asm"@[0] == 'a',
{
    reveal_strlit("break");
    reveal_strlit("b");
    reveal_strlit("trace");
    reveal_strlit("search");
    reveal_strlit("/");
    reveal_strlit("help");
    reveal_strlit("?");
    reveal_strlit("continue");
    reveal_strlit("c");
    reveal_strlit("pause");
    reveal_strlit("step");
    reveal_strlit("s");
    reveal_strlit("next");
    reveal_strlit("n");
    reveal_strlit("finish");
    reveal_strlit("o");
    reveal_strlit("step-instruction");
    reveal_strlit("si");
    reveal_strlit("i");
    reveal_strlit("delete-breakpoint");
    reveal_strlit("d");
    reveal_strlit("thread");
    reveal_strlit("frame");
    reveal_strlit("memory");
    reveal_strlit("mem");
    reveal_strlit("x");
    reveal_strlit("goto");
    reveal_strlit("g");
    reveal_strlit("layout");
    reveal_strlit("quit");
    reveal_strlit("q");
    reveal_strlit("exit");
    reveal_strlit("mixed");
    reveal_strlit("source");
    reveal_strlit("disassembly");
    reveal_strlit("disasm");
    reveal_strlit("asm");
}

/// Whatever surrounds it, a line whose first word is an execution command
/// parses to that command: `continue`/`c` continue, `pause` pauses, and the
/// four step commands give four distinct step kinds: `step`/`s` into,
/// `next`/`n` over, `finish`/`o` out, `step-instruction`/`si`/`i` one
/// instruction. `quit`/`q`/`exit` quit the interface.
pub proof fn lemma_palette_execution_commands(line: Seq<char>, r: Result<Option<Parsed>, String>)
    requires
        palette_parsed(line, r),
    ensures
        ({
            let ws = words(trim(line));
            &&& ws.len() > 0 && (ws[0] == "continue"@ || ws[0] == "c"@)
                ==> r == Ok::<Option<Parsed>, String>(Some(Parsed::Command(Command::Continue)))
            &&& ws.len() > 0 && ws[0] == "pause"@
                ==> r == Ok::<Option<Parsed>, String>(Some(Parsed::Command(Command::Pause)))
            &&& ws.len() > 0 && (ws[0] == "step"@ || ws[0] == "s"@)
                ==> r == Ok::<Option<Parsed>, String>(Some(Parsed::Command(Command::Step(StepKind::Into))))
            &&& ws.len() > 0 && (ws[0] == "next"@ || ws[0] == "n"@)
                ==> r == Ok::<Option<Parsed>, String>(Some(Parsed::Command(Command::Step(StepKind::Over))))
            &&& ws.len() > 0 && (ws[0] == "finish"@ || ws[0] == "o"@)
                ==> r == Ok::<Option<Parsed>, String>(Some(Parsed::Command(Command::Step(StepKind::Out))))
            &&& ws.len() > 0 && (ws[0] == "step-instruction"@ || ws[0] == "si"@ || ws[0] == "i"@)
                ==> r == Ok::<Option<Parsed>, String>(Some(Parsed::Command(Command::Step(StepKind::Instruction))))
            &&& ws.len() > 0 && (ws[0] == "quit"@ || ws[0] == "q"@ || ws[0] == "exit"@)
                ==> r == Ok::<Option<Parsed>, String>(Some(Parsed::Ui(UiAction::Quit)))
        }),
{
    lemma_command_words();
}

/// A line `thread N`, `frame N` or `delete-breakpoint N` (`d N`) with a
/// decimal `N` selects that thread or frame, or removes that breakpoint;
/// `goto A` (`g A`) runs to the address `A`; `memory A` (`mem`, `x`) shows
/// 128 bytes at `A`; `layout` alone or `layout mixed` picks the mixed
/// layout, `layout source` the source one and `layout disassembly`
/// (`disasm`, `asm`) the disassembly one.
pub proof fn lemma_palette_selections(line: Seq<char>, r: Result<Option<Parsed>, String>)
    requires
        palette_parsed(line, r),
    ensures
        ({
            let ws = words(trim(line));
            let n = parse_uint(ws[1], 10, u64::MAX as nat);
            let a = palette_address(ws[1]);
            &&& ws.len() > 1 && ws[0] == "thread"@ && n is Some
                ==> r == Ok::<Option<Parsed>, String>(Some(Parsed::Command(Command::SelectThread(ThreadId(n->0 as u64)))))
            &&& ws.len() > 1 && ws[0] == "frame"@ && n is Some
                ==> r == Ok::<Option<Parsed>, String>(Some(Parsed::Command(Command::SelectFrame(FrameId(n->0 as u64)))))
            &&& ws.len() > 1 && (ws[0] == "delete-breakpoint"@ || ws[0] == "d"@) && n is Some
                ==> r == Ok::<Option<Parsed>, String>(
                    Some(Parsed::Command(Command::RemoveBreakpoint(BreakpointId(n->0 as u64)))),
                )
            &&& ws.len() > 1 && (ws[0] == "goto"@ || ws[0] == "g"@) && a is Some
                ==> r == Ok::<Option<Parsed>, String>(
                    Some(Parsed::Command(Command::RunTo(RunTarget::Address(Address(a->0 as u64))))),
                )
            &&& ws.len() == 2 && (ws[0] == "memory"@ || ws[0] == "mem"@ || ws[0] == "x"@) && a is Some
                ==> r == Ok::<Option<Parsed>, String>(
                    Some(Parsed::Ui(UiAction::ShowMemory { addr: Address(a->0 as u64), len: 128 })),
                )
            &&& ws.len() > 0 && ws[0] == "layout"@ && (ws.len() == 1 || ws[1] == "mixed"@)
                ==> r == Ok::<Option<Parsed>, String>(Some(Parsed::Ui(UiAction::Layout(LayoutMode::Mixed))))
            &&& ws.len() > 1 && ws[0] == "layout"@ && ws[1] == "source"@
                ==> r == Ok::<Option<Parsed>, String>(Some(Parsed::Ui(UiAction::Layout(LayoutMode::Source))))
            &&& ws.len() > 1 && ws[0] == "layout"@ && (ws[1] == "disassembly"@ || ws[1] == "disasm"@ || ws[1] == "asm"@)
                ==> r == Ok::<Option<Parsed>, String>(Some(Parsed::Ui(UiAction::Layout(LayoutMode::Disassembly))))
        }),
{
    lemma_command_words();
    let ws = words(trim(line));
    if ws.len() > 1 {
        assert(ws.skip(1)[0] == ws[1]);
    }
}

} // verus!
