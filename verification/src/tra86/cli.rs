//! The tracer's command line: how a typed line splits into words, how the
//! words become a command, and how the answers are laid out.
use vstd::prelude::*;
use crate::analysis::analyzers::string_views;
use crate::num::{parse_radix, parse_uint, lemma_parse_uint_bound};
use crate::text::{chars_of, is_whitespace, is_ws, is_word, push_chars, starts, starts_with_lit, string_of, trim, trim_chars, slice_of};
use crate::tra86::model::TargetBinary;

verus! {

/// The tokenizer's state after some characters: the finished words, the word
/// being read, the open quote, and whether the next character is escaped.
pub open spec fn tok_step(
    st: (Seq<Seq<char>>, Seq<char>, Option<char>, bool),
    ch: char,
) -> (Seq<Seq<char>>, Seq<char>, Option<char>, bool) {
    let (toks, cur, quote, esc) = st;
    if esc {
        (toks, cur.push(ch), quote, false)
    } else {
        match quote {
            Some(q) => if ch == q {
                (toks, cur, None, false)
            } else if ch == '\\' {
                (toks, cur, quote, true)
            } else {
                (toks, cur.push(ch), quote, false)
            },
            None => if ch == '"' || ch == '\'' {
                (toks, cur, Some(ch), false)
            } else if is_ws(ch) {
                if cur.len() > 0 {
                    (toks.push(cur), Seq::empty(), None, false)
                } else {
                    st
                }
            } else if ch == '\\' {
                (toks, cur, None, true)
            } else {
                (toks, cur.push(ch), None, false)
            },
        }
    }
}

pub open spec fn tok_run(s: Seq<char>) -> (Seq<Seq<char>>, Seq<char>, Option<char>, bool)
    decreases s.len(),
{
    if s.len() == 0 {
        (Seq::empty(), Seq::empty(), None, false)
    } else {
        tok_step(tok_run(s.drop_last()), s.last())
    }
}

/// The words of a line: split at unquoted whitespace; single or double
/// quotes group, a backslash takes the next character as it is. `None` when
/// a quote is left open.
pub open spec fn tokens_of(s: Seq<char>) -> Option<Seq<Seq<char>>> {
    let (toks, cur, quote, _) = tok_run(s);
    if quote is Some {
        None
    } else if cur.len() > 0 {
        Some(toks.push(cur))
    } else {
        Some(toks)
    }
}

/// Splits a command line into words.
pub fn tokenize(input: &str) -> (r: Result<Vec<String>, String>)
    ensures
        match tokens_of(input@) {
            Some(t) => r matches Ok(v) && string_views(v@) == t,
            None => r matches Err(e) && e@ == "unterminated quoted string"@,
        },
{
    let cs = chars_of(input);
    let mut tokens: Vec<String> = Vec::new();
    let mut current: Vec<char> = Vec::new();
    let mut quote: Option<char> = None;
    let mut escaped = false;
    let mut i: usize = 0;
    while i < cs.len()
        invariant
            i <= cs@.len(),
            cs@ == input@,
            (string_views(tokens@), current@, quote, escaped) == tok_run(cs@.take(i as int)),
        decreases cs@.len() - i,
    {
        let ch = cs[i];
        proof {
            assert(cs@.take(i + 1).drop_last() =~= cs@.take(i as int));
            assert(cs@.take(i + 1).last() == ch);
        }
        if escaped {
            current.push(ch);
            escaped = false;
        } else {
            match quote {
                Some(q) => {
                    if ch == q {
                        quote = None;
                    } else if ch == '\\' {
                        escaped = true;
                    } else {
                        current.push(ch);
                    }
                },
                None => {
                    if ch == '"' || ch == '\'' {
                        quote = Some(ch);
                    } else if is_whitespace(ch) {
                        if current.len() > 0 {
                            let word = string_of(current.as_slice());
                            let ghost before = string_views(tokens@);
                            tokens.push(word);
                            assert(string_views(tokens@) =~= before.push(current@));
                            current = Vec::new();
                        }
                    } else if ch == '\\' {
                        escaped = true;
                    } else {
                        current.push(ch);
                    }
                },
            }
        }
        i = i + 1;
    }
    proof {
        assert(cs@.take(cs@.len() as int) =~= cs@);
    }
    if quote.is_some() {
        return Err("unterminated quoted string".to_owned());
    }
    if current.len() > 0 {
        let word = string_of(current.as_slice());
        let ghost before = string_views(tokens@);
        tokens.push(word);
        assert(string_views(tokens@) =~= before.push(current@));
    }
    Ok(tokens)
}

/// Whether a trimmed address starts with `0x` or `0X`.
pub open spec fn hex_prefixed(t: Seq<char>) -> bool {
    starts(t, "0x"@) || starts(t, "0X"@)
}

/// The address a person typed: trimmed, hexadecimal after `0x` or `0X`,
/// else decimal.
pub open spec fn cli_address(s: Seq<char>) -> Option<nat> {
    let t = trim(s);
    if hex_prefixed(t) {
        parse_uint(t.skip(2), 16, u64::MAX as nat)
    } else {
        parse_uint(t, 10, u64::MAX as nat)
    }
}

/// Why an address was refused.
pub open spec fn cli_address_error(s: Seq<char>) -> Seq<char> {
    if hex_prefixed(trim(s)) {
        "address must be valid hex"@
    } else {
        "address must be valid integer"@
    }
}

/// Reads an address.
pub fn parse_address(input: &str) -> (r: Result<u64, String>)
    ensures
        match cli_address(input@) {
            Some(v) => r matches Ok(x) && x == v,
            None => r matches Err(e) && e@ == cli_address_error(input@),
        },
{
    proof {
        reveal_strlit("0x");
        reveal_strlit("0X");
    }
    let cs = chars_of(input);
    let t = trim_chars(cs.as_slice());
    if starts_with_lit(t.as_slice(), "0x") || starts_with_lit(t.as_slice(), "0X") {
        let rest = slice_of(t.as_slice(), 2, t.len());
        assert(rest@ =~= t@.skip(2)) by {
            reveal_strlit("0x");
            reveal_strlit("0X");
        }
        proof {
            lemma_parse_uint_bound(rest@, 16, u64::MAX as nat);
        }
        match parse_radix(rest.as_slice(), 16, u64::MAX) {
            Some(v) => Ok(v),
            None => Err("address must be valid hex".to_owned()),
        }
    } else {
        proof {
            lemma_parse_uint_bound(t@, 10, u64::MAX as nat);
        }
        match parse_radix(t.as_slice(), 10, u64::MAX) {
            Some(v) => Ok(v),
            None => Err("address must be valid integer".to_owned()),
        }
    }
}

/// The index of the first `w` in `toks` from `i` on.
pub open spec fn first_index_from(toks: Seq<Seq<char>>, w: Seq<char>, i: int) -> Option<int>
    decreases toks.len() - i,
{
    if i < 0 || i >= toks.len() {
        None
    } else if toks[i] == w {
        Some(i)
    } else {
        first_index_from(toks, w, i + 1)
    }
}

/// The program and its arguments: the first word, then what follows the
/// first `--` if there is one, else the other words.
pub open spec fn program_and_args(toks: Seq<Seq<char>>) -> Option<(Seq<char>, Seq<Seq<char>>)> {
    if toks.len() == 0 {
        None
    } else {
        match first_index_from(toks, "--"@, 0) {
            Some(k) => Some((toks[0], toks.skip(k + 1))),
            None => Some((toks[0], toks.skip(1))),
        }
    }
}

fn dup_strings(v: &[String], from: usize) -> (r: Vec<String>)
    requires
        from <= v@.len(),
    ensures
        string_views(r@) == string_views(v@).skip(from as int),
{
    let mut out: Vec<String> = Vec::new();
    let mut i: usize = from;
    while i < v.len()
        invariant
            from <= i <= v@.len(),
            string_views(out@) == string_views(v@).subrange(from as int, i as int),
        decreases v@.len() - i,
    {
        let ghost before = string_views(out@);
        out.push(v[i].clone());
        proof {
            assert(string_views(out@) =~= before.push(v@[i as int]@));
            assert(string_views(out@) =~= string_views(v@).subrange(from as int, i + 1));
        }
        i = i + 1;
    }
    proof {
        assert(string_views(v@).subrange(from as int, v@.len() as int) =~= string_views(v@).skip(from as int));
    }
    out
}

/// Splits `program [-- args...]`.
pub fn parse_program_and_args(tokens: &[String]) -> (r: Result<(String, Vec<String>), String>)
    ensures
        match program_and_args(string_views(tokens@)) {
            Some((p, rest)) => r matches Ok((x, v)) && x@ == p && string_views(v@) == rest,
            None => r matches Err(e) && e@ == "usage: launch <program> [-- args...]"@,
        },
{
    let ghost toks = string_views(tokens@);
    if tokens.len() == 0 {
        return Err("usage: launch <program> [-- args...]".to_owned());
    }
    let mut i: usize = 0;
    while i < tokens.len()
        invariant
            i <= tokens@.len(),
            toks == string_views(tokens@),
            first_index_from(toks, "--"@, 0) == first_index_from(toks, "--"@, i as int),
        decreases tokens@.len() - i,
    {
        let w = chars_of(tokens[i].as_str());
        if is_word(w.as_slice(), "--") {
            return Ok((tokens[0].clone(), dup_strings(tokens, i + 1)));
        }
        i = i + 1;
    }
    Ok((tokens[0].clone(), dup_strings(tokens, 1)))
}

/// The word at `index`, or `usage` as the error.
pub fn require_arg<'a>(tokens: &'a [String], index: usize, usage: &str) -> (r: Result<&'a str, String>)
    ensures
        index < tokens@.len() ==> (r matches Ok(s) && s@ == tokens@[index as int]@),
        index >= tokens@.len() ==> (r matches Err(e) && e@ == usage@),
{
    if index < tokens.len() {
        Ok(tokens[index].as_str())
    } else {
        Err(usage.to_owned())
    }
}

/// What the command line was started with.
#[derive(Debug)]
pub enum StartupAction {
    NoAction,
    Help,
    Open(String),
    Launch(TargetBinary),
    Attach(u32),
}

/// A launch of `program` with `args` and nothing else set.
pub open spec fn launches(t: TargetBinary, pa: (Seq<char>, Seq<Seq<char>>)) -> bool {
    &&& t.program@ == pa.0
    &&& string_views(t.args@) == pa.1
    &&& t.cwd is None
    &&& t.env@.len() == 0
}

/// The startup words' meaning, given as a check of the result `r`.
pub open spec fn startup_parsed(args: Seq<Seq<char>>, r: Result<StartupAction, String>) -> bool {
    if args.len() == 0 {
        r matches Ok(StartupAction::NoAction)
    } else {
        let a0 = args[0];
        if a0 == "help"@ || a0 == "--help"@ || a0 == "-h"@ {
            r matches Ok(StartupAction::Help)
        } else if a0 == "open"@ {
            if args.len() > 1 {
                r matches Ok(StartupAction::Open(p)) && p@ == args[1]
            } else {
                r matches Err(e) && e@ == "usage: tra86_cli open <program>"@
            }
        } else if a0 == "launch"@ {
            match program_and_args(args.skip(1)) {
                Some(pa) => r matches Ok(StartupAction::Launch(t)) && launches(t, pa),
                None => r matches Err(e) && e@ == "usage: launch <program> [-- args...]"@,
            }
        } else if a0 == "attach"@ {
            if args.len() > 1 {
                match parse_uint(args[1], 10, u32::MAX as nat) {
                    Some(v) => r matches Ok(StartupAction::Attach(pid)) && pid == v,
                    None => r matches Err(e) && e@ == "attach pid must be an integer"@,
                }
            } else {
                r matches Err(e) && e@ == "usage: tra86_cli attach <pid>"@
            }
        } else {
            r matches Err(e) && e@ == "unknown startup command `"@ + a0 + "`\ntry `tra86_cli --help` for usage"@
        }
    }
}

fn parse_u32(s: &str) -> (r: Option<u32>)
    ensures
        match parse_uint(s@, 10, u32::MAX as nat) {
            Some(v) => r == Some(v as u32),
            None => r is None,
        },
{
    let c = chars_of(s);
    proof {
        lemma_parse_uint_bound(c@, 10, u32::MAX as nat);
    }
    match parse_radix(c.as_slice(), 10, u32::MAX as u64) {
        Some(v) => {
            assert(v <= u32::MAX);
            Some(v as u32)
        },
        None => None,
    }
}

impl StartupAction {
    /// Reads the words the command line was started with.
    pub fn parse(args: Vec<String>) -> (r: Result<StartupAction, String>)
        ensures
            startup_parsed(string_views(args@), r),
    {
        let ghost a = string_views(args@);
        if args.len() == 0 {
            return Ok(StartupAction::NoAction);
        }
        let w = chars_of(args[0].as_str());
        assert(a[0] == args@[0]@);
        let r = if is_word(w.as_slice(), "help") || is_word(w.as_slice(), "--help") || is_word(w.as_slice(), "-h") {
            Ok(StartupAction::Help)
        } else if is_word(w.as_slice(), "open") {
            if args.len() > 1 {
                assert(a[1] == args@[1]@);
                Ok(StartupAction::Open(args[1].clone()))
            } else {
                Err("usage: tra86_cli open <program>".to_owned())
            }
        } else if is_word(w.as_slice(), "launch") {
            let rest = dup_strings(args.as_slice(), 1);
            assert(string_views(rest@) == a.skip(1));
            match parse_program_and_args(rest.as_slice()) {
                Ok((program, pargs)) => Ok(StartupAction::Launch(TargetBinary {
                    program,
                    args: pargs,
                    cwd: None,
                    env: Vec::new(),
                })),
                Err(e) => Err(e),
            }
        } else if is_word(w.as_slice(), "attach") {
            if args.len() > 1 {
                assert(a[1] == args@[1]@);
                proof {
                    lemma_parse_uint_bound(a[1], 10, u32::MAX as nat);
                }
                match parse_u32(args[1].as_str()) {
                    Some(pid) => Ok(StartupAction::Attach(pid)),
                    None => Err("attach pid must be an integer".to_owned()),
                }
            } else {
                Err("usage: tra86_cli attach <pid>".to_owned())
            }
        } else {
            let mut m = chars_of("unknown startup command `");
            push_chars(&mut m, w.as_slice());
            let tail = chars_of("`\ntry `tra86_cli --help` for usage");
            push_chars(&mut m, tail.as_slice());
            assert(m@ == "unknown startup command `"@ + a[0] + "`\ntry `tra86_cli --help` for usage"@);
            Err(string_of(m.as_slice()))
        };
        r
    }
}

/// A command typed at the prompt.
#[derive(Debug, PartialEq, Eq)]
pub enum CliCommand {
    Help,
    Open(String),
    Launch(TargetBinary),
    Attach(u32),
    Continue,
    Pause,
    StepInto,
    StepOver,
    StepOut,
    Threads,
    Frames(Option<u64>),
    Registers(Option<u64>),
    Disassemble(usize, Option<u64>),
    Memory(u64, usize),
    Break(u64),
    Delete(u64),
    Breakpoints,
    Symbols(u64),
    Source(u64),
    Status,
    Refresh,
    Detach,
    Kill,
    Quit,
}

/// The commands that take no argument.
pub open spec fn unit_command(w: Seq<char>) -> Option<CliCommand> {
    if w == "help"@ {
        Some(CliCommand::Help)
    } else if w == "continue"@ || w == "c"@ {
        Some(CliCommand::Continue)
    } else if w == "pause"@ {
        Some(CliCommand::Pause)
    } else if w == "step"@ || w == "si"@ {
        Some(CliCommand::StepInto)
    } else if w == "next"@ || w == "n"@ {
        Some(CliCommand::StepOver)
    } else if w == "finish"@ || w == "out"@ {
        Some(CliCommand::StepOut)
    } else if w == "threads"@ {
        Some(CliCommand::Threads)
    } else if w == "breakpoints"@ || w == "bp"@ {
        Some(CliCommand::Breakpoints)
    } else if w == "status"@ {
        Some(CliCommand::Status)
    } else if w == "refresh"@ {
        Some(CliCommand::Refresh)
    } else if w == "detach"@ {
        Some(CliCommand::Detach)
    } else if w == "kill"@ || w == "stop"@ {
        Some(CliCommand::Kill)
    } else if w == "quit"@ || w == "exit"@ {
        Some(CliCommand::Quit)
    } else {
        None
    }
}

/// The optional thread number of `frames` and `regs`.
pub open spec fn thread_arg(toks: Seq<Seq<char>>) -> Result<Option<u64>, Seq<char>> {
    if toks.len() > 1 {
        match parse_uint(toks[1], 10, u64::MAX as nat) {
            Some(v) => Ok(Some(v as u64)),
            None => Err("thread id must be an integer"@),
        }
    } else {
        Ok(None)
    }
}

/// An address argument at `i`, required under `usage`.
pub open spec fn address_arg(toks: Seq<Seq<char>>, i: int, usage: Seq<char>) -> Result<u64, Seq<char>> {
    if toks.len() > i {
        match cli_address(toks[i]) {
            Some(a) => Ok(a as u64),
            None => Err(cli_address_error(toks[i])),
        }
    } else {
        Err(usage)
    }
}

/// `disasm [count] [addr]`: sixteen lines by default.
pub open spec fn disasm_command(toks: Seq<Seq<char>>) -> Result<CliCommand, Seq<char>> {
    let count: Option<nat> = if toks.len() > 1 {
        parse_uint(toks[1], 10, usize::MAX as nat)
    } else {
        Some(16)
    };
    match count {
        None => Err("disasm count must be an integer"@),
        Some(n) => if toks.len() > 2 {
            match cli_address(toks[2]) {
                Some(a) => Ok(CliCommand::Disassemble(n as usize, Some(a as u64))),
                None => Err(cli_address_error(toks[2])),
            }
        } else {
            Ok(CliCommand::Disassemble(n as usize, None))
        },
    }
}

/// `mem <addr> [len]`: 64 bytes by default.
pub open spec fn mem_command(toks: Seq<Seq<char>>) -> Result<CliCommand, Seq<char>> {
    match address_arg(toks, 1, "usage: mem <addr> [len]"@) {
        Err(m) => Err(m),
        Ok(a) => if toks.len() > 2 {
            match parse_uint(toks[2], 10, usize::MAX as nat) {
                Some(n) => Ok(CliCommand::Memory(a, n as usize)),
                None => Err("memory length must be an integer"@),
            }
        } else {
            Ok(CliCommand::Memory(a, 64))
        },
    }
}

/// The commands that take arguments other than a program.
pub open spec fn arg_command(toks: Seq<Seq<char>>) -> Option<Result<CliCommand, Seq<char>>> {
    let w = toks[0];
    if w == "attach"@ {
        Some(if toks.len() > 1 {
            match parse_uint(toks[1], 10, u32::MAX as nat) {
                Some(v) => Ok(CliCommand::Attach(v as u32)),
                None => Err("attach pid must be an integer"@),
            }
        } else {
            Err("usage: attach <pid>"@)
        })
    } else if w == "frames"@ {
        Some(match thread_arg(toks) {
            Ok(t) => Ok(CliCommand::Frames(t)),
            Err(m) => Err(m),
        })
    } else if w == "regs"@ || w == "registers"@ {
        Some(match thread_arg(toks) {
            Ok(t) => Ok(CliCommand::Registers(t)),
            Err(m) => Err(m),
        })
    } else if w == "disasm"@ {
        Some(disasm_command(toks))
    } else if w == "mem"@ || w == "memory"@ {
        Some(mem_command(toks))
    } else if w == "break"@ || w == "b"@ {
        Some(match address_arg(toks, 1, "usage: break <addr>"@) {
            Ok(a) => Ok(CliCommand::Break(a)),
            Err(m) => Err(m),
        })
    } else if w == "delete"@ {
        Some(if toks.len() > 1 {
            match parse_uint(toks[1], 10, u64::MAX as nat) {
                Some(v) => Ok(CliCommand::Delete(v as u64)),
                None => Err("breakpoint id must be an integer"@),
            }
        } else {
            Err("usage: delete <breakpoint-id>"@)
        })
    } else if w == "symbols"@ || w == "symbol"@ {
        Some(match address_arg(toks, 1, "usage: symbols <addr>"@) {
            Ok(a) => Ok(CliCommand::Symbols(a)),
            Err(m) => Err(m),
        })
    } else if w == "source"@ {
        Some(match address_arg(toks, 1, "usage: source <addr>"@) {
            Ok(a) => Ok(CliCommand::Source(a)),
            Err(m) => Err(m),
        })
    } else {
        None
    }
}

/// The meaning of the words of a prompt line, as a check of the result `r`:
/// nothing for no words, else the command, or why it was refused.
pub open spec fn line_parsed(toks: Seq<Seq<char>>, r: Result<Option<CliCommand>, String>) -> bool {
    if toks.len() == 0 {
        r matches Ok(None)
    } else {
        let w = toks[0];
        if w == "open"@ {
            if toks.len() > 1 {
                r matches Ok(Some(CliCommand::Open(p))) && p@ == toks[1]
            } else {
                r matches Err(e) && e@ == "usage: open <program>"@
            }
        } else if w == "launch"@ {
            match program_and_args(toks.skip(1)) {
                Some(pa) => r matches Ok(Some(CliCommand::Launch(t))) && launches(t, pa),
                None => r matches Err(e) && e@ == "usage: launch <program> [-- args...]"@,
            }
        } else {
            match unit_command(w) {
                Some(c) => r matches Ok(Some(x)) && x == c,
                None => match arg_command(toks) {
                    Some(Ok(c)) => r matches Ok(Some(x)) && x == c,
                    Some(Err(m)) => r matches Err(e) && e@ == m,
                    None => r matches Err(e) && e@ == "unknown command `"@ + w + "`; try `help`"@,
                },
            }
        }
    }
}

fn unit_of(w: &[char]) -> (r: Option<CliCommand>)
    ensures
        r == unit_command(w@),
{
    if is_word(w, "help") {
        Some(CliCommand::Help)
    } else if is_word(w, "continue") || is_word(w, "c") {
        Some(CliCommand::Continue)
    } else if is_word(w, "pause") {
        Some(CliCommand::Pause)
    } else if is_word(w, "step") || is_word(w, "si") {
        Some(CliCommand::StepInto)
    } else if is_word(w, "next") || is_word(w, "n") {
        Some(CliCommand::StepOver)
    } else if is_word(w, "finish") || is_word(w, "out") {
        Some(CliCommand::StepOut)
    } else if is_word(w, "threads") {
        Some(CliCommand::Threads)
    } else if is_word(w, "breakpoints") || is_word(w, "bp") {
        Some(CliCommand::Breakpoints)
    } else if is_word(w, "status") {
        Some(CliCommand::Status)
    } else if is_word(w, "refresh") {
        Some(CliCommand::Refresh)
    } else if is_word(w, "detach") {
        Some(CliCommand::Detach)
    } else if is_word(w, "kill") || is_word(w, "stop") {
        Some(CliCommand::Kill)
    } else if is_word(w, "quit") || is_word(w, "exit") {
        Some(CliCommand::Quit)
    } else {
        None
    }
}

fn parse_number(s: &str, max: u64) -> (r: Option<u64>)
    ensures
        match parse_uint(s@, 10, max as nat) {
            Some(v) => r == Some(v as u64),
            None => r is None,
        },
        r matches Some(v) ==> v <= max,
{
    let c = chars_of(s);
    proof {
        lemma_parse_uint_bound(c@, 10, max as nat);
    }
    parse_radix(c.as_slice(), 10, max)
}

fn thread_arg_of(tokens: &Vec<String>) -> (r: Result<Option<u64>, String>)
    ensures
        match thread_arg(string_views(tokens@)) {
            Ok(t) => r matches Ok(x) && x == t,
            Err(m) => r matches Err(e) && e@ == m,
        },
{
    if tokens.len() > 1 {
        assert(string_views(tokens@)[1] == tokens@[1]@);
        proof {
            lemma_parse_uint_bound(tokens@[1]@, 10, u64::MAX as nat);
        }
        match parse_number(tokens[1].as_str(), u64::MAX) {
            Some(v) => Ok(Some(v)),
            None => Err("thread id must be an integer".to_owned()),
        }
    } else {
        Ok(None)
    }
}

fn address_arg_of(tokens: &Vec<String>, i: usize, usage: &str) -> (r: Result<u64, String>)
    ensures
        match address_arg(string_views(tokens@), i as int, usage@) {
            Ok(a) => r matches Ok(x) && x == a,
            Err(m) => r matches Err(e) && e@ == m,
        },
{
    if tokens.len() > i {
        assert(string_views(tokens@)[i as int] == tokens@[i as int]@);
        parse_address(tokens[i].as_str())
    } else {
        Err(usage.to_owned())
    }
}

fn disasm_of(tokens: &Vec<String>) -> (r: Result<CliCommand, String>)
    ensures
        match disasm_command(string_views(tokens@)) {
            Ok(c) => r matches Ok(x) && x == c,
            Err(m) => r matches Err(e) && e@ == m,
        },
{
    let count: usize = if tokens.len() > 1 {
        assert(string_views(tokens@)[1] == tokens@[1]@);
        proof {
            lemma_parse_uint_bound(tokens@[1]@, 10, usize::MAX as nat);
        }
        match parse_number(tokens[1].as_str(), usize::MAX as u64) {
            Some(v) => v as usize,
            None => {
                return Err("disasm count must be an integer".to_owned());
            },
        }
    } else {
        16
    };
    if tokens.len() > 2 {
        assert(string_views(tokens@)[2] == tokens@[2]@);
        match parse_address(tokens[2].as_str()) {
            Ok(a) => Ok(CliCommand::Disassemble(count, Some(a))),
            Err(e) => Err(e),
        }
    } else {
        Ok(CliCommand::Disassemble(count, None))
    }
}

fn mem_of(tokens: &Vec<String>) -> (r: Result<CliCommand, String>)
    ensures
        match mem_command(string_views(tokens@)) {
            Ok(c) => r matches Ok(x) && x == c,
            Err(m) => r matches Err(e) && e@ == m,
        },
{
    let address = match address_arg_of(tokens, 1, "usage: mem <addr> [len]") {
        Ok(a) => a,
        Err(e) => {
            return Err(e);
        },
    };
    if tokens.len() > 2 {
        assert(string_views(tokens@)[2] == tokens@[2]@);
        proof {
            lemma_parse_uint_bound(tokens@[2]@, 10, usize::MAX as nat);
        }
        match parse_number(tokens[2].as_str(), usize::MAX as u64) {
            Some(n) => Ok(CliCommand::Memory(address, n as usize)),
            None => Err("memory length must be an integer".to_owned()),
        }
    } else {
        Ok(CliCommand::Memory(address, 64))
    }
}

fn arg_of(tokens: &Vec<String>, w: &[char]) -> (r: Option<Result<CliCommand, String>>)
    requires
        tokens@.len() > 0,
        w@ == tokens@[0]@,
    ensures
        match arg_command(string_views(tokens@)) {
            None => r is None,
            Some(Ok(c)) => r matches Some(Ok(x)) && x == c,
            Some(Err(m)) => r matches Some(Err(e)) && e@ == m,
        },
{
    assert(string_views(tokens@)[0] == w@);
    if is_word(w, "attach") {
        Some(if tokens.len() > 1 {
            assert(string_views(tokens@)[1] == tokens@[1]@);
            proof {
                lemma_parse_uint_bound(tokens@[1]@, 10, u32::MAX as nat);
            }
            match parse_number(tokens[1].as_str(), u32::MAX as u64) {
                Some(v) => Ok(CliCommand::Attach(v as u32)),
                None => Err("attach pid must be an integer".to_owned()),
            }
        } else {
            Err("usage: attach <pid>".to_owned())
        })
    } else if is_word(w, "frames") {
        Some(match thread_arg_of(tokens) {
            Ok(t) => Ok(CliCommand::Frames(t)),
            Err(e) => Err(e),
        })
    } else if is_word(w, "regs") || is_word(w, "registers") {
        Some(match thread_arg_of(tokens) {
            Ok(t) => Ok(CliCommand::Registers(t)),
            Err(e) => Err(e),
        })
    } else if is_word(w, "disasm") {
        Some(disasm_of(tokens))
    } else if is_word(w, "mem") || is_word(w, "memory") {
        Some(mem_of(tokens))
    } else if is_word(w, "break") || is_word(w, "b") {
        Some(match address_arg_of(tokens, 1, "usage: break <addr>") {
            Ok(a) => Ok(CliCommand::Break(a)),
            Err(e) => Err(e),
        })
    } else if is_word(w, "delete") {
        Some(if tokens.len() > 1 {
            assert(string_views(tokens@)[1] == tokens@[1]@);
            proof {
                lemma_parse_uint_bound(tokens@[1]@, 10, u64::MAX as nat);
            }
            match parse_number(tokens[1].as_str(), u64::MAX) {
                Some(v) => Ok(CliCommand::Delete(v)),
                None => Err("breakpoint id must be an integer".to_owned()),
            }
        } else {
            Err("usage: delete <breakpoint-id>".to_owned())
        })
    } else if is_word(w, "symbols") || is_word(w, "symbol") {
        Some(match address_arg_of(tokens, 1, "usage: symbols <addr>") {
            Ok(a) => Ok(CliCommand::Symbols(a)),
            Err(e) => Err(e),
        })
    } else if is_word(w, "source") {
        Some(match address_arg_of(tokens, 1, "usage: source <addr>") {
            Ok(a) => Ok(CliCommand::Source(a)),
            Err(e) => Err(e),
        })
    } else {
        None
    }
}

/// Reads the words of a prompt line as a command.
pub fn parse_tokens(tokens: &Vec<String>) -> (r: Result<Option<CliCommand>, String>)
    ensures
        line_parsed(string_views(tokens@), r),
{
    let ghost toks = string_views(tokens@);
    if tokens.len() == 0 {
        return Ok(None);
    }
    let w = chars_of(tokens[0].as_str());
    assert(toks[0] == w@);
    if is_word(w.as_slice(), "open") {
        if tokens.len() > 1 {
            assert(toks[1] == tokens@[1]@);
            Ok(Some(CliCommand::Open(tokens[1].clone())))
        } else {
            Err("usage: open <program>".to_owned())
        }
    } else if is_word(w.as_slice(), "launch") {
        let rest = dup_strings(tokens.as_slice(), 1);
        match parse_program_and_args(rest.as_slice()) {
            Ok((program, args)) => Ok(Some(CliCommand::Launch(TargetBinary { program, args, cwd: None, env: Vec::new() }))),
            Err(e) => Err(e),
        }
    } else {
        match unit_of(w.as_slice()) {
            Some(c) => Ok(Some(c)),
            None => match arg_of(tokens, w.as_slice()) {
                Some(Ok(c)) => Ok(Some(c)),
                Some(Err(e)) => Err(e),
                None => {
                    let mut m = chars_of("unknown command `");
                    push_chars(&mut m, w.as_slice());
                    let tail = chars_of("`; try `help`");
                    push_chars(&mut m, tail.as_slice());
                    Err(string_of(m.as_slice()))
                },
            },
        }
    }
}

/// Reads a prompt line as a command: its words, then their meaning.
pub fn parse_command_line(line: &str) -> (r: Result<Option<CliCommand>, String>)
    ensures
        match tokens_of(line@) {
            None => r matches Err(e) && e@ == "unterminated quoted string"@,
            Some(t) => line_parsed(t, r),
        },
{
    match tokenize(line) {
        Ok(tokens) => parse_tokens(&tokens),
        Err(e) => Err(e),
    }
}

} // verus!
