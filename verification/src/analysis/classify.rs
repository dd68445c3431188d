//! Architecture-aware instruction classification.
//!
//! The control-flow class is derived from the mnemonic per architecture;
//! callers use it as a hint, not ground truth.
use vstd::prelude::*;
use crate::bind_core::arch::Architecture;
use crate::text::{chars_of, trim_chars, lower_all, lower_seq, trim, is_word, starts, starts_with_lit, lemma_starts_at};

verus! {

#[derive(Debug, Clone, Copy, PartialEq, Eq, Structural)]
pub enum ControlFlow {
    Linear,
    Call,
    Return,
    Jump,
    ConditionalBranch,
    Syscall,
    Unknown,
}

/// x86-64 classes of a lower-cased mnemonic.
pub open spec fn x86_class(m: Seq<char>) -> ControlFlow {
    if m == "call"@ {
        ControlFlow::Call
    } else if m == "ret"@ || m == "retq"@ {
        ControlFlow::Return
    } else if m == "jmp"@ {
        ControlFlow::Jump
    } else if m == "syscall"@ || m == "sysenter"@ || m == "int"@ {
        ControlFlow::Syscall
    } else if m.len() > 0 && m[0] == 'j' {
        ControlFlow::ConditionalBranch
    } else {
        ControlFlow::Linear
    }
}

/// AArch64 classes of a lower-cased mnemonic (`b.<cond>`, `cbz`, `cbnz`,
/// `tbz`, `tbnz` are conditional branches).
pub open spec fn arm64_class(m: Seq<char>) -> ControlFlow {
    if m == "bl"@ || m == "blr"@ {
        ControlFlow::Call
    } else if m == "ret"@ {
        ControlFlow::Return
    } else if m == "b"@ || m == "br"@ {
        ControlFlow::Jump
    } else if m == "svc"@ || m == "hvc"@ || m == "smc"@ {
        ControlFlow::Syscall
    } else if starts(m, "b."@) || starts(m, "cb"@) || starts(m, "tb"@) {
        ControlFlow::ConditionalBranch
    } else {
        ControlFlow::Linear
    }
}

/// The class of `mnemonic` on `arch`, after trimming and ASCII lower-casing.
pub open spec fn classify_spec(arch: Architecture, mnemonic: Seq<char>) -> ControlFlow {
    let m = lower_seq(trim(mnemonic));
    match arch {
        Architecture::X86_64 => x86_class(m),
        Architecture::Aarch64 => arm64_class(m),
        Architecture::Unknown => ControlFlow::Unknown,
    }
}

fn classify_x86(m: &[char]) -> (r: ControlFlow)
    ensures
        r == x86_class(m@),
{
    if is_word(m, "call") {
        ControlFlow::Call
    } else if is_word(m, "ret") || is_word(m, "retq") {
        ControlFlow::Return
    } else if is_word(m, "jmp") {
        ControlFlow::Jump
    } else if is_word(m, "syscall") || is_word(m, "sysenter") || is_word(m, "int") {
        ControlFlow::Syscall
    } else if m.len() > 0 && m[0] == 'j' {
        ControlFlow::ConditionalBranch
    } else {
        ControlFlow::Linear
    }
}

fn classify_arm64(m: &[char]) -> (r: ControlFlow)
    ensures
        r == arm64_class(m@),
{
    if is_word(m, "bl") || is_word(m, "blr") {
        ControlFlow::Call
    } else if is_word(m, "ret") {
        ControlFlow::Return
    } else if is_word(m, "b") || is_word(m, "br") {
        ControlFlow::Jump
    } else if is_word(m, "svc") || is_word(m, "hvc") || is_word(m, "smc") {
        ControlFlow::Syscall
    } else if starts_with_lit(m, "b.") || starts_with_lit(m, "cb") || starts_with_lit(m, "tb") {
        ControlFlow::ConditionalBranch
    } else {
        ControlFlow::Linear
    }
}

/// Classifies a mnemonic for the given architecture.
pub fn classify(arch: Architecture, mnemonic: &str) -> (r: ControlFlow)
    ensures
        r == classify_spec(arch, mnemonic@),
{
    let raw = chars_of(mnemonic);
    let t = trim_chars(raw.as_slice());
    let m = lower_all(t.as_slice());
    match arch {
        Architecture::X86_64 => classify_x86(m.as_slice()),
        Architecture::Aarch64 => classify_arm64(m.as_slice()),
        Architecture::Unknown => ControlFlow::Unknown,
    }
}

/// On AArch64, whatever the case of the mnemonic and the spaces around it:
/// a branch with link (`bl`, `blr`) is a call, `ret` a return, a plain or
/// register branch (`b`, `br`) a jump, a supervisor, hypervisor or secure
/// monitor call a syscall, and `b.<cond>` or a compare- or test-branch
/// (`cb..`, `tb..`) a conditional branch; any other mnemonic is linear.
pub proof fn lemma_arm64_control_flow(mnemonic: Seq<char>)
    ensures
        ({
            let m = lower_seq(trim(mnemonic));
            let c = classify_spec(Architecture::Aarch64, mnemonic);
            &&& (m == "bl"@ || m == "blr"@) ==> c == ControlFlow::Call
            &&& m == "ret"@ ==> c == ControlFlow::Return
            &&& (m == "b"@ || m == "br"@) ==> c == ControlFlow::Jump
            &&& (m == "svc"@ || m == "hvc"@ || m == "smc"@) ==> c == ControlFlow::Syscall
            &&& (starts(m, "b."@) || starts(m, "cb"@) || starts(m, "tb"@)) ==> c == ControlFlow::ConditionalBranch
            &&& !(m == "bl"@ || m == "blr"@ || m == "ret"@ || m == "b"@ || m == "br"@ || m == "svc"@ || m == "hvc"@
                || m == "smc"@ || starts(m, "b."@) || starts(m, "cb"@) || starts(m, "tb"@)) ==> c == ControlFlow::Linear
        }),
{
    reveal_strlit("bl");
    reveal_strlit("blr");
    reveal_strlit("ret");
    reveal_strlit("b");
    reveal_strlit("br");
    reveal_strlit("svc");
    reveal_strlit("hvc");
    reveal_strlit("smc");
    reveal_strlit("b.");
    reveal_strlit("cb");
    reveal_strlit("tb");
    let m = lower_seq(trim(mnemonic));
    if starts(m, "b."@) {
        lemma_starts_at(m, "b."@, 1);
    }
    if starts(m, "cb"@) {
        lemma_starts_at(m, "cb"@, 0);
        lemma_starts_at(m, "cb"@, 1);
    }
    if starts(m, "tb"@) {
        lemma_starts_at(m, "tb"@, 0);
        lemma_starts_at(m, "tb"@, 1);
    }
    if m == "ret"@ {
        assert(m[0] == 'r');
        assert("blr"@[0] == 'b');
    }
    if m == "b"@ || m == "br"@ {
        assert(m[0] == 'b');
        assert(m.len() != 3 && m.len() > 0);
        if m.len() == 2 {
            assert(m[1] == 'r');
            assert("bl"@[1] == 'l');
        }
    }
    if m == "svc"@ || m == "hvc"@ || m == "smc"@ {
        assert(m.len() == 3 && m[0] != 'b' && m[0] != 'r');
        assert("blr"@[0] == 'b');
        assert("ret"@[0] == 'r');
    }
}

/// On x86-64, whatever the case of the mnemonic and the spaces around it:
/// `call` is a call, `ret` and `retq` returns, `jmp` a jump, `syscall`,
/// `sysenter` and `int` syscalls, any other mnemonic starting with `j` a
/// conditional branch, and anything else linear. On an unknown
/// architecture nothing is classified.
pub proof fn lemma_x86_control_flow(mnemonic: Seq<char>)
    ensures
        ({
            let m = lower_seq(trim(mnemonic));
            let c = classify_spec(Architecture::X86_64, mnemonic);
            &&& m == "call"@ ==> c == ControlFlow::Call
            &&& (m == "ret"@ || m == "retq"@) ==> c == ControlFlow::Return
            &&& m == "jmp"@ ==> c == ControlFlow::Jump
            &&& (m == "syscall"@ || m == "sysenter"@ || m == "int"@) ==> c == ControlFlow::Syscall
            &&& (m.len() > 0 && m[0] == 'j' && m != "jmp"@) ==> c == ControlFlow::ConditionalBranch
            &&& !(m == "call"@ || m == "ret"@ || m == "retq"@ || m == "syscall"@ || m == "sysenter"@ || m == "int"@
                || (m.len() > 0 && m[0] == 'j')) ==> c == ControlFlow::Linear
        }),
        classify_spec(Architecture::Unknown, mnemonic) == ControlFlow::Unknown,
{
    reveal_strlit("call");
    reveal_strlit("ret");
    reveal_strlit("retq");
    reveal_strlit("jmp");
    reveal_strlit("syscall");
    reveal_strlit("sysenter");
    reveal_strlit("int");
    let m = lower_seq(trim(mnemonic));
    assert("call"@[0] == 'c' && "ret"@[0] == 'r' && "retq"@[0] == 'r' && "jmp"@[0] == 'j');
    assert("syscall"@[0] == 's' && "sysenter"@[0] == 's' && "int"@[0] == 'i');
    if m == "retq"@ {
        assert(m[0] == 'r');
    }
    if m == "jmp"@ || m == "int"@ {
        assert(m.len() == 3 && (m[0] == 'j' || m[0] == 'i'));
    }
    if m.len() > 0 && m[0] == 'j' {
        assert(m != "call"@ && m != "ret"@ && m != "retq"@);
        assert(m != "syscall"@ && m != "sysenter"@ && m != "int"@);
    }
}

} // verus!
