//! Per-step execution deltas: changed registers and control-flow hints.
use vstd::prelude::*;
use crate::text::{chars_of, lower_all, lower_seq, is_word};
use crate::tra86::model::{
    ControlFlowChange, ExecutionDelta, ExecutionHint, MemoryWrite, RegisterBank, RegisterDiff, bank_diff, diff_views,
};

verus! {

/// The changes relative to the previous bank; none without one.
pub fn compute_register_delta(current: &RegisterBank, previous: Option<&RegisterBank>) -> (d: Vec<RegisterDiff>)
    ensures
        match previous {
            Some(prev) => diff_views(d@) == bank_diff(current.registers@, prev.registers@),
            None => d@.len() == 0,
        },
{
    match previous {
        Some(prev) => current.diff(prev),
        None => Vec::new(),
    }
}

/// The control-flow class and hints of an ASCII-lower-cased mnemonic.
pub open spec fn mnemonic_class(m: Seq<char>) -> (ControlFlowChange, Seq<ExecutionHint>) {
    if m == "call"@ {
        (ControlFlowChange::Call, seq![ExecutionHint::Call])
    } else if m == "ret"@ {
        (ControlFlowChange::Return, seq![ExecutionHint::Return, ExecutionHint::Epilogue])
    } else if m.len() > 0 && m[0] == 'j' {
        (ControlFlowChange::Jump, seq![if m == "jmp"@ { ExecutionHint::Jump } else { ExecutionHint::ConditionalBranch }])
    } else if m == "syscall"@ || m == "svc"@ {
        (ControlFlowChange::Syscall, seq![ExecutionHint::Syscall])
    } else if m == "push"@ {
        (ControlFlowChange::Linear, seq![ExecutionHint::Prologue])
    } else if m == "leave"@ {
        (ControlFlowChange::Linear, seq![ExecutionHint::Epilogue])
    } else {
        (ControlFlowChange::Linear, Seq::empty())
    }
}

/// Classifies a mnemonic (compared ASCII case-insensitively).
pub fn classify_mnemonic(mnemonic: &str) -> (r: (ControlFlowChange, Vec<ExecutionHint>))
    ensures
        (r.0, r.1@) == mnemonic_class(lower_seq(mnemonic@)),
{
    let raw = chars_of(mnemonic);
    let m = lower_all(raw.as_slice());
    let ms = m.as_slice();
    let mut hints: Vec<ExecutionHint> = Vec::new();
    if is_word(ms, "call") {
        hints.push(ExecutionHint::Call);
        return (ControlFlowChange::Call, hints);
    }
    if is_word(ms, "ret") {
        hints.push(ExecutionHint::Return);
        hints.push(ExecutionHint::Epilogue);
        return (ControlFlowChange::Return, hints);
    }
    if ms.len() > 0 && ms[0] == 'j' {
        let hint = if is_word(ms, "jmp") {
            ExecutionHint::Jump
        } else {
            ExecutionHint::ConditionalBranch
        };
        hints.push(hint);
        return (ControlFlowChange::Jump, hints);
    }
    if is_word(ms, "syscall") || is_word(ms, "svc") {
        hints.push(ExecutionHint::Syscall);
        return (ControlFlowChange::Syscall, hints);
    }
    if is_word(ms, "push") {
        hints.push(ExecutionHint::Prologue);
    }
    if is_word(ms, "leave") {
        hints.push(ExecutionHint::Epilogue);
    }
    proof {
        reveal_strlit("push");
        reveal_strlit("leave");
        assert(hints@ =~= mnemonic_class(m@).1);
    }
    (ControlFlowChange::Linear, hints)
}

/// The delta of one step: the given changes plus the mnemonic's class.
pub fn build_delta(
    mnemonic: &str,
    changed_registers: Vec<RegisterDiff>,
    stack_pointer_delta: i64,
    memory_writes: Vec<MemoryWrite>,
) -> (d: ExecutionDelta)
    ensures
        d.changed_registers@ == changed_registers@,
        d.stack_pointer_delta == stack_pointer_delta,
        d.memory_writes@ == memory_writes@,
        (d.control_flow, d.hints@) == mnemonic_class(lower_seq(mnemonic@)),
{
    let (control_flow, hints) = classify_mnemonic(mnemonic);
    ExecutionDelta { changed_registers, control_flow, stack_pointer_delta, memory_writes, hints }
}

} // verus!
