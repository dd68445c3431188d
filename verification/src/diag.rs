//! The noninteractive diagnostic flow: a fixed debugging script (launch,
//! breakpoint, continue, one instruction step) run against a backend, with
//! a text report of what each step produced.
use vstd::prelude::*;
use crate::bind_core::command::{Command, StepKind};
use crate::bind_core::error::{category_of, message_of};
use crate::bind_core::event::event_kind;
use crate::bind_core::id::SessionId;
use crate::bind_core::model::{AttachSpec, BreakpointLocation, ProcessLifecycle, TargetSpec};
use crate::bind_core::snapshot::{SessionSnapshot, selected_index_frames};
use crate::debugger::backend::DebugBackend;
use crate::debugger::backend::Request;
use crate::debugger::worker::{
    WorkerCore, WorkerUpdate, grown, lemma_grown_trans, opt_string_text, program_after, selected_after_step, seq_after_step, step_sent,
};
use crate::num::{dec_digits, fmt_dec};
use crate::text::{debug_quoted, push_chars, push_str, quoted, string_of};

verus! {

/// The name `{:?}` prints for a lifecycle state.
pub open spec fn lifecycle_name(l: ProcessLifecycle) -> Seq<char> {
    match l {
        ProcessLifecycle::Idle => "Idle"@,
        ProcessLifecycle::Launching => "Launching"@,
        ProcessLifecycle::Running => "Running"@,
        ProcessLifecycle::Stopped => "Stopped"@,
        ProcessLifecycle::Exited => "Exited"@,
        ProcessLifecycle::Detached => "Detached"@,
        ProcessLifecycle::Crashed => "Crashed"@,
    }
}

fn lifecycle_text(l: ProcessLifecycle) -> (s: &'static str)
    ensures
        s@ == lifecycle_name(l),
{
    match l {
        ProcessLifecycle::Idle => "Idle",
        ProcessLifecycle::Launching => "Launching",
        ProcessLifecycle::Running => "Running",
        ProcessLifecycle::Stopped => "Stopped",
        ProcessLifecycle::Exited => "Exited",
        ProcessLifecycle::Detached => "Detached",
        ProcessLifecycle::Crashed => "Crashed",
    }
}

/// The selected frame's function, `?` when unknown.
pub open spec fn frame_function(snap: SessionSnapshot) -> Seq<char> {
    let k = selected_index_frames(snap.frames@);
    if k >= 0 {
        match snap.frames@[k].function {
            Some(f) => f@,
            None => "?"@,
        }
    } else {
        "?"@
    }
}

/// The report line for one update.
pub open spec fn update_line(u: WorkerUpdate) -> Seq<char> {
    match u {
        WorkerUpdate::Event(se) => "  event #"@ + dec_digits(se.seq.0 as nat) + " "@ + event_kind(se.event) + "\n"@,
        WorkerUpdate::Snapshot(snap) => "  snapshot: "@ + lifecycle_name(snap.process.lifecycle) + " pc-frame="@
            + frame_function(*snap) + " regs="@ + dec_digits(
            match snap.registers {
                Some(r) => r.registers@.len(),
                None => 0,
            },
        ) + " disasm="@ + dec_digits(snap.disassembly@.len()) + " bps="@ + dec_digits(snap.breakpoints@.len()) + "\n"@,
        WorkerUpdate::CommandError(e) => "  error ["@ + category_of(e) + "]: "@ + message_of(e) + "\n"@,
        _ => Seq::empty(),
    }
}

/// The report lines for a batch of updates.
pub open spec fn update_lines(us: Seq<WorkerUpdate>) -> Seq<char>
    decreases us.len(),
{
    if us.len() == 0 {
        Seq::empty()
    } else {
        update_lines(us.drop_last()) + update_line(us.last())
    }
}

/// The script's steps as `{:?}` prints them.
pub open spec fn script_labels(program: Seq<char>, symbol: Seq<char>) -> Seq<Seq<char>> {
    seq![
        "Attach(Launch(TargetSpec { program: "@ + debug_quoted(program)
            + ", args: [], cwd: None, env: [], stop_at_entry: true }))"@,
        "AddBreakpoint { location: Symbol("@ + debug_quoted(symbol) + "), condition: None }"@,
        "Continue"@,
        "Step(Instruction)"@,
    ]
}

/// The body of the report: each step's updates, then the step.
pub open spec fn report_body(labels: Seq<Seq<char>>, batches: Seq<Seq<WorkerUpdate>>) -> Seq<char>
    decreases labels.len(),
{
    if labels.len() == 0 || batches.len() != labels.len() {
        Seq::empty()
    } else {
        report_body(labels.drop_last(), batches.drop_last()) + update_lines(batches.last()) + "  (after "@
            + labels.last() + ")\n"@
    }
}

/// The whole report: the header naming the backend, the steps, and the
/// closing line.
pub open spec fn report_text(name: Seq<char>, labels: Seq<Seq<char>>, batches: Seq<Seq<WorkerUpdate>>) -> Seq<char> {
    "bind diag \u{2014} backend: "@ + name + "\n"@ + report_body(labels, batches) + "diag complete\n"@
}

fn frame_function_text(snap: &SessionSnapshot) -> (s: String)
    ensures
        s@ == frame_function(*snap),
{
    match snap.selected_frame() {
        Some(f) => match &f.function {
            Some(name) => name.clone(),
            None => "?".to_owned(),
        },
        None => "?".to_owned(),
    }
}

fn push_update_line(out: &mut Vec<char>, u: &WorkerUpdate)
    ensures
        final(out)@ == old(out)@ + update_line(*u),
{
    match u {
        WorkerUpdate::Event(se) => {
            push_str(out, "  event #");
            let d = fmt_dec(se.seq.0);
            push_chars(out, d.as_slice());
            push_str(out, " ");
            push_str(out, se.event.kind());
            push_str(out, "\n");
        },
        WorkerUpdate::Snapshot(snap) => {
            push_str(out, "  snapshot: ");
            push_str(out, lifecycle_text(snap.process.lifecycle));
            push_str(out, " pc-frame=");
            let f = frame_function_text(snap);
            push_str(out, f.as_str());
            push_str(out, " regs=");
            let n: usize = match &snap.registers {
                Some(r) => r.registers.len(),
                None => 0,
            };
            let a = fmt_dec(n as u64);
            push_chars(out, a.as_slice());
            push_str(out, " disasm=");
            let b = fmt_dec(snap.disassembly.len() as u64);
            push_chars(out, b.as_slice());
            push_str(out, " bps=");
            let c = fmt_dec(snap.breakpoints.len() as u64);
            push_chars(out, c.as_slice());
            push_str(out, "\n");
        },
        WorkerUpdate::CommandError(e) => {
            push_str(out, "  error [");
            push_str(out, e.category());
            push_str(out, "]: ");
            let m = e.message();
            push_str(out, m.as_str());
            push_str(out, "\n");
        },
        _ => {},
    }
}

fn push_update_lines(out: &mut Vec<char>, us: &Vec<WorkerUpdate>)
    ensures
        final(out)@ == old(out)@ + update_lines(us@),
{
    let mut i: usize = 0;
    while i < us.len()
        invariant
            i <= us@.len(),
            out@ == old(out)@ + update_lines(us@.take(i as int)),
        decreases us@.len() - i,
    {
        proof {
            let t = us@.take(i as int + 1);
            assert(t.drop_last() =~= us@.take(i as int));
            assert(t.last() == us@[i as int]);
        }
        let ghost before = out@;
        push_update_line(out, &us[i]);
        assert(out@ =~= old(out)@ + update_lines(us@.take(i as int + 1)));
        i = i + 1;
    }
    assert(us@.take(i as int) =~= us@);
}

/// The report lines of one step.
pub open spec fn step_text(label: Seq<char>, batch: Seq<WorkerUpdate>) -> Seq<char> {
    update_lines(batch) + "  (after "@ + label + ")\n"@
}

proof fn lemma_report_four(
    labels: Seq<Seq<char>>,
    b0: Seq<WorkerUpdate>,
    b1: Seq<WorkerUpdate>,
    b2: Seq<WorkerUpdate>,
    b3: Seq<WorkerUpdate>,
)
    requires
        labels.len() == 4,
    ensures
        report_body(labels, seq![b0, b1, b2, b3]) == step_text(labels[0], b0) + step_text(labels[1], b1) + step_text(
            labels[2],
            b2,
        ) + step_text(labels[3], b3),
{
    let e: Seq<Seq<char>> = Seq::empty();
    let eb: Seq<Seq<WorkerUpdate>> = Seq::empty();
    let l1 = seq![labels[0]];
    let l2 = seq![labels[0], labels[1]];
    let l3 = seq![labels[0], labels[1], labels[2]];
    let k1 = seq![b0];
    let k2 = seq![b0, b1];
    let k3 = seq![b0, b1, b2];
    assert(l1.drop_last() =~= e);
    assert(k1.drop_last() =~= eb);
    assert(report_body(e, eb) =~= Seq::<char>::empty());
    assert(l1.last() == labels[0] && k1.last() == b0);
    assert(report_body(l1, k1) == report_body(e, eb) + step_text(labels[0], b0));
    assert(report_body(l1, k1) =~= step_text(labels[0], b0));
    assert(l2.drop_last() =~= l1);
    assert(k2.drop_last() =~= k1);
    assert(l2.last() == labels[1] && k2.last() == b1);
    assert(report_body(l2, k2) =~= step_text(labels[0], b0) + step_text(labels[1], b1));
    assert(l3.drop_last() =~= l2);
    assert(k3.drop_last() =~= k2);
    assert(l3.last() == labels[2] && k3.last() == b2);
    assert(report_body(l3, k3) =~= step_text(labels[0], b0) + step_text(labels[1], b1) + step_text(labels[2], b2));
    assert(labels.drop_last() =~= l3);
    assert(seq![b0, b1, b2, b3].drop_last() =~= k3);
}

/// Carries out one step of the script and reports it.
fn run_step<B: DebugBackend + ?Sized>(
    worker: &mut WorkerCore,
    backend: &mut B,
    command: Command,
    label: &str,
    out: &mut Vec<char>,
) -> (batch: Vec<WorkerUpdate>)
    requires
        old(backend).inv(),
    ensures
        final(backend).inv(),
        final(out)@ == old(out)@ + step_text(label@, batch@),
        final(worker).processed() == old(worker).processed().push(command),
        final(worker).outputs() == old(worker).outputs().push(batch@),
        final(worker).id() == old(worker).id(),
        grown(old(backend).received(), final(backend).received()),
        ({
            let xs = final(backend).received().skip(old(backend).received().len() as int);
            &&& step_sent(
                command,
                xs,
                batch@,
                old(worker).seq().0,
                0,
                old(worker).id(),
                opt_string_text(old(worker).program()),
                old(worker).selected_thread(),
            )
            &&& final(worker).seq().0 == seq_after_step(command, xs, old(worker).seq().0)
            &&& final(worker).selected_thread() == selected_after_step(command, xs, old(worker).selected_thread())
            &&& opt_string_text(final(worker).program()) == program_after(command, opt_string_text(old(worker).program()))
        }),
{
    let (updates, _) = worker.process(backend, command, 0);
    push_update_lines(out, &updates);
    push_str(out, "  (after ");
    push_str(out, label);
    push_str(out, ")\n");
    updates
}

/// The steps from the `i`-th on, each with the requests `segs[i]` it made
/// and the updates `batches[i]` it sent up, starting from the worker state
/// `seq`, `program`, `selected`, every event stamped 0.
pub open spec fn steps_sent(
    cmds: Seq<Command>,
    segs: Seq<Seq<Request>>,
    batches: Seq<Seq<WorkerUpdate>>,
    i: int,
    seq: u64,
    id: SessionId,
    program: Option<Seq<char>>,
    selected: Option<crate::bind_core::id::ThreadId>,
) -> bool
    decreases cmds.len() - i,
{
    if i < 0 || i >= cmds.len() {
        true
    } else {
        &&& step_sent(cmds[i], segs[i], batches[i], seq, 0, id, program, selected)
        &&& steps_sent(
            cmds,
            segs,
            batches,
            i + 1,
            seq_after_step(cmds[i], segs[i], seq),
            id,
            program_after(cmds[i], program),
            selected_after_step(cmds[i], segs[i], selected),
        )
    }
}

/// Four steps, each run from the state the one before left, ran as
/// `steps_sent` says.
proof fn lemma_four_steps(
    cmds: Seq<Command>,
    segs: Seq<Seq<Request>>,
    bs: Seq<Seq<WorkerUpdate>>,
    id: SessionId,
    seqs: Seq<u64>,
    progs: Seq<Option<Seq<char>>>,
    sels: Seq<Option<crate::bind_core::id::ThreadId>>,
)
    requires
        cmds.len() == 4,
        segs.len() == 4,
        bs.len() == 4,
        seqs.len() == 4,
        progs.len() == 4,
        sels.len() == 4,
        forall|i: int| 0 <= i < 4 ==> #[trigger] step_sent(cmds[i], segs[i], bs[i], seqs[i], 0, id, progs[i], sels[i]),
        forall|i: int| 0 <= i < 3 ==> seqs[i + 1] == #[trigger] seq_after_step(cmds[i], segs[i], seqs[i]),
        forall|i: int| 0 <= i < 3 ==> progs[i + 1] == #[trigger] program_after(cmds[i], progs[i]),
        forall|i: int| 0 <= i < 3 ==> sels[i + 1] == #[trigger] selected_after_step(cmds[i], segs[i], sels[i]),
    ensures
        steps_sent(cmds, segs, bs, 0, seqs[0], id, progs[0], sels[0]),
{
    let q3 = seq_after_step(cmds[3], segs[3], seqs[3]);
    let p3 = program_after(cmds[3], progs[3]);
    let t3 = selected_after_step(cmds[3], segs[3], sels[3]);
    assert(steps_sent(cmds, segs, bs, 4, q3, id, p3, t3));
    assert(step_sent(cmds[3], segs[3], bs[3], seqs[3], 0, id, progs[3], sels[3]));
    assert(steps_sent(cmds, segs, bs, 3, seqs[3], id, progs[3], sels[3]));
    assert(step_sent(cmds[2], segs[2], bs[2], seqs[2], 0, id, progs[2], sels[2]));
    assert(seqs[3] == seq_after_step(cmds[2], segs[2], seqs[2]));
    assert(progs[3] == program_after(cmds[2], progs[2]));
    assert(sels[3] == selected_after_step(cmds[2], segs[2], sels[2]));
    assert(steps_sent(cmds, segs, bs, 2, seqs[2], id, progs[2], sels[2]));
    assert(step_sent(cmds[1], segs[1], bs[1], seqs[1], 0, id, progs[1], sels[1]));
    assert(seqs[2] == seq_after_step(cmds[1], segs[1], seqs[1]));
    assert(progs[2] == program_after(cmds[1], progs[1]));
    assert(sels[2] == selected_after_step(cmds[1], segs[1], sels[1]));
    assert(steps_sent(cmds, segs, bs, 1, seqs[1], id, progs[1], sels[1]));
    assert(step_sent(cmds[0], segs[0], bs[0], seqs[0], 0, id, progs[0], sels[0]));
    assert(seqs[1] == seq_after_step(cmds[0], segs[0], seqs[0]));
    assert(progs[1] == program_after(cmds[0], progs[0]));
    assert(sels[1] == selected_after_step(cmds[0], segs[0], sels[0]));
}

/// The four steps of the script ran as `steps_sent` says from the worker
/// state given, and `xs` is the requests they made, step after step.
pub open spec fn script_ran(
    cmds: Seq<Command>,
    xs: Seq<Request>,
    batches: Seq<Seq<WorkerUpdate>>,
    seq: u64,
    id: SessionId,
    program: Option<Seq<char>>,
    selected: Option<crate::bind_core::id::ThreadId>,
) -> bool {
    exists|segs: Seq<Seq<Request>>|
        #![trigger steps_sent(cmds, segs, batches, 0, seq, id, program, selected)]
        segs.len() == 4 && batches.len() == 4 && xs == segs[0] + segs[1] + segs[2] + segs[3] && steps_sent(
            cmds,
            segs,
            batches,
            0,
            seq,
            id,
            program,
            selected,
        )
}

/// The diagnostic script: launch `program` stopped at its entry, break at
/// the function `symbol`, continue, and step one instruction.
pub open spec fn diag_script(cmds: Seq<Command>, program: Seq<char>, symbol: Seq<char>) -> bool {
    &&& cmds.len() == 4
    &&& (cmds[0] matches Command::Attach(AttachSpec::Launch(t)) && t.program@ == program && t.args@.len() == 0
        && t.cwd is None && t.env@.len() == 0 && t.stop_at_entry)
    &&& (cmds[1] matches Command::AddBreakpoint { location: BreakpointLocation::Symbol(s), condition: None }
        && s@ == symbol)
    &&& cmds[2] == Command::Continue
    &&& cmds[3] == Command::Step(StepKind::Instruction)
}

/// Runs the script against `backend`, launching `program` and breaking at
/// `breakpoint_symbol`, and reports each step's events, snapshots and
/// errors, after a header naming the backend. The steps run through a fresh
/// worker, as `run_script` states.
pub fn run_diag<B: DebugBackend + ?Sized>(backend: &mut B, program: &str, breakpoint_symbol: &str) -> (report: String)
    requires
        old(backend).inv(),
    ensures
        final(backend).inv(),
        exists|cmds: Seq<Command>, batches: Seq<Seq<WorkerUpdate>>| {
            &&& #[trigger] diag_script(cmds, program@, breakpoint_symbol@)
            &&& script_ran(
                cmds,
                final(backend).received().skip(old(backend).received().len() as int),
                batches,
                0,
                SessionId(1),
                None,
                None,
            )
            &&& report@ == #[trigger] report_text(old(backend).name_view(), script_labels(program@, breakpoint_symbol@), batches)
        },
{
    let mut worker = WorkerCore::new(SessionId(1));
    let report = run_script(&mut worker, backend, program, breakpoint_symbol);
    proof {
        assert(worker.processed().skip(0) =~= worker.processed());
        assert(worker.outputs().skip(0) =~= worker.outputs());
    }
    report
}

/// Runs the diagnostic script through `worker` against `backend`: the
/// worker carries out exactly the four commands of `diag_script`, and the
/// report shows, under the backend's name, the updates the worker sent up
/// for each, in order.
#[verifier::rlimit(40)]
pub fn run_script<B: DebugBackend + ?Sized>(
    worker: &mut WorkerCore,
    backend: &mut B,
    program: &str,
    breakpoint_symbol: &str,
) -> (report: String)
    requires
        old(backend).inv(),
    ensures
        final(backend).inv(),
        final(worker).processed().len() == old(worker).processed().len() + 4,
        final(worker).processed().take(old(worker).processed().len() as int) == old(worker).processed(),
        diag_script(final(worker).processed().skip(old(worker).processed().len() as int), program@, breakpoint_symbol@),
        final(worker).outputs().len() == old(worker).outputs().len() + 4,
        final(worker).outputs().take(old(worker).outputs().len() as int) == old(worker).outputs(),
        script_ran(
            final(worker).processed().skip(old(worker).processed().len() as int),
            final(backend).received().skip(old(backend).received().len() as int),
            final(worker).outputs().skip(old(worker).outputs().len() as int),
            old(worker).seq().0,
            old(worker).id(),
            opt_string_text(old(worker).program()),
            old(worker).selected_thread(),
        ),
        report@ == report_text(
            old(backend).name_view(),
            script_labels(program@, breakpoint_symbol@),
            final(worker).outputs().skip(old(worker).outputs().len() as int),
        ),
{
    let ghost p0 = worker.processed();
    let ghost u0 = worker.outputs();
    let name = backend.name();
    let mut out: Vec<char> = Vec::new();
    push_str(&mut out, "bind diag \u{2014} backend: ");
    push_str(&mut out, name);
    push_str(&mut out, "\n");
    let ghost head = out@;

    let launch = Command::Attach(AttachSpec::Launch(TargetSpec {
        program: program.to_owned(),
        args: Vec::new(),
        cwd: None,
        env: Vec::new(),
        stop_at_entry: true,
    }));
    let ghost c0 = launch;
    let mut l0: Vec<char> = Vec::new();
    push_str(&mut l0, "Attach(Launch(TargetSpec { program: ");
    let qp = quoted(program);
    push_str(&mut l0, qp.as_str());
    push_str(&mut l0, ", args: [], cwd: None, env: [], stop_at_entry: true }))");
    let label0 = string_of(l0.as_slice());
    let ghost w0 = *worker;
    let ghost q0 = backend.received();
    let b0 = run_step(worker, backend, launch, label0.as_str(), &mut out);
    let ghost w1 = *worker;
    let ghost q1 = backend.received();

    let brk = Command::AddBreakpoint {
        location: BreakpointLocation::Symbol(breakpoint_symbol.to_owned()),
        condition: None,
    };
    let ghost c1 = brk;
    let mut l1: Vec<char> = Vec::new();
    push_str(&mut l1, "AddBreakpoint { location: Symbol(");
    let qs = quoted(breakpoint_symbol);
    push_str(&mut l1, qs.as_str());
    push_str(&mut l1, "), condition: None }");
    let label1 = string_of(l1.as_slice());
    let b1 = run_step(worker, backend, brk, label1.as_str(), &mut out);
    let ghost w2 = *worker;
    let ghost q2 = backend.received();

    let b2 = run_step(worker, backend, Command::Continue, "Continue", &mut out);
    let ghost w3 = *worker;
    let ghost q3 = backend.received();
    let b3 = run_step(worker, backend, Command::Step(StepKind::Instruction), "Step(Instruction)", &mut out);
    let ghost q4 = backend.received();
    push_str(&mut out, "diag complete\n");
    proof {
        let labels = script_labels(program@, breakpoint_symbol@);
        lemma_report_four(labels, b0@, b1@, b2@, b3@);
        assert(out@ =~= report_text(name@, labels, seq![b0@, b1@, b2@, b3@]));
        let cmds = seq![c0, c1, Command::Continue, Command::Step(StepKind::Instruction)];
        assert(worker.processed() =~= p0 + cmds);
        assert(worker.processed().skip(p0.len() as int) =~= cmds);
        assert(worker.processed().take(p0.len() as int) =~= p0);
        assert(worker.outputs().skip(u0.len() as int) =~= seq![b0@, b1@, b2@, b3@]);
        assert(worker.outputs().take(u0.len() as int) =~= u0);
        let segs = seq![q1.skip(q0.len() as int), q2.skip(q1.len() as int), q3.skip(q2.len() as int), q4.skip(q3.len() as int)];
        let bs = seq![b0@, b1@, b2@, b3@];
        lemma_grown_trans(q0, q1, q2);
        lemma_grown_trans(q0, q2, q3);
        lemma_grown_trans(q0, q3, q4);
        assert(q4.skip(q0.len() as int) =~= segs[0] + segs[1] + segs[2] + segs[3]);
        lemma_four_steps(
            cmds,
            segs,
            bs,
            w0.id(),
            seq![w0.seq().0, w1.seq().0, w2.seq().0, w3.seq().0],
            seq![opt_string_text(w0.program()), opt_string_text(w1.program()), opt_string_text(w2.program()), opt_string_text(w3.program())],
            seq![w0.selected_thread(), w1.selected_thread(), w2.selected_thread(), w3.selected_thread()],
        );
    }
    string_of(out.as_slice())
}

} // verus!
