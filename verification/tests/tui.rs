use bind::storage::Theme as ConfigTheme;
use bind::tui::theme::{Colour, TextStyle, Theme};
use bind::bind_core::address::Address;
use bind::bind_core::capability::Capabilities;
use bind::bind_core::command::{Command, RunTarget, StepKind};
use bind::bind_core::error::BindError;
use bind::bind_core::event::{DebugEvent, SequencedEvent};
use bind::bind_core::id::{BreakpointId, EventSeq, SessionId, ThreadId};
use bind::bind_core::model::{BreakpointLocation, StopReason};
use bind::bind_core::snapshot::SessionSnapshot;
use bind::debugger::worker::WorkerUpdate;
use bind::storage::Preferences;
use bind::tui::palette::{parse, suggestions, LayoutMode, Panel, Parsed, UiAction};
use bind::tui::state::{KeyCode, KeyEvent, Mode, UiState, TIMELINE_CAP};
use bind::tui::view::{event_detail, help_text, hex_dump, timeline_title, Glyphs};

fn state() -> UiState {
    let snap = SessionSnapshot::empty(SessionId(1), "mock", Capabilities::none());
    UiState::new(snap, Preferences::default())
}

fn key(c: char) -> KeyEvent {
    KeyEvent::new(KeyCode::Char(c), false)
}

fn seq_event(n: u64) -> SequencedEvent {
    SequencedEvent { seq: EventSeq(n), mono_nanos: n, wall: None, event: DebugEvent::Continued }
}

#[test]
fn parses_execution_commands() {
    assert_eq!(parse("continue").unwrap(), Some(Parsed::Command(Command::Continue)));
    assert_eq!(
        parse("si").unwrap(),
        Some(Parsed::Command(Command::Step(StepKind::Instruction)))
    );
    assert_eq!(parse("n").unwrap(), Some(Parsed::Command(Command::Step(StepKind::Over))));
}

#[test]
fn parses_breakpoints() {
    assert_eq!(
        parse("break main").unwrap(),
        Some(Parsed::Command(Command::AddBreakpoint {
            location: BreakpointLocation::Symbol("main".into()),
            condition: None,
        }))
    );
    assert_eq!(
        parse("break address 0x1000").unwrap(),
        Some(Parsed::Command(Command::AddBreakpoint {
            location: BreakpointLocation::Address(Address::new(0x1000)),
            condition: None,
        }))
    );
    assert_eq!(
        parse("break file src/main.rs:42").unwrap(),
        Some(Parsed::Command(Command::AddBreakpoint {
            location: BreakpointLocation::Source { file: "src/main.rs".into(), line: 42 },
            condition: None,
        }))
    );
}

#[test]
fn parses_memory_and_goto() {
    assert_eq!(
        parse("memory 0x7fff 64").unwrap(),
        Some(Parsed::Ui(UiAction::ShowMemory { addr: Address::new(0x7fff), len: 64 }))
    );
    assert_eq!(
        parse("goto 0x1004").unwrap(),
        Some(Parsed::Command(Command::RunTo(RunTarget::Address(Address::new(0x1004)))))
    );
}

#[test]
fn blank_and_unknown() {
    assert_eq!(parse("   ").unwrap(), None);
    assert!(parse("frobnicate").is_err());
}

#[test]
fn suggestions_prefix_and_subsequence() {
    let s = suggestions("st");
    assert_eq!(s.first(), Some(&"step"));
    assert!(suggestions("cont").contains(&"continue"));
    assert!(suggestions("brk").contains(&"break"));
}

#[test]
fn hex_dump_formats_rows() {
    let rows = hex_dump(0x1000, &[0x41, 0x42, 0x00, 0xff], 4);
    assert_eq!(rows.len(), 1);
    assert!(rows[0].starts_with("00001000: 41 42 00 ff"));
    assert!(rows[0].ends_with("| AB.."));
}

#[test]
fn hex_dump_pads_a_short_last_row() {
    let rows = hex_dump(0x10, &[0x20, 0x7e, 0x7f, 0x61, 0x62], 4);
    assert_eq!(rows, vec!["00000010: 20 7e 7f 61 |  ~.a".to_string(), "00000014: 62          | b".to_string()]);
    assert_eq!(hex_dump(0, &[], 8).len(), 0);
    assert_eq!(hex_dump(0, &[1, 2], 0).len(), 2);
}

#[test]
fn palette_opens_and_parses() {
    let mut s = state();
    s.handle_key(key(':'));
    assert_eq!(s.mode, Mode::Palette);
    for c in "continue".chars() {
        s.handle_key(key(c));
    }
    assert_eq!(s.palette_input, "continue");
    let cmds = s.handle_key(KeyEvent::new(KeyCode::Enter, false));
    assert_eq!(cmds, vec![Command::Continue]);
    assert_eq!(s.mode, Mode::Normal);
    assert_eq!(s.status, "> continue");
}

#[test]
fn focus_cycles_with_tab() {
    let mut s = state();
    assert_eq!(s.focus, Panel::Code);
    s.handle_key(KeyEvent::new(KeyCode::Tab, false));
    assert_eq!(s.focus, Panel::Registers);
    s.handle_key(KeyEvent::new(KeyCode::BackTab, false));
    s.handle_key(KeyEvent::new(KeyCode::BackTab, false));
    assert_eq!(s.focus, Panel::Timeline);
}

#[test]
fn step_key_emits_command() {
    let mut s = state();
    assert_eq!(s.handle_key(key('i')), vec![Command::Step(StepKind::Instruction)]);
}

#[test]
fn ctrl_c_quits_from_any_mode() {
    let mut s = state();
    s.mode = Mode::Palette;
    s.handle_key(KeyEvent::new(KeyCode::Char('c'), true));
    assert!(s.should_quit);
}

#[test]
fn bad_palette_input_sets_error_not_panic() {
    let mut s = state();
    let cmds = s.run_palette("frobnicate");
    assert!(cmds.is_empty());
    assert!(s.error.is_some());
}

#[test]
fn memory_request_is_deferred_command() {
    let mut s = state();
    let cmds = s.run_palette("memory 0x1000 32");
    assert_eq!(cmds.len(), 1);
    assert!(matches!(cmds[0], Command::ReadMemory { .. }));
    assert_eq!(s.status, "reading 32 bytes at 0x1000");
    s.apply_update(WorkerUpdate::Memory { addr: Address::new(0x1000), bytes: vec![1, 2, 3] });
    let m = s.memory.as_ref().unwrap();
    assert_eq!(m.len, 32);
    assert_eq!(m.bytes, vec![1, 2, 3]);
    assert_eq!(s.focus, Panel::Registers);
    assert!(s.pending_memory.is_none());
}

#[test]
fn palette_backspace_and_escape_edit_the_line() {
    let mut s = state();
    s.handle_key(key(':'));
    s.handle_key(key('a'));
    s.handle_key(key('b'));
    s.handle_key(KeyEvent::new(KeyCode::Backspace, false));
    assert_eq!(s.palette_input, "a");
    s.handle_key(KeyEvent::new(KeyCode::Esc, false));
    assert_eq!(s.mode, Mode::Normal);
    assert_eq!(s.palette_input, "");
}

#[test]
fn help_key_and_any_key_dismisses() {
    let mut s = state();
    s.handle_key(key('?'));
    assert_eq!(s.mode, Mode::Help);
    let cmds = s.handle_key(key('x'));
    assert!(cmds.is_empty());
    assert_eq!(s.mode, Mode::Normal);
}

#[test]
fn layout_and_search_actions() {
    let mut s = state();
    s.run_palette("layout source");
    assert_eq!(s.layout, LayoutMode::Source);
    s.run_palette("search foo bar");
    assert_eq!(s.status, "search: foo bar");
    s.run_palette("quit");
    assert!(s.should_quit);
}

#[test]
fn toggle_breakpoint_without_current_instruction_is_an_error() {
    let mut s = state();
    let cmds = s.handle_key(key('b'));
    assert!(cmds.is_empty());
    assert_eq!(s.error.as_deref(), Some("no current instruction to toggle a breakpoint on"));
    // any later key in normal mode clears it
    s.handle_key(key('z'));
    assert!(s.error.is_none());
}

#[test]
fn timeline_follows_and_caps() {
    let mut s = state();
    for n in 0..(TIMELINE_CAP as u64 + 5) {
        s.apply_update(WorkerUpdate::Event(seq_event(n)));
    }
    assert_eq!(s.timeline.len(), TIMELINE_CAP);
    assert_eq!(s.timeline[0].seq, EventSeq(5));
    assert_eq!(s.selected_timeline, TIMELINE_CAP - 1);
    assert_eq!(s.trace_total(), TIMELINE_CAP as u64 + 5);
    assert_eq!(s.selected_event().unwrap().seq, EventSeq(TIMELINE_CAP as u64 + 4));
    s.focus = Panel::Timeline;
    s.handle_key(KeyEvent::new(KeyCode::Up, false));
    assert_eq!(s.selected_timeline, TIMELINE_CAP - 2);
    s.handle_key(key('j'));
    s.handle_key(key('j'));
    assert_eq!(s.selected_timeline, TIMELINE_CAP - 1);
}

#[test]
fn trace_start_and_stop_hand_out_the_record() {
    let mut s = state();
    s.apply_update(WorkerUpdate::Event(seq_event(1)));
    s.run_palette("trace start out.json");
    assert!(s.trace_persisting());
    assert_eq!(s.status, "recording trace -> out.json");
    s.apply_update(WorkerUpdate::Event(seq_event(2)));
    s.run_palette("trace stop");
    assert!(!s.trace_persisting());
    let (rec, path) = s.trace_to_write.take().unwrap();
    assert_eq!(path, "out.json");
    assert_eq!(rec.events.len(), 2);
    s.trace_written(Ok("out.json".to_string()));
    assert_eq!(s.status, "trace saved: out.json");
    s.run_palette("trace stop");
    assert_eq!(s.status, "trace stopped (was not persisting)");
}

#[test]
fn command_error_and_shutdown_updates() {
    let mut s = state();
    s.apply_update(WorkerUpdate::CommandError(BindError::UserInput("bad".into())));
    assert_eq!(s.error.as_deref(), Some("[input] invalid input: bad"));
    s.apply_update(WorkerUpdate::Shutdown);
    assert_eq!(s.status, "debugger stopped");
}

#[test]
fn event_details_and_titles() {
    let stopped = DebugEvent::Stopped {
        thread: ThreadId(1),
        reason: StopReason::Breakpoint(BreakpointId(3)),
        pc: Some(Address::new(0x1000)),
    };
    assert_eq!(event_detail(&stopped), "breakpoint #3 @ 0x1000");
    assert_eq!(event_detail(&DebugEvent::ProcessExited { code: -1 }), "code -1");
    assert_eq!(event_detail(&DebugEvent::Continued), "");
    assert_eq!(timeline_title(3, 10, 2, true), "Timeline  (3 shown, 10 total, 2 dropped \u{25cf}REC)");
    assert_eq!(timeline_title(0, 0, 0, false), "Timeline  (0 shown, 0 total)");
    assert_eq!(help_text("break").len(), 4);
    assert_eq!(help_text("other")[0], "Bind \u{2014} terminal debugger & tracer");
    assert_eq!(Glyphs::new(false).current, ">");
    assert_eq!(Glyphs::new(true).bullet, "\u{b7}");
}

#[test]
fn theme_styles_follow_configuration() {
    let dark = Theme::from_config(ConfigTheme::Dark);
    assert_eq!(dark.title(true), TextStyle { fg: Some(Colour::Cyan), bold: true, reversed: false });
    assert_eq!(dark.title(false), TextStyle { fg: Some(Colour::DarkGray), bold: true, reversed: false });
    assert_eq!(dark.changed(), TextStyle { fg: Some(Colour::Yellow), bold: true, reversed: false });
    let mono = Theme::from_config(ConfigTheme::Monochrome);
    assert!(mono.monochrome);
    assert_eq!(mono.current_line(), TextStyle { fg: None, bold: false, reversed: true });
    assert_eq!(Theme::from_config(ConfigTheme::Light).error(), TextStyle { fg: Some(Colour::Red), bold: true, reversed: false });
}
