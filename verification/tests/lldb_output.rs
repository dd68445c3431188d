use bind::tra86::lldb_output::{
    extract_address_token, lldb_quote, parse_addr, parse_breakpoint_id, parse_disassembly, parse_frames,
    parse_memory_bytes, parse_memory_regions, parse_pc_from_register_output, parse_pid, parse_registers,
    parse_registers_loose, parse_source_location, parse_stop_reason_line, parse_symbol_info,
    parse_text_section_base, parse_threads, register_role,
};
use bind::tra86::model::{Breakpoint, BreakpointLocation, RegisterRole, StopReason};

#[test]
fn process_and_breakpoint_numbers() {
    assert_eq!(parse_pid("Process 4242 launched: '/tmp/a' (x86_64)"), Some(4242));
    assert_eq!(parse_pid("no process here\nProcess  77 stopped"), Some(77));
    assert_eq!(parse_pid("Process stopped"), None);
    assert_eq!(parse_breakpoint_id("Breakpoint 3: where = a`main + 4, address = 0x1"), Some(3));
    assert_eq!(parse_breakpoint_id("Breakpoint x: nope\nBreakpoint 9: ok"), Some(9));
    assert_eq!(parse_breakpoint_id("nothing"), None);
}

#[test]
fn stop_reasons_of_thread_lines() {
    assert_eq!(
        parse_stop_reason_line("* thread #1, stop reason = breakpoint 1.1"),
        Some(StopReason::Breakpoint(0))
    );
    assert_eq!(
        parse_stop_reason_line("* thread #1, stop reason = signal SIGSTOP"),
        Some(StopReason::Signal("signal SIGSTOP".to_string()))
    );
    assert_eq!(parse_stop_reason_line("stop reason = step over"), Some(StopReason::Step));
    assert_eq!(parse_stop_reason_line("running"), None);
}

#[test]
fn registers_strict_and_loose() {
    let regs = parse_registers("     rip = 0x0000000100003f60  a`main\n  rsp = 0x00007ff7bfeff8d0\nbad line\nx y = 1");
    assert_eq!(regs.len(), 2);
    assert_eq!(regs[0].name, "rip");
    assert_eq!(regs[0].value, "0x0000000100003f60");
    assert_eq!(regs[0].role, RegisterRole::InstructionPointer);
    assert_eq!(regs[1].role, RegisterRole::StackPointer);
    assert_eq!(regs[0].size_bits, 64);
    let loose = parse_registers_loose("(uint64_t) $pc= 12 0x10\n(int) x=  3\n(long) sp = 0x8");
    assert_eq!(loose.len(), 1);
    assert_eq!(loose[0].name, "pc");
    assert_eq!(loose[0].role, RegisterRole::InstructionPointer);
    assert_eq!(loose[0].value, "0x10");
    assert_eq!(register_role("cpsr"), RegisterRole::Flags);
    assert_eq!(register_role("x0"), RegisterRole::General);
}

#[test]
fn addresses_in_lines() {
    assert_eq!(extract_address_token("->  0x100003f60 <+0>: push rbp"), Some(0x100003f60));
    assert_eq!(extract_address_token("a`main at [0x1000-0x2000)"), Some(0x1000));
    assert_eq!(extract_address_token("no address"), None);
    assert_eq!(parse_addr(" 0x1f "), Some(0x1f));
    assert_eq!(parse_addr("zz"), None);
}

#[test]
fn quoting_for_lldb() {
    assert_eq!(lldb_quote("a \"b\""), "\"a \\\"b\\\"\"");
    assert_eq!(lldb_quote(""), "\"\"");
}

#[test]
fn threads_and_frames() {
    let threads = parse_threads(
        "Process 1 stopped\n* thread #1: tid = 0x1, 0x0000000100003f60 a`main, stop reason = breakpoint 1.1\n  thread #2: tid = 0x2",
        StopReason::Step,
    );
    assert_eq!(threads.len(), 2);
    assert_eq!(threads[0].id, 1);
    assert!(threads[0].is_current);
    assert_eq!(threads[0].instruction_pointer, None);
    assert_eq!(threads[0].stop_reason, StopReason::Unknown("breakpoint 1.1".to_string()));
    assert_eq!(threads[1].id, 2);
    assert!(!threads[1].is_current);
    assert_eq!(threads[1].stop_reason, StopReason::Step);

    let frames = parse_frames(
        "* frame #0: 0x0000000100003f60 a`main at main.c:7:5\n  frame #1: 0x00007ff8 dyld`start + 1",
        3,
    );
    assert_eq!(frames.len(), 2);
    assert_eq!(frames[0].index, 0);
    assert_eq!(frames[0].thread_id, 3);
    assert_eq!(frames[0].instruction_pointer, 0x100003f60);
    assert_eq!(frames[0].function.as_deref(), Some("main"));
    let src = frames[0].source.as_ref().unwrap();
    assert_eq!((src.file.as_str(), src.line, src.column), ("main.c", 7, Some(5)));
    assert_eq!(frames[1].index, 1);
    assert_eq!(frames[1].function.as_deref(), Some("start"));
    assert!(frames[1].source.is_none());
}

#[test]
fn source_locations() {
    let loc = parse_source_location("Summary: a`main at /src/m.c:12").unwrap();
    assert_eq!(loc.file, "/src/m.c");
    assert_eq!(loc.line, 12);
    assert_eq!(loc.column, None);
    assert!(parse_source_location("x at file.c:notanumber\ny at b.c:3").is_none());
    assert!(parse_source_location("no location").is_none());
}

#[test]
fn disassembly_listing() {
    let bps = vec![Breakpoint { id: 1, location: BreakpointLocation::Address(0x1004), enabled: true, hit_count: 0 }];
    let out = parse_disassembly(
        "a`main:\n->  0x1000 <+0>: push   rbp\n    0x1004 <+4>: call   0x2000, rax\n    0x1008 <+8>: ret",
        &bps,
    );
    assert_eq!(out.len(), 3);
    assert!(out[0].is_current);
    assert_eq!(out[0].mnemonic, "push");
    assert_eq!(out[0].operands, "rbp");
    assert_eq!(out[0].function.as_deref(), Some("main"));
    assert_eq!(out[1].branch_target, Some(0x2000));
    assert!(out[1].has_breakpoint);
    assert_eq!(out[1].operands, "0x2000, rax");
    assert_eq!(out[2].operands, "");
    assert!(!out[2].has_breakpoint);
}

#[test]
fn memory_bytes_regions_and_sections() {
    assert_eq!(parse_memory_bytes("0x1000: 0x48 0x89 0xe5\n0x1003: 0xc3 0x1234"), vec![0x48, 0x89, 0xe5, 0xc3]);
    let regions = parse_memory_regions("[0x0000000100000000-0x0000000100004000) r-x __TEXT\nno region");
    assert_eq!(regions.len(), 1);
    assert_eq!(regions[0].start, 0x100000000);
    assert_eq!(regions[0].end, 0x100004000);
    assert!(regions[0].permissions.read && !regions[0].permissions.write && regions[0].permissions.execute);
    assert_eq!(regions[0].pathname.as_deref(), Some("__TEXT"));
    assert_eq!(
        parse_text_section_base("  0x100000000 data\n  [0x100003f40-0x100003fa0) r-x __TEXT.__text"),
        Some(0x100003f40)
    );
    assert_eq!(parse_pc_from_register_output("rax = 0x1\npc = 0x42"), Some(0x42));
}

#[test]
fn symbol_names() {
    let s = parse_symbol_info("Address: a[0x1]\nSummary: a`main + 4", 0x10, Some("a".to_string())).unwrap();
    assert_eq!(s.name, "a`main + 4");
    assert_eq!(s.offset, 0x10);
    assert_eq!(s.module.as_deref(), Some("a"));
    let q = parse_symbol_info("Summary: x\n name = \"twice\"", 1, None).unwrap();
    assert_eq!(q.name, "twice");
    assert!(parse_symbol_info("Summary: x\nSummary:   ", 1, None).is_none());
}
