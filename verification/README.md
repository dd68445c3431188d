# bind

A terminal-native debugger, tracer and runtime-analysis library, verified
with Verus.

- `src/` is the library. Its functions are verified against their
  `requires`/`ensures`, except a few trusted wrappers marked
  `#[verifier::external_body]` that call outside code (the system clock,
  the `rustc-demangle`, `cpp_demangle` and `chrono` crates, and std's
  string formatting); their contracts are assumed. It covers the event and register model (`bind_core`), the
  trace ring and filters (`trace`), symbol demangling and lookup
  (`symbols`), the analyzers (`analysis`), the debugger worker and its
  simulated backend (`debugger`), the LLDB driver protocol and backend (`lldb`), the
  TUI state machine and views (`tui`), configuration (`storage`), the
  diagnostic script (`diag`), and the tracer (`tra86`: its model, its
  backends and their request logs, the worker runtime, the CLI shell and
  the LLDB command backend).
- `app/` is the program around it: argument parsing, terminal drawing,
  processes, files and JSON.
- `tests/` exercises the library on concrete values.
