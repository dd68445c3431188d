use bind::bind_core::address::Address;
use bind::symbols::demangle::{demangle, looks_mangled, pick_demangled};
use bind::symbols::index::SymbolIndex;

fn index() -> SymbolIndex {
    let mut idx = SymbolIndex::new();
    idx.insert("main", Address::new(0x1000), 0x20, Some("a.out".to_string()));
    idx.insert("helper", Address::new(0x1020), 0x10, Some("a.out".to_string()));
    idx.insert("_Z3fooi", Address::new(0x1040), 0x10, None);
    idx
}

#[test]
fn plain_names_pass_through() {
    assert_eq!(demangle("main"), "main");
    assert_eq!(demangle("helper"), "helper");
    assert_eq!(demangle(""), "");
}

#[test]
fn cpp_itanium_demangles() {
    assert_eq!(demangle("_Z3fooi"), "foo(int)");
}

#[test]
fn rust_legacy_demangles() {
    let out = demangle("_ZN4core3fmt9Formatter3pad17h0123456789abcdefE");
    assert!(out.contains("core::fmt::Formatter::pad"), "got {out}");
}

#[test]
fn mangled_detection() {
    assert!(looks_mangled("_Z3fooi"));
    assert!(!looks_mangled("main"));
}

#[test]
fn demangle_keeps_plain_names_and_handles_macos_prefix() {
    assert_eq!(demangle("  main  "), "  main  ");
    assert_eq!(demangle("  _Z3fooi "), "foo(int)");
    assert_eq!(demangle("__Z3fooi"), "foo(int)");
    assert!(looks_mangled("  _RNvC3foo3bar"));
    assert!(!looks_mangled("_Xfoo"));
}

#[test]
fn pick_prefers_decoders_in_order() {
    let t: Vec<char> = "_Z3fooi".chars().collect();
    let s = |x: &str| Some(x.to_string());
    assert_eq!(pick_demangled(&t, s("r"), s("c")), s("c"));
    assert_eq!(pick_demangled(&t, s("r"), None), s("r"));
    assert_eq!(pick_demangled(&t, None, None), None);
    let v: Vec<char> = "_Rabc".chars().collect();
    assert_eq!(pick_demangled(&v, s("r"), s("c")), s("r"));
    let p: Vec<char> = "plain".chars().collect();
    assert_eq!(pick_demangled(&p, s("plain"), None), None);
    assert_eq!(pick_demangled(&p, s("other"), None), s("other"));
    assert_eq!(pick_demangled(&[], s("x"), None), None);
}

#[test]
fn resolves_within_range_with_offset() {
    let mut idx = index();
    let s = idx.resolve(Address::new(0x1008)).unwrap();
    assert_eq!(s.name, "main");
    assert_eq!(s.offset, 8);
}

#[test]
fn resolves_and_demangles() {
    let mut idx = index();
    let s = idx.resolve(Address::new(0x1040)).unwrap();
    assert_eq!(s.display(), "foo(int)");
}

#[test]
fn miss_below_all_symbols() {
    let mut idx = index();
    assert!(idx.resolve(Address::new(0x100)).is_none());
}

#[test]
fn miss_past_known_size() {
    let mut idx = index();
    assert!(idx.resolve(Address::new(0x1035)).is_none());
}

#[test]
fn function_at_formats_offset() {
    let mut idx = index();
    assert_eq!(idx.function_at(Address::new(0x1000)).as_deref(), Some("main"));
    assert_eq!(idx.function_at(Address::new(0x1004)).as_deref(), Some("main+0x4"));
}

#[test]
fn insertion_order_does_not_matter_and_first_name_wins() {
    let mut idx = SymbolIndex::new();
    idx.insert("late", Address::new(0x3000), 0, None);
    idx.insert("early", Address::new(0x1000), 0, None);
    idx.insert("early", Address::new(0x2000), 0, None);
    assert_eq!(idx.len(), 3);
    assert!(!idx.is_empty());
    assert_eq!(idx.address_of("early"), Some(Address::new(0x1000)));
    assert_eq!(idx.address_of("missing"), None);
    // Unknown extent: the nearest preceding symbol covers the address.
    let s = idx.resolve(Address::new(0x2fff)).unwrap();
    assert_eq!(s.name, "early");
    assert_eq!(s.start, Some(Address::new(0x2000)));
    assert_eq!(idx.function_at(Address::new(0x3010)).as_deref(), Some("late+0x10"));
}

#[test]
fn display_name_is_memoized_demangle() {
    let mut idx = SymbolIndex::new();
    assert_eq!(idx.display_name("_Z3fooi"), "foo(int)");
    assert_eq!(idx.display_name("_Z3fooi"), "foo(int)");
    assert_eq!(idx.display_name("main"), "main");
    assert!(SymbolIndex::new().is_empty());
}

#[test]
fn history_of_inserts_decides_lookups() {
    let mut idx = SymbolIndex::new();
    idx.insert("b", Address::new(0x2000), 0, None);
    idx.insert("a", Address::new(0x1000), 0x10, None);
    assert!(idx.resolve(Address::new(0x1800)).is_none());
    idx.insert("a", Address::new(0x3000), 0x10, None);
    assert_eq!(idx.address_of("a"), Some(Address::new(0x1000)));
    assert_eq!(idx.address_of("c"), None);
    let s = idx.resolve(Address::new(0x2004)).unwrap();
    assert_eq!(s.name, "b");
    assert_eq!(s.offset, 4);
    assert!(idx.resolve(Address::new(0xfff)).is_none());
}
