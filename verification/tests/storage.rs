use bind::storage::Keybindings;

#[test]
fn missing_actions_fall_back_to_defaults() {
    let mut kb = Keybindings::new();
    kb.insert("quit".to_string(), "x".to_string());
    assert_eq!(kb.get("quit"), Some("x"));
    assert_eq!(kb.get("continue"), Some("c"));
    assert_eq!(kb.get("toggle-breakpoint"), Some("b"));
    assert_eq!(kb.get("no-such-action"), None);
    assert_eq!(Keybindings::defaults().get("help"), Some("?"));
}
