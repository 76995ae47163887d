use humsh::input::{Key, KeyHandler, KeyOutcome, Keybind};

fn binds(keys: &[&str]) -> Vec<Keybind> {
    keys.iter().map(|k| Keybind(k.to_string())).collect()
}

#[test]
fn longer_binding_reached_key_by_key() {
    let b = binds(&["ab", "b"]);
    let mut h = KeyHandler::new();
    assert_eq!(h.handle_key(Key::Char('a'), &b), KeyOutcome::Pending);
    assert_eq!(h.prefix(), "a");
    assert_eq!(h.handle_key(Key::Char('b'), &b), KeyOutcome::Run(0));
    assert_eq!(h.prefix(), "");
}

#[test]
fn exact_binding_wins_over_longer_one() {
    let b = binds(&["a", "ab", "b"]);
    let mut h = KeyHandler::new();
    assert_eq!(h.handle_key(Key::Char('a'), &b), KeyOutcome::Run(0));
    assert_eq!(h.handle_key(Key::Char('b'), &b), KeyOutcome::Run(2));
}

#[test]
fn exact_binding_found_after_longer_one() {
    let b = binds(&["ab", "a"]);
    let mut h = KeyHandler::new();
    assert_eq!(h.handle_key(Key::Char('a'), &b), KeyOutcome::Run(1));
}

#[test]
fn unmatched_keys_cleared() {
    let b = binds(&["ab", "a2", "b"]);
    let mut h = KeyHandler::new();
    assert_eq!(h.handle_key(Key::Char('a'), &b), KeyOutcome::Pending);
    assert_eq!(h.handle_key(Key::Char('c'), &b), KeyOutcome::NoMatch);
    assert_eq!(h.prefix(), "");
    assert_eq!(h.handle_key(Key::Char('a'), &b), KeyOutcome::Pending);
    assert_eq!(h.handle_key(Key::Char('b'), &b), KeyOutcome::Run(0));

    let b = binds(&["a", "ab", "b"]);
    let mut h = KeyHandler::new();
    assert_eq!(h.handle_key(Key::Char('c'), &b), KeyOutcome::NoMatch);
    assert_eq!(h.handle_key(Key::Char('a'), &b), KeyOutcome::Run(0));
}

#[test]
fn reserved_keys() {
    let b = binds(&["`", "x"]);
    let mut h = KeyHandler::new();
    assert_eq!(h.handle_key(Key::Char('x'), &binds(&["xy"])), KeyOutcome::Pending);
    assert_eq!(h.handle_key(Key::Char('`'), &b), KeyOutcome::ToggleCommand);
    assert_eq!(h.prefix(), "");
    assert_eq!(h.handle_key(Key::Esc, &b), KeyOutcome::Escape);
    assert_eq!(h.handle_key(Key::F(9), &b), KeyOutcome::Escape);
    assert_eq!(h.handle_key(Key::F(2), &b), KeyOutcome::Ignored);
    assert_eq!(h.handle_key(Key::Other, &b), KeyOutcome::Ignored);
    h.reset();
    assert_eq!(h.prefix(), "");
}

#[test]
fn prefix_keeps_unicode() {
    let b = binds(&["éé"]);
    let mut h = KeyHandler::new();
    assert_eq!(h.handle_key(Key::Char('é'), &b), KeyOutcome::Pending);
    assert_eq!(h.prefix(), "é");
    assert_eq!(h.handle_key(Key::Char('é'), &b), KeyOutcome::Run(0));
}
