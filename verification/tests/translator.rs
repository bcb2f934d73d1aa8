use memoleak::key::{translate_to_key, Key, KeyCode, Modifiers};

fn no_mods() -> Modifiers {
    Modifiers { shift: false, alt: false, ctrl: false }
}

fn token_of(code: KeyCode, mods: Modifiers) -> String {
    let key: Key = translate_to_key(code, mods).expect("expected a mapped key");
    key.token().iter().collect()
}

#[test]
fn plain_letter_maps_to_itself() {
    assert_eq!(token_of(KeyCode::Char('a'), no_mods()), "a");
    assert_eq!(token_of(KeyCode::Char('Z'), no_mods()), "Z");
    assert_eq!(token_of(KeyCode::Char('7'), no_mods()), "7");
    assert_eq!(token_of(KeyCode::Char(';'), no_mods()), ";");
}

#[test]
fn named_keys_are_bracketed() {
    assert_eq!(token_of(KeyCode::Backspace, no_mods()), "<BS>");
    assert_eq!(token_of(KeyCode::Tab, no_mods()), "<TAB>");
    assert_eq!(token_of(KeyCode::Enter, no_mods()), "<ENTER>");
    assert_eq!(token_of(KeyCode::Esc, no_mods()), "<ESC>");
    assert_eq!(token_of(KeyCode::Delete, no_mods()), "<DEL>");
    assert_eq!(token_of(KeyCode::Char(' '), no_mods()), "<SPACE>");
    assert_eq!(token_of(KeyCode::Char('<'), no_mods()), "<lt>");
}

#[test]
fn shift_marks_only_non_uppercase_tokens() {
    let shift = Modifiers { shift: true, alt: false, ctrl: false };
    assert_eq!(token_of(KeyCode::Char('a'), shift), "<s-a>");
    assert_eq!(token_of(KeyCode::Char('A'), shift), "A");
    assert_eq!(token_of(KeyCode::Char('1'), shift), "<s-1>");
    assert_eq!(token_of(KeyCode::Tab, shift), "<s-TAB>");
}

#[test]
fn modifier_priority_applies_one_marker() {
    let all = Modifiers { shift: true, alt: true, ctrl: true };
    assert_eq!(token_of(KeyCode::Char('a'), all), "<s-a>");
    // An uppercase letter never takes the shift marker, so alt wins next.
    assert_eq!(token_of(KeyCode::Char('A'), all), "<a-A>");
    let alt_ctrl = Modifiers { shift: false, alt: true, ctrl: true };
    assert_eq!(token_of(KeyCode::Char('x'), alt_ctrl), "<a-x>");
    let ctrl = Modifiers { shift: false, alt: false, ctrl: true };
    assert_eq!(token_of(KeyCode::Char('x'), ctrl), "<c-x>");
    assert_eq!(token_of(KeyCode::Backspace, ctrl), "<c-BS>");
}

#[test]
fn unmapped_codes_are_dropped() {
    assert!(translate_to_key(KeyCode::Other, no_mods()).is_none());
    assert!(translate_to_key(KeyCode::Char('\u{e9}'), no_mods()).is_none());
    assert!(translate_to_key(KeyCode::Char('\n'), no_mods()).is_none());
}

#[test]
fn translation_is_deterministic() {
    for _ in 0..3 {
        let a = translate_to_key(KeyCode::Char('q'), no_mods()).unwrap();
        let b = translate_to_key(KeyCode::Char('q'), no_mods()).unwrap();
        assert!(a.same(&b));
        assert_eq!(a.token(), b.token());
    }
}

#[test]
fn token_equality_distinguishes_tokens() {
    let a = translate_to_key(KeyCode::Char('a'), no_mods()).unwrap();
    let b = translate_to_key(KeyCode::Char('b'), no_mods()).unwrap();
    assert!(!a.same(&b));
}
