use velo_de::keybind::{find_binding, split_combo, to_lower_keysym, KeyCombo, Modifiers};
use velo_de::model::Direction;
use velo_de::keybind::Dir;

// keysyms as libxkbcommon's table gives them for these names
const KEY_RETURN: u32 = 0xff0d;
const KEY_LEFT: u32 = 0xff51;
const KEY_UPPER_B: u32 = 0x42;
const KEY_B: u32 = 0x62;

/// The keysyms libxkbcommon's case-insensitive lookup gives for the names
/// used here (`0`, `NoSymbol`, for anything else).
fn xkb(name: &str) -> u32 {
    match name.to_ascii_lowercase().as_str() {
        "return" => KEY_RETURN,
        "left" => KEY_LEFT,
        "b" => KEY_B,
        _ => 0,
    }
}

fn lookup(s: &str, keysym: u32) -> Result<KeyCombo, String> {
    let parts = split_combo(s)?;
    KeyCombo::from_lookup(s, &parts, keysym)
}

#[test]
fn parses_simple_combo() {
    let combo = KeyCombo::parse("Super+Return", xkb).unwrap();
    assert!(combo.modifiers.logo);
    assert!(!combo.modifiers.shift);
    assert_eq!(combo.keysym, KEY_RETURN);
}

#[test]
fn parses_multi_modifier_combo() {
    let combo = KeyCombo::parse("Super+Shift+Left", xkb).unwrap();
    assert!(combo.modifiers.logo);
    assert!(combo.modifiers.shift);
    assert_eq!(combo.keysym, KEY_LEFT);
}

#[test]
fn normalizes_letter_case() {
    let lower = KeyCombo::parse("Super+B", xkb).unwrap();
    let upper = KeyCombo::parse("Super+Shift+B", xkb).unwrap();
    // Both should reference the lowercase 'b' keysym; Shift is tracked
    // separately via `modifiers.shift`.
    assert_eq!(lower.keysym, KEY_B);
    assert_eq!(upper.keysym, KEY_B);
    assert!(!lower.modifiers.shift);
    assert!(upper.modifiers.shift);
}

#[test]
fn rejects_unknown_key_and_modifier() {
    assert!(KeyCombo::parse("Super+NotAKey", xkb).is_err());
    assert_eq!(KeyCombo::parse("Super+NotAKey", xkb).unwrap_err(), "unknown key \"NotAKey\" in \"Super+NotAKey\"");
    assert!(KeyCombo::parse("Hyper+Return", xkb).is_err());
}

#[test]
fn an_uppercase_keysym_from_the_lookup_is_lowercased() {
    assert_eq!(lookup("Super+B", KEY_UPPER_B).unwrap().keysym, KEY_B);
    assert_eq!(lookup("Super+Return", KEY_RETURN).unwrap().keysym, KEY_RETURN);
    assert_eq!(split_combo("Super+Shift+Left").unwrap().key, "Left");
}

#[test]
fn error_messages_quote_the_offending_part() {
    assert_eq!(lookup("Super+NotAKey", 0), Err("unknown key \"NotAKey\" in \"Super+NotAKey\"".to_string()));
    assert_eq!(split_combo("Hyper+Return").unwrap_err(), "unknown modifier \"hyper\" in \"Hyper+Return\"");
    assert_eq!(split_combo("").unwrap_err(), "empty key combo: \"\"");
    assert_eq!(split_combo(" + + ").unwrap_err(), "empty key combo: \" + + \"");
}

#[test]
fn modifier_names_are_case_insensitive_and_have_aliases() {
    let p = split_combo(" logo + CONTROL + Mod1 + x ").unwrap();
    assert_eq!(p.modifiers, Modifiers { logo: true, shift: false, ctrl: true, alt: true });
    assert_eq!(p.key, "x");
    let q = split_combo("mod4+ctrl+alt+shift+F1").unwrap();
    assert_eq!(q.modifiers, Modifiers { logo: true, shift: true, ctrl: true, alt: true });
    assert_eq!(q.key, "F1");
}

#[test]
fn empty_pieces_are_skipped() {
    let p = split_combo("Super++Return+").unwrap();
    assert_eq!(p.modifiers, Modifiers { logo: true, ..Default::default() });
    assert_eq!(p.key, "Return");
}

#[test]
fn lower_keysym_only_touches_ascii_capitals() {
    assert_eq!(to_lower_keysym(0x41), 0x61);
    assert_eq!(to_lower_keysym(0x5a), 0x7a);
    assert_eq!(to_lower_keysym(0x40), 0x40);
    assert_eq!(to_lower_keysym(0x5b), 0x5b);
    assert_eq!(to_lower_keysym(KEY_RETURN), KEY_RETURN);
}

#[test]
fn pressed_combo_matches_the_first_binding() {
    let super_b = KeyCombo::parse("Super+b", xkb).unwrap();
    let super_shift_b = KeyCombo::parse("Super+Shift+B", xkb).unwrap();
    let bound = vec![super_shift_b, super_b, super_b];
    let held = Modifiers { logo: true, ..Default::default() };
    // pressing Super+b; the keyboard reports the lowercase keysym
    assert_eq!(find_binding(&bound, KeyCombo::pressed(held, KEY_B)), Some(1));
    // with Shift held the keyboard reports `B`, which is lowercased
    let held_shift = Modifiers { logo: true, shift: true, ..Default::default() };
    assert_eq!(find_binding(&bound, KeyCombo::pressed(held_shift, KEY_UPPER_B)), Some(0));
    assert_eq!(find_binding(&bound, KeyCombo::pressed(Modifiers::default(), KEY_B)), None);
}

#[test]
fn dir_maps_onto_model_directions() {
    assert_eq!(Direction::from(Dir::Left), Direction::Left);
    assert_eq!(Direction::from(Dir::Right), Direction::Right);
    assert_eq!(Direction::from(Dir::Up), Direction::Up);
    assert_eq!(Direction::from(Dir::Down), Direction::Down);
}
