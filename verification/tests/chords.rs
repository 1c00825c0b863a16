use rigela::chord::Chord;
use rigela::key::KeyId;

fn plain(code: u32) -> KeyId {
    KeyId::new(code, false)
}

#[test]
fn chord_text_lists_modifiers_first() {
    let chord = Chord::from_keys(&vec![plain(0x4B), plain(0x12), plain(0x11)]).unwrap();
    assert_eq!(chord.to_string(), "Ctrl+Alt+K");
}

#[test]
fn chord_text_orders_ctrl_alt_shift_win() {
    let keys = vec![
        KeyId::new(0x5B, true),
        plain(0x10),
        plain(0x41),
        plain(0x12),
        plain(0x11),
        plain(0x31),
    ];
    let chord = Chord::from_keys(&keys).unwrap();
    assert_eq!(chord.to_string(), "Ctrl+Alt+Shift+Win+1+A");
}

#[test]
fn chord_text_does_not_depend_on_press_order() {
    let a = Chord::from_keys(&vec![plain(0x11), plain(0x4D)]).unwrap();
    let b = Chord::from_keys(&vec![plain(0x4D), plain(0x11), plain(0x4D)]).unwrap();
    assert_eq!(a.to_string(), "Ctrl+M");
    assert_eq!(b.to_string(), "Ctrl+M");
    assert!(a == b);
    assert!(a.same_as(&b));
    assert_eq!(b.len(), 2);
}

#[test]
fn chord_of_no_keys_does_not_exist() {
    assert!(Chord::from_keys(&Vec::new()).is_none());
}

#[test]
fn chord_single_and_with() {
    let chord = Chord::single(plain(0x4B));
    assert_eq!(chord.len(), 1);
    assert_eq!(chord.to_string(), "K");
    let chord = chord.with(plain(0x11)).with(plain(0x4B));
    assert_eq!(chord.len(), 2);
    assert!(chord.contains(plain(0x11)));
    assert!(chord.contains(plain(0x4B)));
    assert!(!chord.contains(KeyId::new(0x11, true)));
    assert_eq!(chord.keys(), vec![plain(0x11), plain(0x4B)]);
    let copy = chord.clone();
    assert!(copy == chord);
}

#[test]
fn chord_extended_flag_tells_keys_apart() {
    let enter = Chord::single(plain(0x0D));
    let numpad_enter = Chord::single(KeyId::new(0x0D, true));
    assert!(enter != numpad_enter);
    assert_eq!(enter.to_string(), "Enter");
    assert_eq!(numpad_enter.to_string(), "NumPadEnter");
    let both = enter.with(KeyId::new(0x0D, true));
    assert_eq!(both.to_string(), "Enter+NumPadEnter");
}

#[test]
fn chord_parse_reads_any_order() {
    let chord = Chord::parse("K+Ctrl+Alt").unwrap();
    assert_eq!(chord.to_string(), "Ctrl+Alt+K");
    assert!(chord == Chord::from_keys(&vec![plain(0x11), plain(0x12), plain(0x4B)]).unwrap());
    let twice = Chord::parse("K+K+Ctrl").unwrap();
    assert_eq!(twice.to_string(), "Ctrl+K");
}

#[test]
fn chord_parse_rejects_what_is_no_key_name() {
    assert!(Chord::parse("Ctrl+Foo").is_none());
    assert!(Chord::parse("").is_none());
    assert!(Chord::parse("Ctrl+").is_none());
    assert!(Chord::parse("+Ctrl").is_none());
    assert!(Chord::parse("Ctrl++K").is_none());
    assert!(Chord::parse("ctrl").is_none());
    assert!(Chord::parse("Ctrl + K").is_none());
    assert!(Chord::parse("Vk65").is_none());
    assert!(Chord::parse("F01").is_none());
    assert!(Chord::parse("F25").is_none());
    assert!(Chord::parse("F0").is_none());
    assert!(Chord::parse("NumPad10").is_none());
    assert!(Chord::parse("é").is_none());
}

#[test]
fn chord_round_trips_through_its_text() {
    let mut keys: Vec<KeyId> = Vec::new();
    for code in 0u32..=0x100 {
        keys.push(KeyId::new(code, false));
        keys.push(KeyId::new(code, true));
    }
    for key in &keys {
        let single = Chord::single(*key);
        let text = single.to_string();
        let back = Chord::parse(&text).unwrap();
        assert!(back == single, "{}", text);
        assert_eq!(back.to_string(), text);
    }
    let all = Chord::from_keys(&keys).unwrap();
    assert_eq!(all.len(), keys.len());
    let text = all.to_string();
    let back = Chord::parse(&text).unwrap();
    assert!(back == all);
    assert_eq!(back.to_string(), text);
}

#[test]
fn key_names_of_the_table_and_the_families() {
    assert_eq!(plain(0x11).name(), "Ctrl");
    assert_eq!(plain(0xA2).name(), "LCtrl");
    assert_eq!(KeyId::new(0xA3, true).name(), "RCtrl");
    assert_eq!(plain(0x1B).name(), "Escape");
    assert_eq!(plain(0x0D).name(), "Enter");
    assert_eq!(plain(0x41).name(), "A");
    assert_eq!(plain(0x5A).name(), "Z");
    assert_eq!(plain(0x30).name(), "0");
    assert_eq!(plain(0x39).name(), "9");
    assert_eq!(plain(0x70).name(), "F1");
    assert_eq!(plain(0x7B).name(), "F12");
    assert_eq!(plain(0x87).name(), "F24");
    assert_eq!(plain(0x60).name(), "NumPad0");
    assert_eq!(plain(0x65).name(), "NumPad5");
    assert_eq!(plain(0x69).name(), "NumPad9");
    assert_eq!(KeyId::new(0x6F, true).name(), "NumPadDiv");
    assert_eq!(plain(0x6A).name(), "NumPadMul");
}

#[test]
fn key_without_a_name_falls_back_to_its_code() {
    assert_eq!(plain(0x6F).name(), "Vk111");
    assert_eq!(plain(0).name(), "Vk0");
    assert_eq!(plain(0xFF).name(), "Vk255");
    assert_eq!(KeyId::new(0x41, true).name(), "Ext65");
    assert_eq!(KeyId::new(0x70, true).name(), "Ext112");
    assert_eq!(KeyId::new(u32::MAX, true).name(), "Ext4294967295");
    assert_eq!(KeyId::new(u32::MAX, false).name(), "Vk4294967295");
    let chord = Chord::from_keys(&vec![plain(0xFF), KeyId::new(0xE8, true)]).unwrap();
    assert_eq!(chord.to_string(), "Ext232+Vk255");
    assert!(Chord::parse("Ext232+Vk255").unwrap() == chord);
}

#[test]
fn key_parse_reads_exact_names_only() {
    assert_eq!(KeyId::parse("Ctrl"), Some(plain(0x11)));
    assert_eq!(KeyId::parse("NumPadDiv"), Some(KeyId::new(0x6F, true)));
    assert_eq!(KeyId::parse("M"), Some(plain(0x4D)));
    assert_eq!(KeyId::parse("7"), Some(plain(0x37)));
    assert_eq!(KeyId::parse("F24"), Some(plain(0x87)));
    assert_eq!(KeyId::parse("NumPad3"), Some(plain(0x63)));
    assert_eq!(KeyId::parse("Vk111"), Some(plain(0x6F)));
    assert_eq!(KeyId::parse("Ext4294967295"), Some(KeyId::new(u32::MAX, true)));
    assert_eq!(KeyId::parse("Ext4294967296"), None);
    assert_eq!(KeyId::parse("Vk0111"), None);
    assert_eq!(KeyId::parse("Vk17"), None);
    assert_eq!(KeyId::parse("Ext13"), None);
    assert_eq!(KeyId::parse("m"), None);
    assert_eq!(KeyId::parse(""), None);
    assert_eq!(KeyId::parse("Vk"), None);
    assert_eq!(KeyId::parse("Ctrl+K"), None);
}

#[test]
fn key_classes() {
    assert!(plain(0x1B).cancels());
    assert!(plain(0x0D).cancels());
    assert!(!KeyId::new(0x0D, true).cancels());
    assert!(!KeyId::new(0x1B, true).cancels());
    assert!(!plain(0x4B).cancels());
    assert!(plain(0x11).modifier());
    assert!(plain(0xA5).modifier());
    assert!(KeyId::new(0x5C, true).modifier());
    assert!(!plain(0x4B).modifier());
    assert!(plain(0x11).order() < plain(0x12).order());
    assert!(plain(0x12).order() < plain(0x10).order());
    assert!(plain(0x10).order() < KeyId::new(0x5B, true).order());
    assert!(KeyId::new(0x5B, true).order() < plain(0x08).order());
    assert!(plain(0x41).order() < KeyId::new(0x41, true).order());
    assert_eq!(plain(0x41).order(), 4 * 0x2_0000_0000 + 0x41 * 2);
}

#[test]
fn chord_of_modifiers_only() {
    assert!(Chord::parse("Ctrl").unwrap().is_modifiers_only());
    assert!(Chord::parse("Ctrl+RAlt+LShift+Win").unwrap().is_modifiers_only());
    assert!(!Chord::parse("Ctrl+K").unwrap().is_modifiers_only());
    assert!(!Chord::parse("Escape").unwrap().is_modifiers_only());
}
