use rigela::chord::Chord;
use rigela::config::{ConfigRoot, HotkeyEntry};
use rigela::resolver::{BindError, Column, RegisterError, Resolver};

fn chord(text: &str) -> Chord {
    Chord::parse(text).unwrap()
}

fn entry(command: &str, chord: &str) -> HotkeyEntry {
    HotkeyEntry { command: command.to_string(), chord: chord.to_string() }
}

#[test]
fn custom_binding_shadows_the_default() {
    let mut resolver = Resolver::new();
    assert_eq!(resolver.register("mouse.click", "click", Some(chord("NumPadDiv"))), Ok(()));
    assert_eq!(resolver.resolve(&chord("NumPadDiv")), Some("mouse.click".to_string()));
    assert_eq!(resolver.bind("mouse.click", chord("Ctrl+M")), Ok(()));
    assert_eq!(resolver.resolve(&chord("M+Ctrl")), Some("mouse.click".to_string()));
    assert_eq!(resolver.resolve(&chord("NumPadDiv")), None);
}

#[test]
fn custom_binding_wins_over_the_default_of_another_command() {
    let mut resolver = Resolver::new();
    resolver.register("program.exit", "exit", Some(chord("Ctrl+Escape"))).unwrap();
    resolver.register("program.time", "time", Some(chord("Ctrl+F12"))).unwrap();
    assert_eq!(resolver.bind("program.time", chord("Ctrl+Escape")), Ok(()));
    assert_eq!(resolver.resolve(&chord("Ctrl+Escape")), Some("program.time".to_string()));
    assert_eq!(resolver.resolve(&chord("Ctrl+F12")), None);
    assert!(resolver.unbind("program.time"));
    assert_eq!(resolver.resolve(&chord("Ctrl+Escape")), Some("program.exit".to_string()));
    assert_eq!(resolver.resolve(&chord("Ctrl+F12")), Some("program.time".to_string()));
}

#[test]
fn resolve_matches_exactly() {
    let mut resolver = Resolver::new();
    resolver.register("a", "", Some(chord("Ctrl+Alt+K"))).unwrap();
    resolver.register("b", "", None).unwrap();
    assert_eq!(resolver.resolve(&chord("Ctrl+K")), None);
    assert_eq!(resolver.resolve(&chord("Ctrl+Alt+Shift+K")), None);
    assert_eq!(resolver.resolve(&chord("K")), None);
    assert_eq!(resolver.resolve(&chord("Alt+K+Ctrl")), Some("a".to_string()));
    assert_eq!(Resolver::new().resolve(&chord("K")), None);
}

#[test]
fn register_refuses_a_second_identifier_only() {
    let mut resolver = Resolver::new();
    assert_eq!(resolver.register("a", "first", Some(chord("Ctrl+K"))), Ok(()));
    assert_eq!(resolver.register("a", "again", None), Err(RegisterError::DuplicateId));
    assert_eq!(resolver.register("a", "again", Some(chord("Ctrl+L"))), Err(RegisterError::DuplicateId));
    assert_eq!(resolver.len(), 1);
    assert_eq!(resolver.register("b", "other", Some(chord("Ctrl+L"))), Ok(()));
    assert_eq!(resolver.register("c", "none", None), Ok(()));
    assert_eq!(resolver.register("d", "none", None), Ok(()));
    assert_eq!(resolver.len(), 4);
    let first = resolver.command(0).unwrap();
    assert_eq!(first.id(), "a");
    assert_eq!(first.doc(), "first");
    assert!(first.default_chord().as_ref().unwrap() == &chord("Ctrl+K"));
    assert!(first.custom_chord().is_none());
    assert!(resolver.command(4).is_none());
    assert_eq!(resolver.find("c"), Some(2));
    assert_eq!(resolver.find("z"), None);
}

#[test]
fn default_chord_of_two_commands_calls_the_one_registered_last() {
    let mut resolver = Resolver::new();
    assert_eq!(resolver.register("a", "", Some(chord("Ctrl+K"))), Ok(()));
    assert_eq!(resolver.register("b", "", Some(chord("K+Ctrl"))), Ok(()));
    assert_eq!(resolver.register("c", "", Some(chord("Ctrl+L"))), Ok(()));
    assert_eq!(resolver.resolve(&chord("Ctrl+K")), Some("b".to_string()));
    resolver.bind("b", chord("Ctrl+M")).unwrap();
    assert_eq!(resolver.resolve(&chord("Ctrl+K")), Some("a".to_string()));
    assert!(resolver.unbind("b"));
    assert_eq!(resolver.resolve(&chord("Ctrl+K")), Some("b".to_string()));
}

#[test]
fn bind_refuses_unknown_commands_only() {
    let mut resolver = Resolver::new();
    resolver.register("a", "", Some(chord("Ctrl+K"))).unwrap();
    resolver.register("b", "", None).unwrap();
    assert_eq!(resolver.bind("z", chord("Ctrl+M")), Err(BindError::UnknownCommand));
    assert!(!resolver.has_custom("a"));
    assert!(!resolver.has_custom("b"));
    assert!(!resolver.has_custom("z"));
    assert_eq!(resolver.len(), 2);
    assert_eq!(resolver.bind("a", chord("Ctrl+M")), Ok(()));
    assert_eq!(resolver.bind("a", chord("Ctrl+N")), Ok(()));
    assert!(resolver.has_custom("a"));
    assert_eq!(resolver.resolve(&chord("Ctrl+N")), Some("a".to_string()));
    assert_eq!(resolver.resolve(&chord("Ctrl+M")), None);
    let a = resolver.command(0).unwrap();
    assert!(a.active_chord().as_ref().unwrap() == &chord("Ctrl+N"));
}

#[test]
fn bind_takes_a_chord_that_another_command_has() {
    let mut resolver = Resolver::new();
    resolver.register("a", "", Some(chord("Ctrl+K"))).unwrap();
    resolver.register("b", "", None).unwrap();
    resolver.register("c", "", None).unwrap();
    assert_eq!(resolver.bind("b", chord("Ctrl+M")), Ok(()));
    assert_eq!(resolver.bind("a", chord("M+Ctrl")), Ok(()));
    assert!(resolver.command(0).unwrap().custom_chord().as_ref().unwrap() == &chord("Ctrl+M"));
    assert!(resolver.command(1).unwrap().custom_chord().as_ref().unwrap() == &chord("Ctrl+M"));
    assert!(resolver.command(2).unwrap().custom_chord().is_none());
    assert_eq!(resolver.resolve(&chord("Ctrl+M")), Some("b".to_string()));
    assert_eq!(resolver.bind("c", chord("Ctrl+M")), Ok(()));
    assert_eq!(resolver.resolve(&chord("Ctrl+M")), Some("c".to_string()));
    assert!(resolver.unbind("c"));
    assert!(resolver.unbind("b"));
    assert_eq!(resolver.resolve(&chord("Ctrl+M")), Some("a".to_string()));
    assert_eq!(resolver.resolve(&chord("Ctrl+K")), None);
}

#[test]
fn unbind_brings_the_default_back() {
    let mut resolver = Resolver::new();
    resolver.register("a", "", Some(chord("Ctrl+K"))).unwrap();
    assert!(!resolver.unbind("a"));
    assert!(!resolver.unbind("z"));
    resolver.bind("a", chord("Ctrl+M")).unwrap();
    assert!(resolver.unbind("a"));
    assert!(!resolver.has_custom("a"));
    assert_eq!(resolver.resolve(&chord("Ctrl+K")), Some("a".to_string()));
    assert_eq!(resolver.resolve(&chord("Ctrl+M")), None);
}

#[test]
fn saved_bindings_load_again() {
    let mut resolver = Resolver::new();
    resolver.register("mouse.click", "", Some(chord("NumPadDiv"))).unwrap();
    resolver.register("mouse.read", "", None).unwrap();
    resolver.register("program.exit", "", Some(chord("Ctrl+Escape"))).unwrap();
    resolver.bind("program.exit", chord("Alt+Ctrl+Q")).unwrap();
    resolver.bind("mouse.click", chord("Ctrl+M")).unwrap();
    let config = ConfigRoot::save_bindings(&resolver);
    assert_eq!(config.hotkeys.len(), 2);
    assert_eq!(config.hotkeys[0].command, "mouse.click");
    assert_eq!(config.hotkeys[0].chord, "Ctrl+M");
    assert_eq!(config.hotkeys[1].command, "program.exit");
    assert_eq!(config.hotkeys[1].chord, "Ctrl+Alt+Q");

    let mut fresh = Resolver::new();
    fresh.register("mouse.click", "", Some(chord("NumPadDiv"))).unwrap();
    fresh.register("mouse.read", "", None).unwrap();
    fresh.register("program.exit", "", Some(chord("Ctrl+Escape"))).unwrap();
    assert_eq!(config.load_bindings(&mut fresh), 2);
    assert_eq!(fresh.resolve(&chord("Ctrl+M")), Some("mouse.click".to_string()));
    assert_eq!(fresh.resolve(&chord("Ctrl+Alt+Q")), Some("program.exit".to_string()));
    assert_eq!(fresh.resolve(&chord("NumPadDiv")), None);
    assert_eq!(ConfigRoot::save_bindings(&fresh).hotkeys.len(), 2);
}

#[test]
fn entries_that_cannot_be_bound_are_passed_over() {
    let mut resolver = Resolver::new();
    resolver.register("a", "", Some(chord("Ctrl+K"))).unwrap();
    resolver.register("b", "", None).unwrap();
    let mut config = ConfigRoot::new();
    assert_eq!(config.load_bindings(&mut resolver), 0);
    config.hotkeys.push(entry("a", "Ctrl+Nothing"));
    config.hotkeys.push(entry("gone", "Ctrl+M"));
    config.hotkeys.push(entry("a", "Ctrl+M"));
    config.hotkeys.push(entry("b", ""));
    assert_eq!(config.load_bindings(&mut resolver), 1);
    assert!(resolver.has_custom("a"));
    assert!(!resolver.has_custom("b"));
    assert_eq!(resolver.resolve(&chord("Ctrl+M")), Some("a".to_string()));
}

#[test]
fn entries_with_one_chord_are_all_bound() {
    let mut resolver = Resolver::new();
    resolver.register("a", "", None).unwrap();
    resolver.register("b", "", None).unwrap();
    let mut config = ConfigRoot::new();
    config.hotkeys.push(entry("b", "Ctrl+M"));
    config.hotkeys.push(entry("a", "Ctrl+M"));
    assert_eq!(config.load_bindings(&mut resolver), 2);
    assert!(resolver.has_custom("a"));
    assert!(resolver.has_custom("b"));
    assert_eq!(resolver.resolve(&chord("Ctrl+M")), Some("b".to_string()));
    let kept = ConfigRoot::save_bindings(&resolver);
    assert_eq!(kept.hotkeys.len(), 2);
    assert_eq!(kept.hotkeys[0].command, "a");
    assert_eq!(kept.hotkeys[1].command, "b");
}

#[test]
fn list_shows_the_custom_chord_in_its_own_column() {
    let mut resolver = Resolver::new();
    resolver.register("a", "", Some(chord("K+Ctrl"))).unwrap();
    resolver.register("b", "", None).unwrap();
    assert_eq!(resolver.command(0).unwrap().shown(), ("Ctrl+K".to_string(), Column::Default));
    assert_eq!(resolver.command(1).unwrap().shown(), (String::new(), Column::Default));
    resolver.bind("a", chord("M+Alt")).unwrap();
    resolver.bind("b", chord("F1")).unwrap();
    assert_eq!(resolver.command(0).unwrap().shown(), ("Alt+M".to_string(), Column::Custom));
    assert_eq!(resolver.command(1).unwrap().shown(), ("F1".to_string(), Column::Custom));
}
