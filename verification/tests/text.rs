use rigela::key::split_key_state;
use rigela::text::{chars_of, push_decimal, read_number, split_text, string_of};

fn letters(text: &str) -> Vec<char> {
    text.chars().collect()
}

#[test]
fn decimal_numerals() {
    let mut out = letters("n=");
    push_decimal(&mut out, 0);
    assert_eq!(string_of(&out), "n=0");
    let mut out = Vec::new();
    push_decimal(&mut out, 7);
    push_decimal(&mut out, 10);
    push_decimal(&mut out, 4_294_967_295);
    assert_eq!(string_of(&out), "7104294967295");
}

#[test]
fn numbers_are_read_from_a_place_on() {
    assert_eq!(read_number(&letters("F12"), 1), Some(12));
    assert_eq!(read_number(&letters("F12"), 0), None);
    assert_eq!(read_number(&letters("F12"), 3), None);
    assert_eq!(read_number(&letters("F12"), 4), None);
    assert_eq!(read_number(&letters("12"), usize::MAX), None);
    assert_eq!(read_number(&letters("007"), 0), Some(7));
    assert_eq!(read_number(&letters("4294967295"), 0), Some(u32::MAX));
    assert_eq!(read_number(&letters("4294967296"), 0), None);
    assert_eq!(read_number(&letters("9999999999"), 0), None);
    assert_eq!(read_number(&letters("00000000001"), 0), None);
    assert_eq!(read_number(&letters("0000000001"), 0), Some(1));
    assert_eq!(read_number(&letters("12a"), 0), None);
    assert_eq!(read_number(&letters("-1"), 0), None);
    assert_eq!(read_number(&letters("١٢"), 0), None);
    assert_eq!(read_number(&letters(""), 0), None);
}

#[test]
fn text_is_cut_at_each_separator() {
    let pieces = |text: &str| -> Vec<String> {
        split_text(&letters(text), '+').iter().map(string_of).collect()
    };
    assert_eq!(pieces("Ctrl+Alt+K"), vec!["Ctrl", "Alt", "K"]);
    assert_eq!(pieces("K"), vec!["K"]);
    assert_eq!(pieces(""), vec![""]);
    assert_eq!(pieces("+"), vec!["", ""]);
    assert_eq!(pieces("a++b+"), vec!["a", "", "b", ""]);
}

#[test]
fn characters_and_strings() {
    assert_eq!(chars_of("Ctrl+é"), vec!['C', 't', 'r', 'l', '+', 'é']);
    assert_eq!(chars_of(""), Vec::<char>::new());
    assert_eq!(string_of(&vec!['N', 'ü', '1']), "Nü1");
    assert_eq!(string_of(&Vec::new()), "");
}

#[test]
fn key_state_words() {
    assert_eq!(split_key_state(0), (false, false));
    assert_eq!(split_key_state(1), (false, true));
    assert_eq!(split_key_state(0x00FF), (false, true));
    assert_eq!(split_key_state(0x0100), (true, false));
    assert_eq!(split_key_state(i16::MIN), (true, false));
    assert_eq!(split_key_state(-127), (true, true));
    assert_eq!(split_key_state(-1), (true, true));
    assert_eq!(split_key_state(-256), (true, false));
    assert_eq!(split_key_state(i16::MAX), (true, true));
}
