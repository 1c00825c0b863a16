use rigela::debounce::DebounceGuard;
use rigela::ime::{
    explanation, parse_word_line, parse_words, read_candidates, trim_end, CandidateHeader,
    CandidateList, REPEAT_WINDOW,
};

fn candidates(selection: u32, list: &[&str]) -> CandidateList {
    CandidateList { selection, page_start: 0, list: list.iter().map(|s| s.to_string()).collect() }
}

#[test]
fn trim_end_takes_white_space_from_the_end_only() {
    assert_eq!(trim_end("abc  \t\r\n"), "abc");
    assert_eq!(trim_end("  a b "), "  a b");
    assert_eq!(trim_end("\u{3000}x\u{3000}\u{a0}\u{2003}"), "\u{3000}x");
    assert_eq!(trim_end(" \n "), "");
    assert_eq!(trim_end(""), "");
    assert_eq!(trim_end("x\u{200b}"), "x\u{200b}");
}

#[test]
fn candidate_is_spoken_once_within_the_window() {
    let mut guard = DebounceGuard::new();
    let list = candidates(1, &["one", "two  ", "three"]);
    assert!(list.is_valid());
    assert_eq!(REPEAT_WINDOW, 100);
    assert_eq!(list.to_speak(&mut guard, 1_000), Some("two".to_string()));
    assert_eq!(list.to_speak(&mut guard, 1_100), None);
    assert_eq!(guard.last_seen("two"), Some(1_000));
    assert_eq!(list.to_speak(&mut guard, 1_101), Some("two".to_string()));
    let other = candidates(2, &["one", "two", "three"]);
    assert_eq!(other.to_speak(&mut guard, 1_102), Some("three".to_string()));
}

#[test]
fn empty_candidate_is_not_spoken() {
    let mut guard = DebounceGuard::new();
    let list = candidates(0, &[" \t", "x"]);
    assert_eq!(list.to_speak(&mut guard, 5), None);
    assert_eq!(guard.len(), 0);
    assert!(!candidates(2, &["a", "b"]).is_valid());
    assert!(!candidates(0, &[]).is_valid());
}

#[test]
fn word_lines() {
    let line = |text: &str| parse_word_line(&text.chars().collect());
    assert_eq!(line("a=b"), Some(("a".to_string(), "b".to_string())));
    assert_eq!(line("a=b=c"), Some(("a".to_string(), "b".to_string())));
    assert_eq!(line("=b"), Some(("".to_string(), "b".to_string())));
    assert_eq!(line("a="), Some(("a".to_string(), "".to_string())));
    assert_eq!(line("="), Some(("".to_string(), "".to_string())));
    assert_eq!(line("ab"), None);
    assert_eq!(line(""), None);
}

#[test]
fn words_are_read_line_by_line() {
    let words = parse_words("a=one\r\nb=two\nc=three=more\na=again").unwrap();
    assert_eq!(words.len(), 3);
    assert_eq!(words.get("a"), Some(&"again".to_string()));
    assert_eq!(words.get("b"), Some(&"two".to_string()));
    assert_eq!(words.get("c"), Some(&"three".to_string()));
    assert_eq!(words.get("d"), None);
    let words = parse_words("a=one\r").unwrap();
    assert_eq!(words.get("a"), Some(&"one\r".to_string()));
    let words = parse_words("a=one\r\n").unwrap();
    assert_eq!(words.get("a"), Some(&"one".to_string()));
    assert_eq!(parse_words("").unwrap().len(), 0);
    assert!(parse_words("a=one\n\nb=two").is_none());
    assert!(parse_words("\n").is_none());
    assert!(parse_words("a=one\nb").is_none());
    assert!(parse_words("a\nb=two").is_none());
}

#[test]
fn explanation_follows_a_speech_that_ended() {
    let words = parse_words("a=one\nb=two\n").unwrap();
    assert_eq!(explanation(&words, "a", true), Some(&"one".to_string()));
    assert_eq!(explanation(&words, "a", false), None);
    assert_eq!(explanation(&words, "z", true), None);
}

fn buffer(count: u32, selection: u32, offsets: &[u32], tail: &[u8]) -> Vec<u8> {
    let mut bytes = Vec::new();
    for number in [0u32, 1, count, selection, 2, 9] {
        bytes.extend_from_slice(&number.to_le_bytes());
    }
    for offset in offsets {
        bytes.extend_from_slice(&offset.to_le_bytes());
    }
    bytes.extend_from_slice(tail);
    bytes
}

#[test]
fn candidate_buffer_is_read() {
    let tail = [0x60, 0x4F, 0x7D, 0x59, 0, 0, b'o', 0, b'k', 0, 0, 0, b'x', 0];
    let bytes = buffer(3, 1, &[36, 42, 48], &tail);
    let (head, texts) = read_candidates(&bytes).unwrap();
    let expected = CandidateHeader {
        size: 0,
        style: 1,
        count: 3,
        selection: 1,
        page_start: 2,
        page_size: 9,
    };
    assert_eq!(head, expected);
    assert_eq!(texts, vec![vec![0x4F60, 0x597D], vec![0x6F, 0x6B], vec![0x78]]);
    assert_eq!(String::from_utf16_lossy(&texts[0]), "你好");
}

#[test]
fn candidate_buffer_with_places_off_the_end() {
    let bytes = buffer(3, 0, &[37, 36, 1000], &[b'a', 0]);
    let (_, texts) = read_candidates(&bytes).unwrap();
    assert_eq!(texts, vec![vec![], vec![0x61], vec![]]);
    let bytes = buffer(1, 0, &[u32::MAX], &[]);
    assert_eq!(read_candidates(&bytes).unwrap().1, vec![Vec::<u16>::new()]);
    let (head, texts) = read_candidates(&buffer(0, 7, &[], &[])).unwrap();
    assert_eq!(head.selection, 7);
    assert!(texts.is_empty());
}

#[test]
fn candidate_buffer_that_is_too_short() {
    assert_eq!(read_candidates(&Vec::new()), None);
    assert_eq!(read_candidates(&vec![0u8; 23]), None);
    assert_eq!(read_candidates(&buffer(2, 0, &[32], &[0, 0, 0])), None);
    assert_eq!(read_candidates(&buffer(u32::MAX, 0, &[], &[])), None);
    assert!(read_candidates(&buffer(2, 0, &[32, 32], &[])).is_some());
}
