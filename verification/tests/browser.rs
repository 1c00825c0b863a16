use rigela::browser::FormBrowser;

#[test]
fn browser_without_controls_has_no_current() {
    let mut browser: FormBrowser<&str> = FormBrowser::new();
    assert_eq!(browser.current(), None);
    browser.next();
    browser.prev();
    assert_eq!(browser.current(), None);
    assert_eq!(browser.len(), 0);
}

#[test]
fn browser_with_one_control_stays() {
    let mut browser = FormBrowser::new();
    browser.add("ok");
    assert_eq!(browser.current(), Some(&"ok"));
    browser.next();
    assert_eq!(browser.current(), Some(&"ok"));
    browser.prev();
    assert_eq!(browser.current(), Some(&"ok"));
}

#[test]
fn browser_walks_round() {
    let mut browser = FormBrowser::new();
    browser.add(10);
    browser.add(20);
    browser.add(30);
    assert_eq!(browser.len(), 3);
    assert_eq!(browser.current(), Some(&10));
    browser.next();
    assert_eq!(browser.current(), Some(&20));
    browser.next();
    assert_eq!(browser.current(), Some(&30));
    browser.next();
    assert_eq!(browser.current(), Some(&10));
    browser.prev();
    assert_eq!(browser.current(), Some(&30));
    browser.prev();
    assert_eq!(browser.current(), Some(&20));
}

#[test]
fn browser_moves_by_more_than_one_place() {
    let mut browser = FormBrowser::new();
    for value in 0..5 {
        browser.add(value);
    }
    browser.next_index(3);
    assert_eq!(browser.current(), Some(&3));
    browser.next_index(2);
    assert_eq!(browser.current(), Some(&0));
    browser.next_index(-7);
    assert_eq!(browser.current(), Some(&4));
    browser.next_index(i32::MIN);
    assert_eq!(browser.current(), Some(&4));
    browser.next_index(i32::MAX);
    assert_eq!(browser.current(), Some(&0));
    browser.next_index(0);
    assert_eq!(browser.current(), Some(&0));
}

#[test]
fn browser_clear_puts_the_focus_back() {
    let mut browser = FormBrowser::new();
    browser.add('a');
    browser.add('b');
    browser.next();
    browser.clear();
    assert_eq!(browser.current(), None);
    browser.add('c');
    browser.add('d');
    assert_eq!(browser.current(), Some(&'c'));
    browser.add('e');
    browser.prev();
    assert_eq!(browser.current(), Some(&'e'));
}

#[test]
fn browser_comes_back_after_once_round() {
    let mut browser = FormBrowser::new();
    for value in 0..7 {
        browser.add(value);
    }
    browser.next_index(3);
    for step in 1..=7 {
        browser.next();
        assert_eq!(browser.current() == Some(&3), step == 7);
    }
    for step in 1..=7 {
        browser.prev();
        assert_eq!(browser.current() == Some(&3), step == 7);
    }
}
