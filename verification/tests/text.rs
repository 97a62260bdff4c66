use effectful::text::{characters, same, text_of};

#[test]
fn characters_of_a_text() {
    assert_eq!(characters(""), Vec::<char>::new());
    assert_eq!(characters("a\u{e9}\u{2713}"), vec!['a', '\u{e9}', '\u{2713}']);
}

#[test]
fn text_of_a_range_of_characters() {
    let chars = characters("h\u{e9}llo w\u{2713}rld");
    assert_eq!(text_of(&chars, 0, chars.len()), "h\u{e9}llo w\u{2713}rld");
    assert_eq!(text_of(&chars, 1, 5), "\u{e9}llo");
    assert_eq!(text_of(&chars, 6, 8), "w\u{2713}");
    assert_eq!(text_of(&chars, 3, 3), "");
    assert_eq!(text_of(&chars, 11, 11), "");
}

#[test]
fn same_texts() {
    assert!(same("", ""));
    assert!(same("main", "main"));
    assert!(same("\u{e9}\u{2713}", "\u{e9}\u{2713}"));
    assert!(!same("main", "Main"));
    assert!(!same("main", "mai"));
    assert!(!same("", "a"));
    assert!(!same("\u{e9}", "e"));
}
