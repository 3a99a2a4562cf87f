use vueko::text::{char_is_whitespace, join, same_text, to_chars, words};

fn strings(items: &[&str]) -> Vec<String> {
    items.iter().map(|s| s.to_string()).collect()
}

#[test]
fn whitespace_agrees_with_the_standard_library_on_every_char() {
    let mut code: u32 = 0;
    while code <= 0x10ffff {
        if let Some(c) = char::from_u32(code) {
            assert_eq!(char_is_whitespace(c), c.is_whitespace(), "U+{:04X}", code);
        }
        code += 1;
    }
}

#[test]
fn whitespace_knows_the_named_characters() {
    assert!(char_is_whitespace(' '));
    assert!(char_is_whitespace('\t'));
    assert!(char_is_whitespace('\n'));
    assert!(char_is_whitespace('\u{00a0}'));
    assert!(char_is_whitespace('\u{3000}'));
    assert!(!char_is_whitespace('a'));
    assert!(!char_is_whitespace('!'));
    assert!(!char_is_whitespace('\u{200b}'));
}

#[test]
fn to_chars_keeps_order() {
    assert_eq!(to_chars("a\u{e9}z"), vec!['a', '\u{e9}', 'z']);
    assert_eq!(to_chars(""), Vec::<char>::new());
}

#[test]
fn same_text_compares_by_content() {
    assert!(same_text("command", "command"));
    assert!(!same_text("command", "Command"));
    assert!(!same_text("command", "commands"));
    assert!(same_text("", ""));
}

#[test]
fn words_of_plain_text() {
    assert_eq!(words("v command add greet hello there"), strings(&["v", "command", "add", "greet", "hello", "there"]));
}

#[test]
fn words_skip_runs_of_whitespace() {
    assert_eq!(words("  a \t b\u{3000}\u{3000}c\n"), strings(&["a", "b", "c"]));
}

#[test]
fn words_of_nothing() {
    assert_eq!(words(""), Vec::<String>::new());
    assert_eq!(words(" \t \n"), Vec::<String>::new());
}

#[test]
fn words_agree_with_the_standard_library() {
    let samples = [
        "",
        "one",
        " one",
        "one ",
        "one two",
        "one  two",
        "\tone\ntwo\r\nthree",
        "caf\u{e9} \u{1f600} x",
        "a\u{2003}b\u{0085}c\u{1680}d",
        "!v command add greet   hello   there  ",
    ];
    for sample in samples {
        let expected: Vec<String> = sample.split_whitespace().map(|s| s.to_string()).collect();
        assert_eq!(words(sample), expected);
    }
}

#[test]
fn join_puts_single_spaces() {
    assert_eq!(join(&strings(&["hello", "there"])), "hello there");
    assert_eq!(join(&strings(&["one"])), "one");
    assert_eq!(join(&strings(&[])), "");
    assert_eq!(join(&strings(&["a", "b", "c"])), "a b c");
}

#[test]
fn join_after_words_collapses_whitespace() {
    assert_eq!(join(&words("hello \t  there   friend")), "hello there friend");
}

#[test]
fn words_undo_join() {
    let samples: [&[&str]; 4] = [&[], &["one"], &["hello", "there"], &["a", "b\u{e9}", "!c", "d"]];
    for sample in samples {
        let list = strings(sample);
        assert_eq!(words(&join(&list)), list);
    }
}
