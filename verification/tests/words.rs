use yew_unocss_transformer::words::{is_space_char, join_words, split_words};

fn strings(items: &[&str]) -> Vec<String> {
    items.iter().map(|s| s.to_string()).collect()
}

#[test]
fn is_space_char_knows_unicode_whitespace() {
    let spaces = [
        '\t', '\n', '\u{b}', '\u{c}', '\r', ' ', '\u{85}', '\u{a0}', '\u{1680}', '\u{2000}',
        '\u{2005}', '\u{200a}', '\u{2028}', '\u{2029}', '\u{202f}', '\u{205f}', '\u{3000}',
    ];
    for c in spaces {
        assert!(is_space_char(c));
    }
    let others = ['a', '-', '\u{8}', '\u{e}', '\u{1f}', '!', '\u{84}', '\u{86}', '\u{200b}', '\u{1fff}', '\u{feff}', '\u{3001}'];
    for c in others {
        assert!(!is_space_char(c));
    }
}

#[test]
fn is_space_char_agrees_with_std() {
    let mut code: u32 = 0;
    while code <= 0x3100 {
        if let Some(c) = char::from_u32(code) {
            assert_eq!(is_space_char(c), c.is_whitespace());
        }
        code += 1;
    }
}

#[test]
fn split_words_on_runs_of_whitespace() {
    assert_eq!(split_words("red sm"), strings(&["red", "sm"]));
    assert_eq!(split_words("  red \t\n sm  "), strings(&["red", "sm"]));
    assert_eq!(split_words("one"), strings(&["one"]));
    assert_eq!(split_words("a\u{3000}b\u{a0}c"), strings(&["a", "b", "c"]));
}

#[test]
fn split_words_of_nothing() {
    assert!(split_words("").is_empty());
    assert!(split_words(" \t\r\n").is_empty());
}

#[test]
fn split_words_agrees_with_std() {
    let texts = ["", " ", "a", " a", "a ", "a b", "a  b", "\ta\u{2003}b c\n", "é ü\u{85}ß"];
    for text in texts {
        let expected: Vec<String> = text.split_whitespace().map(|s| s.to_string()).collect();
        assert_eq!(split_words(text), expected);
    }
}

#[test]
fn join_words_with_single_spaces() {
    assert_eq!(join_words(&strings(&[])), "");
    assert_eq!(join_words(&strings(&["a"])), "a");
    assert_eq!(join_words(&strings(&["a", "b", "c"])), "a b c");
    assert_eq!(join_words(&strings(&["", ""])), " ");
}

#[test]
fn split_undoes_join() {
    let pieces = strings(&["text-red", "!text-sm", "é"]);
    assert_eq!(split_words(&join_words(&pieces)), pieces);
}
