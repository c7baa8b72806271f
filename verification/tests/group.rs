use yew_unocss_transformer::expand::{expand_body, expand_group, expand_member, marks_group};
use yew_unocss_transformer::group::{find_group, GroupMatch, GROUP_PATTERN};

fn parts(before: &str, whole: &str, prefix: &str, separator: &str, body: &str, after: &str) -> GroupMatch {
    GroupMatch {
        before: before.to_string(),
        whole: whole.to_string(),
        prefix: prefix.to_string(),
        separator: separator.to_string(),
        body: body.to_string(),
        after: after.to_string(),
    }
}

fn assert_parts(found: &GroupMatch, expected: &GroupMatch) {
    assert_eq!(found.before, expected.before);
    assert_eq!(found.whole, expected.whole);
    assert_eq!(found.prefix, expected.prefix);
    assert_eq!(found.separator, expected.separator);
    assert_eq!(found.body, expected.body);
    assert_eq!(found.after, expected.after);
}

#[test]
fn pattern_compiles() {
    assert!(regex::Regex::new(GROUP_PATTERN).is_ok());
}

#[test]
fn find_group_cuts_the_text() {
    let found = find_group("a text-(red sm) b").unwrap();
    assert_parts(&found, &parts("a ", "text-(red sm)", "text", "-", "red sm", " b"));
}

#[test]
fn find_group_takes_the_leftmost() {
    let found = find_group("x-(y) z:(w)").unwrap();
    assert_parts(&found, &parts("", "x-(y)", "x", "-", "y", " z:(w)"));
}

#[test]
fn find_group_takes_the_innermost_of_a_nest() {
    let found = find_group("placeholder:(italic text-(red sm))").unwrap();
    assert_parts(
        &found,
        &parts("placeholder:(italic ", "text-(red sm)", "text", "-", "red sm", ")"),
    );
}

#[test]
fn find_group_keeps_the_prefix_short() {
    let found = find_group("a:b-(c)").unwrap();
    assert_parts(&found, &parts("", "a:b-(c)", "a:b", "-", "c", ""));
    let found = find_group("a-(b)-(c)").unwrap();
    assert_parts(&found, &parts("", "a-(b)", "a", "-", "b", "-(c)"));
}

#[test]
fn find_group_counts_in_characters() {
    let found = find_group("é ü-(ß) ñ").unwrap();
    assert_parts(&found, &parts("é ", "ü-(ß)", "ü", "-", "ß", " ñ"));
}

#[test]
fn find_group_finds_nothing() {
    assert!(find_group("").is_none());
    assert!(find_group("text-red").is_none());
    assert!(find_group("text.(red)").is_none());
    assert!(find_group("-(red)").is_none());
    assert!(find_group("text-(a(b)").is_none());
}

#[test]
fn find_group_with_empty_body() {
    let found = find_group("text-()").unwrap();
    assert_parts(&found, &parts("", "text-()", "text", "-", "", ""));
}

#[test]
fn find_group_with_brackets() {
    let found = find_group("[&>p]:(m-1)").unwrap();
    assert_parts(&found, &parts("", "[&>p]:(m-1)", "[&>p]", ":", "m-1", ""));
    let found = find_group("bg-(x [url(a)] y)").unwrap();
    assert_parts(&found, &parts("", "bg-(x [url(a)] y)", "bg", "-", "x [url(a)] y", ""));
}

#[test]
fn expand_member_plain() {
    assert_eq!(expand_member("text", "-", "red"), "text-red");
    assert_eq!(expand_member("hover", ":", "underline"), "hover:underline");
}

#[test]
fn expand_member_placeholder() {
    assert_eq!(expand_member("text", "-", "~"), "text");
    assert_eq!(expand_member("text", "-", "~~"), "text-~~");
    assert_eq!(expand_member("text", "-", "!~"), "!text-~");
}

#[test]
fn expand_member_importance() {
    assert_eq!(expand_member("text", "-", "!sm"), "!text-sm");
    assert_eq!(expand_member("text", "-", "!"), "!text-");
    assert_eq!(expand_member("text", "-", "!!x"), "!text-!x");
    assert_eq!(expand_member("text", "-", "s!m"), "text-s!m");
}

#[test]
fn expand_member_takes_the_prefix_literally() {
    assert_eq!(expand_member("[$1]", ":", "a"), "[$1]:a");
    assert_eq!(expand_member("[$1]", ":", "!a"), "![$1]:a");
}

#[test]
fn expand_member_empty() {
    assert_eq!(expand_member("text", "-", ""), "text-");
    assert_eq!(expand_member("", "", "x"), "x");
}

#[test]
fn expand_body_joins_with_single_spaces() {
    assert_eq!(expand_body("text", "-", "red sm"), "text-red text-sm");
    assert_eq!(expand_body("text", "-", "  red\t\tsm \n ~ !lg "), "text-red text-sm text !text-lg");
    assert_eq!(expand_body("text", "-", ""), "");
    assert_eq!(expand_body("text", "-", " \t "), "");
    assert_eq!(expand_body("é", ":", "ü\u{a0}!ß"), "é:ü !é:ß");
}

#[test]
fn marks_group_accepts_two_separators() {
    assert!(marks_group("-"));
    assert!(marks_group(":"));
    assert!(!marks_group("."));
    assert!(!marks_group(""));
    assert!(!marks_group("--"));
    assert!(!marks_group("-:"));
    assert!(!marks_group("‐"));
}

#[test]
fn expand_group_expands() {
    let m = parts("a ", "text-(red sm)", "text", "-", "red sm", " b");
    assert_eq!(expand_group(&m), "text-red text-sm");
    let m = parts("", "text-()", "text", "-", "", "");
    assert_eq!(expand_group(&m), "");
}

#[test]
fn expand_group_guards_the_separator() {
    let m = parts("a ", "text.(red sm)", "text", ".", "red sm", " b");
    assert_eq!(expand_group(&m), "text.(red sm)");
    let m = parts("", "text(red sm)", "text", "", "red sm", "");
    assert_eq!(expand_group(&m), "text(red sm)");
    let m = parts("", "text->(red)", "text", "->", "red", "");
    assert_eq!(expand_group(&m), "text->(red)");
}

#[test]
fn find_group_parts_make_up_the_text() {
    let texts = ["a text-(red sm) b", "x-(y) z:(w)", "é ü-(ß) ñ", "[&>p]:(m-1)", "text-()"];
    for text in texts {
        let found = find_group(text).unwrap();
        assert_eq!(format!("{}{}{}", found.before, found.whole, found.after), text);
        assert_eq!(
            format!("{}{}({})", found.prefix, found.separator, found.body),
            found.whole
        );
    }
}

#[test]
fn expansion_splits_into_one_name_per_member() {
    let expanded = expand_body("md:hover", ":", " a  !b ~\tc ");
    let names: Vec<&str> = expanded.split_whitespace().collect();
    assert_eq!(names, vec!["md:hover:a", "!md:hover:b", "md:hover", "md:hover:c"]);
}
