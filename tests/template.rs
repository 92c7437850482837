use rehost::table::StringMap;
use rehost::template::{expand, is_name_char, resolve};
use rehost::text::replace_all;

fn vars_of(pairs: &[(&str, &str)]) -> StringMap {
    let mut m = StringMap::new();
    for (k, v) in pairs {
        m.insert(k.to_string(), v.to_string());
    }
    m
}

#[test]
fn replace_all_every_occurrence() {
    assert_eq!(replace_all("abcabc", "b", "XY"), "aXYcaXYc");
}

#[test]
fn replace_all_non_overlapping_left_to_right() {
    assert_eq!(replace_all("aaa", "aa", "b"), "ba");
}

#[test]
fn replace_all_empty_pattern_inserts_everywhere() {
    assert_eq!(replace_all("abc", "", "x"), "xaxbxcx");
    assert_eq!(replace_all("", "", "x"), "x");
}

#[test]
fn replace_all_no_match_keeps_text() {
    assert_eq!(replace_all("hello", "z", "y"), "hello");
}

#[test]
fn plain_template_unchanged() {
    let vars = vars_of(&[("a", "1")]);
    let env = vars_of(&[("A", "2")]);
    assert_eq!(expand("plain text, no braces", &vars, None), "plain text, no braces");
    assert_eq!(expand("plain text, no braces", &vars, Some(&env)), "plain text, no braces");
    assert_eq!(expand("", &vars, None), "");
    assert_eq!(expand("open {a only", &vars, None), "open {a only");
    assert_eq!(expand("close a} only", &vars, None), "close a} only");
}

#[test]
fn placeholder_resolved_from_vars() {
    let vars = vars_of(&[("name", "World")]);
    assert_eq!(expand("Hello {name}!", &vars, None), "Hello World!");
    assert_eq!(expand("x{name}", &vars, None), "xWorld");
}

#[test]
fn placeholder_at_start_is_not_recognised() {
    let vars = vars_of(&[("name", "World")]);
    assert_eq!(expand("{name} here", &vars, None), "{name} here");
}

#[test]
fn adjacent_placeholder_is_not_recognised() {
    let vars = vars_of(&[("a", "1"), ("b", "2")]);
    assert_eq!(expand("x{a}{b}", &vars, None), "x1{b}");
    assert_eq!(expand("x{a} {b}", &vars, None), "x1 2");
}

#[test]
fn escaped_placeholder_is_literal() {
    let vars = vars_of(&[("name", "World")]);
    assert_eq!(expand("x\\{name}", &vars, None), "x{name}");
    assert_eq!(expand("a \\{b\\} c", &vars, None), "a {b} c");
}

#[test]
fn env_takes_precedence_over_vars() {
    let vars = vars_of(&[("host", "from-vars")]);
    let env = vars_of(&[("HOST", "from-env")]);
    assert_eq!(expand("at {host}", &vars, Some(&env)), "at from-env");
    assert_eq!(expand("at {host}", &vars, None), "at from-vars");
}

#[test]
fn env_miss_falls_back_to_vars() {
    let vars = vars_of(&[("port", "8000")]);
    let env = vars_of(&[("HOST", "h")]);
    assert_eq!(expand(":{port}", &vars, Some(&env)), ":8000");
}

#[test]
fn env_lookup_is_by_upper_case_name() {
    let vars = StringMap::new();
    let env = vars_of(&[("host", "lower"), ("HOST", "upper")]);
    assert_eq!(resolve("host", &vars, Some(&env)), Some("upper".to_string()));
}

#[test]
fn unresolved_placeholder_kept_verbatim() {
    let vars = vars_of(&[("a", "1")]);
    let env = vars_of(&[("B", "2")]);
    assert_eq!(expand("x{missing}y", &vars, None), "x{missing}y");
    assert_eq!(expand("x{missing}y", &vars, Some(&env)), "x{missing}y");
}

#[test]
fn empty_name_placeholder() {
    let vars = vars_of(&[("", "E")]);
    assert_eq!(expand("x{}", &vars, None), "xE");
}

#[test]
fn non_word_name_is_not_a_placeholder() {
    let vars = vars_of(&[("a-b", "1")]);
    assert_eq!(expand("x{a-b}", &vars, None), "x{a-b}");
}

#[test]
fn unicode_word_name_is_a_placeholder() {
    let vars = vars_of(&[("caf\u{e9}", "coffee")]);
    assert_eq!(expand("x{caf\u{e9}}", &vars, None), "xcoffee");
    assert!(is_name_char('\u{e9}'));
    assert!(is_name_char('_'));
    assert!(!is_name_char('-'));
    assert!(!is_name_char('}'));
}
