use synapse_cli::db::scan::{
    find_first_comma_outside_string, is_space, match_kw_ci, take_until_matching_paren, QuoteState,
};
use synapse_cli::text::{chars_of, string_of};

fn first_comma(s: &str) -> Option<usize> {
    find_first_comma_outside_string(&chars_of(s))
}

fn until_paren(s: &str) -> (String, usize) {
    let (text, used) = take_until_matching_paren(&chars_of(s));
    (string_of(&text), used)
}

#[test]
fn comma_plain() {
    assert_eq!(first_comma("1, 2"), Some(1));
    assert_eq!(first_comma(",x"), Some(0));
}

#[test]
fn comma_none() {
    assert_eq!(first_comma(""), None);
    assert_eq!(first_comma("abc"), None);
    assert_eq!(first_comma("'a,b'"), None);
    assert_eq!(first_comma("\"a,b\""), None);
}

#[test]
fn comma_behind_single_quoted_literal() {
    assert_eq!(first_comma("'a,b', c"), Some(5));
}

#[test]
fn comma_behind_double_quoted_literal() {
    assert_eq!(first_comma("\"a,b\", c"), Some(5));
}

#[test]
fn quote_of_the_other_kind_does_not_close() {
    assert_eq!(first_comma("'a\",b', c"), Some(6));
    assert_eq!(first_comma("\"a',b\", c"), Some(6));
}

#[test]
fn escaped_quote_does_not_close() {
    // 'a\',b', c
    assert_eq!(first_comma("'a\\',b', c"), Some(7));
}

#[test]
fn two_backslashes_do_not_escape() {
    // 'a\\', c : the second backslash undoes the first, the quote closes
    assert_eq!(first_comma("'a\\\\', c"), Some(5));
}

#[test]
fn escape_lasts_one_character() {
    // \x', c : the backslash is spent on x, the quote opens a literal
    assert_eq!(first_comma("\\x', c"), None);
    // \', c : the quote is escaped, so no literal opens
    assert_eq!(first_comma("\\', c"), Some(2));
}

#[test]
fn offsets_count_characters() {
    assert_eq!(first_comma("é, b"), Some(1));
    assert_eq!(first_comma("'日本,語', x"), Some(6));
}

#[test]
fn paren_plain() {
    assert_eq!(until_paren("a, b) rest"), ("a, b".to_string(), 4));
    assert_eq!(until_paren(")"), (String::new(), 0));
}

#[test]
fn paren_inside_literal_is_skipped() {
    assert_eq!(until_paren("'a)b', c) x"), ("'a)b', c".to_string(), 8));
    assert_eq!(until_paren("\":)\") x"), ("\":)\"".to_string(), 4));
}

#[test]
fn paren_missing_gives_everything() {
    assert_eq!(until_paren("a, b"), ("a, b".to_string(), 4));
    assert_eq!(until_paren("'a)"), ("'a)".to_string(), 3));
    assert_eq!(until_paren(""), (String::new(), 0));
}

#[test]
fn paren_nested_open_is_not_counted() {
    // the scan does not count depth: the first closing parenthesis ends it
    assert_eq!(until_paren("f(x), 2)"), ("f(x".to_string(), 3));
}

#[test]
fn keyword_matches_in_any_case() {
    let text = chars_of("xx InSeRt y");
    let kw = chars_of("insert");
    assert!(match_kw_ci(&text, 3, &kw));
    assert!(!match_kw_ci(&text, 2, &kw));
    assert!(!match_kw_ci(&text, 4, &kw));
}

#[test]
fn keyword_at_the_end_and_beyond() {
    let text = chars_of("values");
    let kw = chars_of("values");
    assert!(match_kw_ci(&text, 0, &kw));
    assert!(!match_kw_ci(&text, 1, &kw));
    assert!(!match_kw_ci(&text, 6, &kw));
    assert!(!match_kw_ci(&text, usize::MAX, &kw));
    assert!(match_kw_ci(&text, 6, &[]));
    assert!(!match_kw_ci(&text, 7, &[]));
}

#[test]
fn keyword_is_compared_as_written() {
    let text = chars_of("insert");
    assert!(!match_kw_ci(&text, 0, &chars_of("INSERT")));
}

#[test]
fn the_four_blanks() {
    assert!(is_space(' '));
    assert!(is_space('\n'));
    assert!(is_space('\t'));
    assert!(is_space('\r'));
    assert!(!is_space('\u{b}'));
    assert!(!is_space('\u{c}'));
    assert!(!is_space('\u{a0}'));
    assert!(!is_space('a'));
}

#[test]
fn quote_state_steps() {
    let start = QuoteState::new();
    assert!(!start.is_quoted());
    let single = start.step('\'');
    assert!(single.in_single && !single.in_double && single.is_quoted());
    assert!(single.step('"').in_single && !single.step('"').in_double);
    assert!(!single.step('\'').is_quoted());
    let escaped = single.step('\\');
    assert!(escaped.escaped);
    assert!(escaped.step('\'').in_single);
    assert!(!escaped.step('\'').escaped);
    assert!(!escaped.step('\\').escaped);
    assert!(!escaped.step('x').escaped);
}

#[test]
fn parentheses_stay_open() {
    let open = |s: &str, n: usize| synapse_cli::db::scan::parens_stay_open(&chars_of(s), n);
    assert!(open("1, 2)", 1));
    assert!(open("f(1), 2)", 4));
    assert!(!open("1), (2, 3)", 2));
    assert!(!open("), x", 1));
    assert!(open("), x", 0));
    assert!(open("')', x", 3));
    assert!(open("'(', ), x", 5));
    assert!(!open("'(', ), x", 6));
    assert!(open("((a)(b)), x", 8));
    assert!(!open("(a)), (, x", 7));
}
