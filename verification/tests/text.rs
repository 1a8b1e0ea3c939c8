use synapse_cli::text::{
    append_range, char_is_whitespace, chars_eq_ignore_ascii_case, chars_equal, chars_of,
    string_of, strip_end_at, strip_start_at, to_ascii_lower, CharClass,
};

#[test]
fn chars_and_back() {
    for s in ["", "a", "INSERT (id)", "日本語 ✓ é", "\u{0}\u{10ffff}"] {
        let v = chars_of(s);
        assert_eq!(v, s.chars().collect::<Vec<char>>());
        assert_eq!(string_of(&v), s);
    }
}

#[test]
fn lower_case_of_ascii_only() {
    assert_eq!(to_ascii_lower('A'), 'a');
    assert_eq!(to_ascii_lower('Z'), 'z');
    assert_eq!(to_ascii_lower('m'), 'm');
    assert_eq!(to_ascii_lower('@'), '@');
    assert_eq!(to_ascii_lower('['), '[');
    assert_eq!(to_ascii_lower('É'), 'É');
    for n in 0u32..0x250 {
        if let Some(c) = char::from_u32(n) {
            assert_eq!(to_ascii_lower(c), c.to_ascii_lowercase());
        }
    }
}

#[test]
fn white_space_is_what_unicode_says() {
    for n in 0u32..0x11000 {
        if let Some(c) = char::from_u32(n) {
            assert_eq!(char_is_whitespace(c), c.is_whitespace(), "{:x}", n);
        }
    }
}

#[test]
fn equal_without_case() {
    let eq = |a: &str, b: &str| chars_eq_ignore_ascii_case(&chars_of(a), &chars_of(b));
    assert!(eq("id", "ID"));
    assert!(eq("Id", "iD"));
    assert!(eq("", ""));
    assert!(!eq("id", "idx"));
    assert!(!eq("id", "i"));
    assert!(!eq("é", "É"));
    assert!(!eq("k", "\u{212a}"));
}

#[test]
fn equal() {
    assert!(chars_equal(&chars_of("abc"), &chars_of("abc")));
    assert!(!chars_equal(&chars_of("abc"), &chars_of("abd")));
    assert!(!chars_equal(&chars_of("abc"), &chars_of("ab")));
    assert!(chars_equal(&[], &[]));
}

#[test]
fn strip_from_both_ends() {
    let s = chars_of("xx  ab c \t");
    assert_eq!(strip_start_at(&s, 2, s.len(), CharClass::Whitespace), 4);
    assert_eq!(strip_end_at(&s, 4, s.len(), CharClass::Whitespace), 8);
    assert_eq!(strip_start_at(&s, 0, s.len(), CharClass::Exactly('x')), 2);
    assert_eq!(strip_start_at(&s, 0, 1, CharClass::Exactly('x')), 1);
    assert_eq!(strip_end_at(&s, 0, 2, CharClass::Exactly('x')), 0);
    assert_eq!(strip_start_at(&s, 4, 4, CharClass::Whitespace), 4);
    let t = chars_of("```");
    let lo = strip_start_at(&t, 0, 3, CharClass::Exactly('`'));
    assert_eq!(lo, 3);
    assert_eq!(strip_end_at(&t, lo, 3, CharClass::Exactly('`')), 3);
}

#[test]
fn append() {
    let mut out = chars_of("ab");
    append_range(&mut out, &chars_of("0123456"), 2, 5);
    assert_eq!(string_of(&out), "ab234");
    append_range(&mut out, &chars_of("xyz"), 1, 1);
    assert_eq!(string_of(&out), "ab234");
}
