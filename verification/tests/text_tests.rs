use rosemary::text::{is_blank, split_statements, trim, u128_to_decimal};

#[test]
fn trim_removes_unicode_white_space() {
    assert_eq!(trim("\u{3000} \tselect 1 \n\u{a0}"), "select 1");
    assert_eq!(trim("   "), "");
}

#[test]
fn blank_text() {
    assert!(is_blank(" \n\t"));
    assert!(is_blank(""));
    assert!(!is_blank(" a "));
}

#[test]
fn statements_are_split_on_semicolons() {
    let v = split_statements("select 1; ;\n select 2 ;");
    assert_eq!(v, vec!["select 1".to_string(), "select 2".to_string()]);
}

#[test]
fn decimal_rendering() {
    assert_eq!(u128_to_decimal(0), "0");
    assert_eq!(u128_to_decimal(1234567890), "1234567890");
    assert_eq!(u128_to_decimal(u128::MAX), u128::MAX.to_string());
}

use rosemary::text::{chars_of, contains, i128_to_decimal, string_from_range, to_lowercase};

#[test]
fn signed_decimal_rendering() {
    assert_eq!(i128_to_decimal(-42), "-42");
    assert_eq!(i128_to_decimal(i64::MIN as i128), i64::MIN.to_string());
    assert_eq!(i128_to_decimal(7), "7");
}

#[test]
fn substring_search() {
    assert!(contains("public_users", "users"));
    assert!(contains("abc", ""));
    assert!(!contains("abc", "abcd"));
    assert!(!contains("abc", "ac"));
    assert!(contains("żółw", "ół"));
}

#[test]
fn lowercase_matches_std() {
    assert_eq!(to_lowercase("Users ÄΣ"), "Users ÄΣ".to_lowercase());
    assert_eq!(to_lowercase("ABC"), "abc");
}

#[test]
fn characters_and_ranges() {
    let v = chars_of("héllo");
    assert_eq!(v, vec!['h', 'é', 'l', 'l', 'o']);
    assert_eq!(string_from_range(&v, 1, 4), "éll");
}

#[test]
fn split_keeps_text_without_semicolon() {
    assert_eq!(split_statements("  select 1  "), vec!["select 1".to_string()]);
    assert!(split_statements(" ; ;; ").is_empty());
    assert!(split_statements("").is_empty());
}

#[test]
fn trimming_twice_is_trimming_once() {
    for s in ["  a b  ", "\u{2028}x\u{2029}", "", "   ", "abc"] {
        let once = trim(s);
        assert_eq!(trim(&once), once);
        assert_eq!(once, s.trim());
    }
}

#[test]
fn statements_hold_no_semicolons_or_outer_space() {
    let v = split_statements("\tselect 'a' ;\n\nselect 2;;  \u{3000}update t set x = 1 ");
    assert_eq!(v.len(), 3);
    for st in &v {
        assert!(!st.is_empty());
        assert!(!st.contains(';'));
        assert_eq!(st.trim(), st.as_str());
    }
}
