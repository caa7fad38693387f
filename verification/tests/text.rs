use glimpse_speech::text;

#[test]
fn white_space_is_that_of_unicode() {
    let mut v: u32 = 0;
    while v <= 0x10ffff {
        if let Some(c) = char::from_u32(v) {
            assert_eq!(text::is_whitespace(c), c.is_whitespace(), "U+{v:04X}");
        }
        v += 1;
    }
}

#[test]
fn trimming_and_splitting_follow_the_standard_library() {
    for sample in ["", " ", "a", "  a b ", "\u{3000}wide\u{2003}", "a\t\nb  c\r"] {
        assert_eq!(text::trim(sample), sample.trim());
        assert_eq!(text::trim_start_of(sample), sample.trim_start());
        assert_eq!(
            text::split_whitespace(sample),
            sample
                .split_whitespace()
                .map(str::to_string)
                .collect::<Vec<_>>()
        );
        assert_eq!(text::is_blank(sample), sample.trim().is_empty());
    }
    assert_eq!(text::split("a,,b", ','), vec!["a", "", "b"]);
    assert_eq!(text::split("", ','), vec![""]);
    assert_eq!(text::split_once("a::b::c", "::"), Some(("a".to_string(), "b::c".to_string())));
    assert_eq!(text::split_once("abc", "::"), None);
    assert_eq!(text::trim_end_matches("a///", '/'), "a");
    assert_eq!(text::trim_end_matches("///", '/'), "");
}

#[test]
fn unsigned_literals_are_read_as_by_the_standard_library() {
    for sample in [
        "", "0", "30", "+7", "-1", "+", "12a", "007", "18446744073709551615",
        "18446744073709551616", "99999999999999999999", " 1",
    ] {
        assert_eq!(text::parse_u64(sample), sample.parse::<u64>().ok(), "{sample}");
    }
}

#[test]
fn lengths_are_counted_in_bytes() {
    for sample in ["", "abc", "é", "東京", "😀", "aé東😀"] {
        assert_eq!(text::utf8_length(sample), sample.len() as u128);
    }
}

#[test]
fn numbers_are_written_in_decimal() {
    assert_eq!(text::decimal_of(0), "0");
    assert_eq!(text::decimal_of(u128::MAX), u128::MAX.to_string());
    assert_eq!(text::signed_decimal_of(-42), "-42");
    assert_eq!(text::signed_decimal_of(i64::MIN), i64::MIN.to_string());
}

#[test]
fn searching_and_joining() {
    assert!(text::contains("verbose_json", "json"));
    assert!(!text::contains("json", "verbose_json"));
    assert!(text::contains("json", ""));
    assert!(text::starts_with("Bearer x", "Bearer "));
    assert!(text::ends_with("host.local", ".local"));
    assert!(!text::ends_with("al", ".local"));
    assert_eq!(text::join(&["a".to_string(), "b".to_string()], ", "), "a, b");
    assert_eq!(text::join(&[], ", "), "");
    assert!(text::eq_ignore_ascii_case("AuTo", "auto"));
    assert!(!text::eq_ignore_ascii_case("É", "é"));
    assert!(text::is_one_of("b", &["a", "b"]));
    assert!(!text::contains_any("abc", &["x", "y"]));
}
