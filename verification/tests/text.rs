use ten_minute_art::text::{
    chars_of, comes_before, contains, decimal_text, ends_with, join, parse_number, same,
    signed_decimal_text, space, split_words, starts_with, text_between, to_ascii_lower, trim,
};

#[test]
fn white_space_is_what_the_standard_library_says() {
    for c in '\0'..=char::MAX {
        assert_eq!(space(c), c.is_whitespace(), "{:?}", c);
    }
}

#[test]
fn words_are_split_and_joined() {
    let words = split_words("  a\u{2003}bc \n\n d\t");
    assert_eq!(words, vec!["a".to_string(), "bc".to_string(), "d".to_string()]);
    assert_eq!(split_words(join(&words, " ").as_str()), words);
    assert_eq!(join(&words, " OR "), "a OR bc OR d");
    assert_eq!(join(&vec![], ", "), "");
    assert!(split_words(" \n ").is_empty());
}

#[test]
fn trimming_takes_white_space_from_both_ends() {
    for s in ["", " ", " a ", "\u{a0}a b\u{3000}\n", "a", "\u{200b}a"] {
        assert_eq!(trim(s), s.trim());
    }
}

#[test]
fn searching_agrees_with_the_standard_library() {
    let texts = ["", "a", "ab", "aab", "abab", "é", "éa", "\n\n_["];
    for s in texts {
        for t in texts {
            assert_eq!(starts_with(s, t), s.starts_with(t));
            assert_eq!(ends_with(s, t), s.ends_with(t));
            assert_eq!(contains(s, t), s.contains(t));
            assert_eq!(same(s, t), s == t);
            assert_eq!(comes_before(s, t), s < t, "{s:?} {t:?}");
        }
    }
}

#[test]
fn only_ascii_letters_change_case() {
    let s = "AZaz09 ÀÉ [@`{";
    assert_eq!(to_ascii_lower(s), s.to_ascii_lowercase());
}

#[test]
fn pieces_are_cut_by_characters() {
    let chars = chars_of("añb");
    assert_eq!(chars, vec!['a', 'ñ', 'b']);
    assert_eq!(text_between(&chars, 1, 3), "ñb");
    assert_eq!(text_between(&chars, 1, 1), "");
}

#[test]
fn numbers_are_written_as_the_standard_library_does() {
    for n in [0u64, 7, 10, 99, 100, 1_234_567_890, u64::MAX] {
        assert_eq!(decimal_text(n), n.to_string());
    }
    for n in [0i64, -1, 42, -1000, i64::MIN, i64::MAX] {
        assert_eq!(signed_decimal_text(n), n.to_string());
    }
}

#[test]
fn numbers_are_read_as_the_standard_library_does() {
    for s in [
        "",
        "+",
        "-",
        "0",
        "007",
        "+5",
        "-5",
        "++5",
        "5 ",
        "5.0",
        "१",
        "18446744073709551615",
        "18446744073709551616",
        "00000000000000000000000000000001",
        "99999999999999999999999",
    ] {
        assert_eq!(parse_number(s), s.parse::<u64>().ok(), "{s:?}");
    }
}
