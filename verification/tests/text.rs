use vidsort::text::{
    contains, decimal_text, ends_with, join, keep_non_empty, parse_i64, parse_u32, remove_all,
    same_text, signed_decimal_text, slice_text, split, to_chars, trim, two_digits_text,
    white_space,
};

#[test]
fn decimal_texts_are_those_of_std() {
    for n in [0u64, 7, 10, 99, 100, 2018, u64::from(u32::MAX), u64::MAX] {
        assert_eq!(decimal_text(n), n.to_string());
    }
    for n in [0i64, 5, -5, 42, -10, i64::MAX, i64::MIN] {
        assert_eq!(signed_decimal_text(n), n.to_string());
    }
    for n in [0u32, 9, 10, 99, 100, 2024] {
        assert_eq!(two_digits_text(n), format!("{n:02}"));
    }
}

#[test]
fn numbers_are_read_as_std_reads_them() {
    let texts = [
        "", "+", "-", "0", "7", "+7", "-7", "007", " 7", "7 ", "1e3", "0x10", "4294967295",
        "4294967296", "18446744073709551616", "99999999999999999999999999", "9223372036854775807",
        "9223372036854775808", "-9223372036854775808", "-9223372036854775809", "+-1", "--1", "１２",
        "-0", "+0", "000000000000000000000000000000042",
    ];
    for text in texts {
        assert_eq!(parse_u32(text), text.parse::<u32>().ok(), "{text:?}");
        assert_eq!(parse_i64(text), text.parse::<i64>().ok(), "{text:?}");
    }
}

#[test]
fn numbers_are_read_back() {
    for n in [0u32, 1, 1979, u32::MAX] {
        assert_eq!(parse_u32(&decimal_text(u64::from(n))), Some(n));
    }
    for n in [0i64, -1, 123456789, i64::MAX, i64::MIN] {
        assert_eq!(parse_i64(&signed_decimal_text(n)), Some(n));
    }
}

#[test]
fn white_space_is_that_of_unicode() {
    for n in 0..=0x0010_ffffu32 {
        if let Some(c) = char::from_u32(n) {
            assert_eq!(white_space(c), c.is_whitespace(), "{n:#x}");
        }
    }
}

#[test]
fn trimming_is_that_of_std() {
    for text in ["", " ", "\t\n", "a", " a b ", "\u{a0}x\u{3000}", "x\u{200b}", "\r\n7\r\n"] {
        assert_eq!(trim(text), text.trim());
        assert_eq!(trim(&trim(text)), trim(text));
    }
}

#[test]
fn splitting_is_that_of_std() {
    for text in ["", ".", "a", "a.b", ".a..b ", "é-ö_x"] {
        let pieces: Vec<&str> = text.split([' ', '.', '_', '-']).collect();
        assert_eq!(split(text, &[' ', '.', '_', '-']), pieces);
    }
}

#[test]
fn joining_puts_the_separator_between() {
    let words = vec!["a".to_string(), "b".to_string(), "c".to_string()];
    assert_eq!(join(&words, ", "), "a, b, c");
    assert_eq!(join(&Vec::new(), ", "), "");
    let kept = keep_non_empty(vec!["".to_string(), "a".to_string(), "".to_string()]);
    assert_eq!(kept, vec!["a".to_string()]);
}

#[test]
fn searching_is_that_of_std() {
    let texts = ["", "sample", "a sample b", "ssample", "sampl", "samsample", "Paradise (2025)"];
    for text in texts {
        for part in ["", "sample", "(2025)", "s"] {
            assert_eq!(contains(text, part), text.contains(part), "{text:?} {part:?}");
            assert_eq!(ends_with(text, part), text.ends_with(part), "{text:?} {part:?}");
        }
    }
}

#[test]
fn removing_is_that_of_std() {
    for (text, part) in [
        ("Inception 2010", "2010"),
        ("20102010", "2010"),
        ("2012010", "2010"),
        ("aaaa", "aa"),
        ("aaa", "aa"),
        ("", "2010"),
        ("no year", "2010"),
    ] {
        assert_eq!(remove_all(text, part), text.replace(part, ""));
    }
}

#[test]
fn texts_are_taken_apart_by_character() {
    let chars = to_chars("zażółć");
    assert_eq!(chars.len(), 6);
    assert_eq!(slice_text(&chars, 2, 4), "żó");
    assert!(same_text("ż", "ż"));
    assert!(!same_text("ż", "z"));
}
