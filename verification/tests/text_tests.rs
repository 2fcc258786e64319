use sb_watcher::clock::{
    divide_toward_zero, Duration, Timestamp, FIRST_SECOND, LAST_SECOND, LONGEST_NANOS,
};
use sb_watcher::text::{
    byte_size, chars_of, contains, contains_char, is_whitespace, push_decimal, push_hexadecimal,
    push_signed_decimal, string_of, trim, utf8_width,
};

#[test]
fn whitespace_is_the_unicode_property() {
    for n in 0..=0x10ffffu32 {
        if let Some(c) = char::from_u32(n) {
            assert_eq!(is_whitespace(c), c.is_whitespace(), "U+{n:04X}");
            assert_eq!(utf8_width(c), c.len_utf8(), "U+{n:04X}");
        }
    }
}

#[test]
fn trimming_removes_spaces_at_both_ends_only() {
    for s in ["", " ", "a", " a b\t", "\u{2028}x\u{a0}", "\n\n"] {
        assert_eq!(trim(s), s.trim());
    }
}

#[test]
fn texts_are_found_where_they_stand() {
    for (hay, needle) in
        [("abc", "bc"), ("abc", "abc"), ("abc", "abcd"), ("", ""), ("aab", "ab"), ("ö", "o")]
    {
        assert_eq!(contains(hay, needle), hay.contains(needle), "{hay} {needle}");
    }
    assert!(contains_char("45 €", '€'));
    assert!(!contains_char("45 EUR", '€'));
    assert_eq!(string_of(&chars_of("hällo"), 1, 3), "äl");
    assert_eq!(byte_size("aé€🎟"), 10);
}

#[test]
fn numbers_are_written_as_usual() {
    for n in [0u128, 9, 10, 1440, u64::MAX as u128, u128::MAX] {
        let mut s = "x".to_string();
        push_decimal(&mut s, n);
        assert_eq!(s, format!("x{n}"));
    }
    for n in [0i64, -1, 42, -100123, i64::MIN, i64::MAX] {
        let mut s = String::new();
        push_signed_decimal(&mut s, n);
        assert_eq!(s, n.to_string());
        assert_eq!(s.parse::<i64>(), Ok(n), "it reads back");
    }
    for n in [0u64, 0xdead_beef, u64::MAX] {
        let mut s = String::new();
        push_hexadecimal(&mut s, n, 16);
        assert_eq!(s, format!("{n:016x}"));
    }
}

#[test]
fn instants_are_shown_to_the_minute() {
    let t = Timestamp::from_unix(1_800_000_000, 999_999_999).unwrap();
    assert_eq!(t.minute_text(), "2027-01-15 08:00 UTC");
    assert_eq!(Timestamp::from_unix(-1, 0).unwrap().minute_text(), "1969-12-31 23:59 UTC");
}

#[test]
fn the_calendar_ends_where_chrono_ends() {
    for (inside, outside) in [(FIRST_SECOND, FIRST_SECOND - 1), (LAST_SECOND, LAST_SECOND + 1)] {
        assert!(chrono::DateTime::<chrono::Utc>::from_timestamp(inside, 999_999_999).is_some());
        assert!(chrono::DateTime::<chrono::Utc>::from_timestamp(outside, 0).is_none());
        assert!(Timestamp::from_unix(inside, 999_999_999).is_some());
        assert!(Timestamp::from_unix(outside, 0).is_none());
        assert_eq!(
            Timestamp::from_unix(inside, 0).unwrap().minute_text(),
            chrono::DateTime::<chrono::Utc>::from_timestamp(inside, 0)
                .unwrap()
                .format("%Y-%m-%d %H:%M UTC")
                .to_string()
        );
    }
    assert!(Timestamp::from_unix(0, 1_000_000_000).is_none());
}

#[test]
fn time_passes_to_the_nanosecond() {
    let a = Timestamp::from_unix(100, 500).unwrap();
    let b = Timestamp::from_unix(400, 499).unwrap();
    let c = Timestamp::from_unix(400, 500).unwrap();
    assert_eq!(a.unix_secs(), 100);
    assert_eq!(b.nanos_since(a), 299_999_999_999);
    assert_eq!(a.nanos_since(b), -299_999_999_999);
    assert!(!b.minutes_passed(a, 5));
    assert!(c.minutes_passed(a, 5));
}

#[test]
fn spans_are_compared_and_spent() {
    let (one, two) = (Duration::from_secs(1), Duration::from_secs(2));
    assert_eq!(one.min(two), one);
    assert_eq!(one.max(two), two);
    assert_eq!(two.saturating_sub(one), one);
    assert_eq!(one.saturating_sub(two), Duration::from_secs(0));
    assert_eq!(Duration { nanos: 2_999_999_999 }.as_secs(), 2);
    assert_eq!(
        LONGEST_NANOS,
        std::time::Duration::MAX.as_nanos(),
        "the longest span is the standard library's"
    );
}

#[test]
fn division_rounds_towards_zero() {
    for (n, d) in [(7i128, 2i128), (-7, 2), (0, 5), (-1, 60), (59, 60), (-3600, 60)] {
        assert_eq!(divide_toward_zero(n, d), n / d);
    }
}
