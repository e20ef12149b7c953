//! Texts and numbers.

use health_widget::clock::Duration;
use health_widget::text::{
    chars_of, decimal_i64, is_space, lines, pad_right, padded, parse_i32, parse_i64, parse_u32,
    parse_u64, rsplit_once, split, split_once, split_str, string_of, trim, trim_char, two_digits,
    words,
};

#[test]
fn white_space_is_what_unicode_says() {
    for n in 0..=0x10FFFFu32 {
        if let Some(c) = char::from_u32(n) {
            assert_eq!(is_space(c), c.is_whitespace(), "{n:x}");
        }
    }
}

const TEXTS: [&str; 14] = [
    "",
    " ",
    "a",
    " a b  c ",
    "a\nb",
    "a\r\nb\r\n",
    "\n\n",
    "a\n\nb\n",
    "\r",
    "a\r",
    "x=y=z",
    "==",
    "\u{3000}я\u{85}",
    "a, b, , c",
];

fn strings(v: Vec<&[char]>) -> Vec<String> {
    v.into_iter().map(string_of).collect()
}

#[test]
fn texts_are_cut_as_std_does_it() {
    for t in TEXTS {
        let c = chars_of(t);
        assert_eq!(string_of(trim(&c)), t.trim());
        assert_eq!(string_of(trim_char(&c, '=')), t.trim_matches('='));
        assert_eq!(strings(lines(&c)), t.lines().collect::<Vec<_>>(), "{t:?}");
        assert_eq!(strings(words(&c)), t.split_whitespace().collect::<Vec<_>>());
        assert_eq!(strings(split(&c, '=')), t.split('=').collect::<Vec<_>>());
        assert_eq!(strings(split_str(&c, &chars_of(", "))), t.split(", ").collect::<Vec<_>>());
        let once = split_once(&c, &chars_of("=")).map(|(a, b)| (string_of(a), string_of(b)));
        assert_eq!(once, t.split_once('=').map(|(a, b)| (a.to_string(), b.to_string())));
        let last = rsplit_once(&c, &chars_of("=")).map(|(a, b)| (string_of(a), string_of(b)));
        assert_eq!(last, t.rsplit_once('=').map(|(a, b)| (a.to_string(), b.to_string())));
    }
}

#[test]
fn numbers_are_read_as_std_does_it() {
    for t in [
        "", "0", "-0", "+5", "-5", "007", "+", "-", " 1", "1 ", "4294967295", "4294967296",
        "2147483647", "2147483648", "-2147483648", "-2147483649", "9223372036854775807",
        "9223372036854775808", "-9223372036854775808", "-9223372036854775809",
        "18446744073709551615", "18446744073709551616", "99999999999999999999999999", "1a", "٣",
    ] {
        let c = chars_of(t);
        assert_eq!(parse_u32(&c), t.parse::<u32>().ok(), "{t}");
        assert_eq!(parse_u64(&c), t.parse::<u64>().ok(), "{t}");
        assert_eq!(parse_i32(&c), t.parse::<i32>().ok(), "{t}");
        assert_eq!(parse_i64(&c), t.parse::<i64>().ok(), "{t}");
    }
}

#[test]
fn numbers_are_written_as_std_does_it() {
    for n in [0i64, 7, -7, 10, 99, 100, i64::MAX, i64::MIN] {
        assert_eq!(decimal_i64(n), n.to_string());
    }
    assert_eq!(two_digits(5), "05");
    assert_eq!(two_digits(123), "123");
    assert_eq!(padded(7, 2), "07");
    assert_eq!(padded(-7, 4), format!("{:04}", -7));
    assert_eq!(pad_right("ab", 4), "ab  ");
    assert_eq!(pad_right("abcde", 4), "abcde");
}

#[test]
fn lengths_of_time_add_up() {
    let d = Duration::new(1, 500_000_000);
    assert_eq!(d.as_secs(), 1);
    assert_eq!(d.plus(&Duration::from_millis(500)), Duration::from_secs(2));
    assert_eq!(d.minus(&Duration::from_secs(1)), Duration::from_millis(500));
    assert!(d.at_least(1) && !d.at_least(2));
    assert!(d.exceeds(1) && !Duration::from_secs(1).exceeds(1));
    assert_eq!(d.doubled_upto(2), Duration::from_secs(2));
}
