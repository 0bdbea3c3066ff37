use carpool::clock::is_older_than;
use carpool::clock::NANOS_PER_SEC;
use carpool::text::chars_of;
use carpool::text::find;
use carpool::text::is_whitespace;
use carpool::text::starts_with;
use carpool::text::to_decimal;
use carpool::text::trim_bounds;

#[test]
fn whitespace_is_what_the_standard_library_calls_whitespace() {
    for code in 0u32..=0x10FFFF {
        if let Some(c) = char::from_u32(code) {
            assert_eq!(is_whitespace(c), c.is_whitespace(), "U+{:04X}", code);
        }
    }
}

#[test]
fn chars_of_keeps_every_character() {
    assert_eq!(chars_of(""), Vec::<char>::new());
    assert_eq!(chars_of("a\u{e9}\u{2764}"), vec!['a', '\u{e9}', '\u{2764}']);
}

#[test]
fn trim_bounds_agree_with_trim() {
    let lines =
        ["", " ", "a", " a", "a ", "  a b  ", "\t\n a\u{a0}", "\u{2003}x\u{3000}y\u{2028}", "   "];
    for line in lines {
        let chars = chars_of(line);
        let (from, to) = trim_bounds(&chars, 0, chars.len());
        let trimmed: String = chars[from..to].iter().collect();
        assert_eq!(trimmed, line.trim(), "{:?}", line);
    }
}

#[test]
fn trim_bounds_stay_within_the_range() {
    let chars = chars_of("ab  cd  ef");
    assert_eq!(trim_bounds(&chars, 2, 8), (4, 6));
    assert_eq!(trim_bounds(&chars, 2, 4), (4, 4));
    assert_eq!(trim_bounds(&chars, 3, 3), (3, 3));
}

#[test]
fn find_gives_the_first_place() {
    let chars = chars_of("a b c");
    assert_eq!(find(&chars, 0, 5, ' '), Some(1));
    assert_eq!(find(&chars, 2, 5, ' '), Some(1));
    assert_eq!(find(&chars, 4, 5, ' '), None);
    assert_eq!(find(&chars, 0, 1, ' '), None);
    assert_eq!(find(&chars, 0, 0, 'a'), None);
}

#[test]
fn starts_with_compares_the_front() {
    assert!(starts_with(&chars_of("get a"), &chars_of("get ")));
    assert!(starts_with(&chars_of("get "), &chars_of("get ")));
    assert!(starts_with(&chars_of("x"), &chars_of("")));
    assert!(!starts_with(&chars_of("get"), &chars_of("get ")));
    assert!(!starts_with(&chars_of("gex a"), &chars_of("get ")));
}

#[test]
fn decimal_text_of_numbers() {
    assert_eq!(to_decimal(0), "0");
    assert_eq!(to_decimal(7), "7");
    assert_eq!(to_decimal(10), "10");
    assert_eq!(to_decimal(1234567890), "1234567890");
    assert_eq!(to_decimal(usize::MAX), format!("{}", usize::MAX));
}

#[test]
fn older_means_more_than_the_ttl_to_the_nanosecond() {
    assert!(!is_older_than(0, 0, 0));
    assert!(is_older_than(0, 1, 0));
    assert!(!is_older_than(0, NANOS_PER_SEC, 1));
    assert!(is_older_than(0, NANOS_PER_SEC + 1, 1));
    assert!(is_older_than(0, NANOS_PER_SEC + NANOS_PER_SEC / 2, 1));
    assert!(!is_older_than(7, 7 + 60 * NANOS_PER_SEC, 60));
    assert!(is_older_than(7, 8 + 60 * NANOS_PER_SEC, 60));
    assert!(!is_older_than(5 * NANOS_PER_SEC, 0, 0));
    assert!(!is_older_than(0, u64::MAX as u128 * NANOS_PER_SEC, u64::MAX));
    assert!(is_older_than(0, u64::MAX as u128 * NANOS_PER_SEC + 1, u64::MAX));
    assert!(is_older_than(0, u128::MAX, u64::MAX));
}
