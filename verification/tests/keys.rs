use redis_cleanup::key::{is_managed_key, parses_as_unsigned, SEPARATOR};

/// The same question asked by splitting the key and parsing its last part.
fn managed_by_splitting(key: &str) -> bool {
    let first = key.split(SEPARATOR).next().unwrap();
    let last = key.split(SEPARATOR).last().unwrap();
    first == "bull" && last.parse::<usize>().is_err()
}

const SAMPLES: [&str; 40] = [
    "",
    ":",
    "::",
    "A",
    "B",
    "bull",
    "bull:",
    "bull::",
    "bull:abc",
    "bull:123",
    "bull:0",
    "bull:007",
    "bull:+5",
    "bull:+",
    "bull:-5",
    "bull:++5",
    "bull:5+",
    "bull: 5",
    "bull:5 ",
    "bull:1_000",
    "bull:12a",
    "bull:abc:123",
    "bull:123:abc",
    "bull:queue:1:",
    "bull:queue:id",
    "bull:18446744073709551615",
    "bull:18446744073709551616",
    "bull:99999999999999999999999999",
    "bull:000000000000000000000000000001",
    "bully:abc",
    "bul:abc",
    "bul",
    "Bull:abc",
    "xbull:abc",
    ":bull:abc",
    "test:01D39ZY06FGSCTVN4T2V9PKHFZ",
    "bull:01D39ZY06FGSCTVN4T2V9PKHFZ",
    "bull:\u{0663}",
    "bull:\u{043a}\u{043b}\u{044e}\u{0447}",
    "b\u{00fc}ll:abc",
];

#[test]
fn unsigned_integers_are_accepted() {
    assert!(parses_as_unsigned("0"));
    assert!(parses_as_unsigned("7"));
    assert!(parses_as_unsigned("123"));
    assert!(parses_as_unsigned("007"));
    assert!(parses_as_unsigned("+5"));
    assert!(parses_as_unsigned("+0"));
    assert!(parses_as_unsigned("000000000000000000000000000001"));
}

#[test]
fn other_texts_are_not_unsigned_integers() {
    assert!(!parses_as_unsigned(""));
    assert!(!parses_as_unsigned("+"));
    assert!(!parses_as_unsigned("-"));
    assert!(!parses_as_unsigned("-5"));
    assert!(!parses_as_unsigned("++5"));
    assert!(!parses_as_unsigned("5+"));
    assert!(!parses_as_unsigned("12a"));
    assert!(!parses_as_unsigned("a12"));
    assert!(!parses_as_unsigned(" 1"));
    assert!(!parses_as_unsigned("1 "));
    assert!(!parses_as_unsigned("1_000"));
    assert!(!parses_as_unsigned("1.5"));
    assert!(!parses_as_unsigned("0x10"));
    assert!(!parses_as_unsigned("\u{0663}"));
    assert!(!parses_as_unsigned("abc"));
}

#[test]
fn the_largest_word_is_the_last_unsigned_integer() {
    let largest = format!("{}", usize::MAX);
    assert!(parses_as_unsigned(&largest));
    assert!(parses_as_unsigned(&format!("+{}", largest)));
    assert!(parses_as_unsigned(&format!("000{}", largest)));
    let successor = format!("{}", usize::MAX as u128 + 1);
    assert!(!parses_as_unsigned(&successor));
    assert!(!parses_as_unsigned(&format!("{}0", largest)));
    assert!(!parses_as_unsigned("99999999999999999999999999999999999999999999"));
}

#[test]
fn unsigned_integers_are_what_the_word_parser_takes() {
    for sample in SAMPLES {
        let last = sample.rsplit(SEPARATOR).next().unwrap();
        assert_eq!(parses_as_unsigned(last), last.parse::<usize>().is_ok(), "{:?}", last);
    }
    for n in 0..2000usize {
        assert!(parses_as_unsigned(&format!("{}", n)));
        assert!(!parses_as_unsigned(&format!("{}x", n)));
        assert!(!parses_as_unsigned(&format!("-{}", n)));
    }
}

#[test]
fn keys_of_the_namespace_with_a_name_at_the_end_are_managed() {
    assert!(is_managed_key("bull:abc"));
    assert!(is_managed_key("bull:q:-1"));
    assert!(is_managed_key("bull:"));
    assert!(is_managed_key("bull:123:abc"));
    assert!(is_managed_key("bull:queue:id"));
    assert!(is_managed_key("bull:-5"));
    assert!(is_managed_key("bull:99999999999999999999999999"));
    assert!(is_managed_key("bull:01D39ZY06FGSCTVN4T2V9PKHFZ"));
}

#[test]
fn keys_of_the_namespace_with_a_number_at_the_end_are_not_managed() {
    assert!(!is_managed_key("bull:123"));
    assert!(!is_managed_key("bull:0"));
    assert!(!is_managed_key("bull:+5"));
    assert!(!is_managed_key("bull:abc:123"));
    assert!(!is_managed_key("bull:queue:007"));
}

#[test]
fn keys_outside_the_namespace_are_not_managed() {
    assert!(!is_managed_key(""));
    assert!(!is_managed_key("A"));
    assert!(!is_managed_key("bul"));
    assert!(!is_managed_key("bulls"));
    assert!(!is_managed_key("123"));
    assert!(!is_managed_key("bully:abc"));
    assert!(!is_managed_key("bul:abc"));
    assert!(!is_managed_key("Bull:abc"));
    assert!(!is_managed_key(":bull:abc"));
    assert!(!is_managed_key("test:01D39ZY06FGSCTVN4T2V9PKHFZ"));
}

#[test]
fn the_namespace_alone_is_managed() {
    assert!(is_managed_key("bull"));
    assert!(managed_by_splitting("bull"));
}

#[test]
fn managed_keys_are_those_found_by_splitting() {
    for sample in SAMPLES {
        assert_eq!(is_managed_key(sample), managed_by_splitting(sample), "{:?}", sample);
    }
}
