use wireguard_keepalived::number::{parse_u64, parse_u64_or};

#[test]
fn parse_u64_reads_plain_digits() {
    assert_eq!(parse_u64("0"), Some(0));
    assert_eq!(parse_u64("25"), Some(25));
    assert_eq!(parse_u64("007"), Some(7));
    assert_eq!(parse_u64("1700000000"), Some(1_700_000_000));
}

#[test]
fn parse_u64_takes_one_leading_plus() {
    assert_eq!(parse_u64("+25"), Some(25));
    assert_eq!(parse_u64("+0"), Some(0));
    assert_eq!(parse_u64("+"), None);
    assert_eq!(parse_u64("++1"), None);
    assert_eq!(parse_u64("1+"), None);
}

#[test]
fn parse_u64_refuses_what_is_no_number() {
    assert_eq!(parse_u64(""), None);
    assert_eq!(parse_u64("off"), None);
    assert_eq!(parse_u64("-1"), None);
    assert_eq!(parse_u64("-0"), None);
    assert_eq!(parse_u64(" 1"), None);
    assert_eq!(parse_u64("1 "), None);
    assert_eq!(parse_u64("1.5"), None);
    assert_eq!(parse_u64("0x10"), None);
    assert_eq!(parse_u64("12a"), None);
    assert_eq!(parse_u64("\u{663}"), None);
    assert_eq!(parse_u64("\u{ff11}"), None);
}

#[test]
fn parse_u64_stops_at_the_largest_value() {
    assert_eq!(parse_u64("18446744073709551615"), Some(u64::MAX));
    assert_eq!(parse_u64("18446744073709551616"), None);
    assert_eq!(parse_u64("18446744073709551620"), None);
    assert_eq!(parse_u64("99999999999999999999"), None);
    assert_eq!(parse_u64("184467440737095516150"), None);
    assert_eq!(parse_u64("00000000000000000000000018446744073709551615"), Some(u64::MAX));
    assert_eq!(parse_u64("99999999999999999999x"), None);
}

#[test]
fn parse_u64_agrees_with_from_str() {
    let samples = [
        "", "0", "1", "9", "10", "+5", "+", "-", "-5", "+-5", "5+", "18446744073709551615",
        "18446744073709551616", "1844674407370955161", "a", "1a", "a1", " 1", "1\n", "٣", "１",
        "000", "+000", "4294967296", "1_000", "1e3", "(none)", "off",
    ];
    for s in samples {
        assert_eq!(parse_u64(s), s.parse::<u64>().ok(), "{:?}", s);
    }
    let mut n: u64 = 0;
    while n < 3000 {
        let s = n.to_string();
        assert_eq!(parse_u64(&s), Some(n));
        n += 1;
    }
}

#[test]
fn parse_u64_or_falls_back_only_on_failure() {
    assert_eq!(parse_u64_or("25", 7), 25);
    assert_eq!(parse_u64_or("0", 7), 0);
    assert_eq!(parse_u64_or("off", 7), 7);
    assert_eq!(parse_u64_or("", 7), 7);
    assert_eq!(parse_u64_or("18446744073709551616", 0), 0);
}
