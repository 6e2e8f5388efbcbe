use dota_tools::numbers::{i32_text, parse_i32, parse_u64, u64_text};

#[test]
fn reads_signed_numbers() {
    assert_eq!(parse_i32("-12"), Some(-12));
    assert_eq!(parse_i32("+7"), Some(7));
    assert_eq!(parse_i32("007"), Some(7));
    assert_eq!(parse_i32("2147483647"), Some(i32::MAX));
    assert_eq!(parse_i32("-2147483648"), Some(i32::MIN));
}

#[test]
fn refuses_what_is_no_signed_number() {
    for s in ["", "-", "+", "+-1", "--1", " 1", "1 ", "1_000", "0x1", "1.5", "２"] {
        assert_eq!(parse_i32(s), None, "{}", s);
        assert_eq!(s.parse::<i32>().ok(), None, "{}", s);
    }
    assert_eq!(parse_i32("2147483648"), None);
    assert_eq!(parse_i32("-2147483649"), None);
    assert_eq!(parse_i32("99999999999999999999999999"), None);
}

#[test]
fn reads_unsigned_numbers() {
    assert_eq!(parse_u64("0"), Some(0));
    assert_eq!(parse_u64("+42"), Some(42));
    assert_eq!(parse_u64("18446744073709551615"), Some(u64::MAX));
    assert_eq!(parse_u64("18446744073709551616"), None);
    assert_eq!(parse_u64("18446744073709551620"), None);
    assert_eq!(parse_u64("-0"), None);
    assert_eq!(parse_u64(""), None);
    assert_eq!(parse_u64("①"), None);
}

#[test]
fn reading_agrees_with_std() {
    for s in ["1", "-1", "+1", "", "+", "12a", "a12", "4294967296", "-4294967296", "00", "-00"] {
        assert_eq!(parse_i32(s), s.parse::<i32>().ok(), "{}", s);
        assert_eq!(parse_u64(s), s.parse::<u64>().ok(), "{}", s);
    }
}

#[test]
fn writes_numbers_in_decimal() {
    assert_eq!(u64_text(0), "0");
    assert_eq!(u64_text(10), "10");
    assert_eq!(u64_text(u64::MAX), "18446744073709551615");
    assert_eq!(i32_text(0), "0");
    assert_eq!(i32_text(-305), "-305");
    assert_eq!(i32_text(i32::MIN), "-2147483648");
}

#[test]
fn reading_gives_back_what_was_written() {
    for n in [0u64, 9, 10, 76_561_197_960_265_728, u64::MAX] {
        assert_eq!(parse_u64(&u64_text(n)), Some(n));
    }
    for n in [0i32, -1, 12_000, i32::MIN, i32::MAX] {
        assert_eq!(parse_i32(&i32_text(n)), Some(n));
    }
}
