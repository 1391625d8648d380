use atm_bank::money::{format_amount, parse_amount};

#[test]
fn amount_is_written_with_two_places() {
    assert_eq!(format_amount(0), "0.00");
    assert_eq!(format_amount(1), "0.01");
    assert_eq!(format_amount(10), "0.10");
    assert_eq!(format_amount(99), "0.99");
    assert_eq!(format_amount(100), "1.00");
    assert_eq!(format_amount(1234), "12.34");
    assert_eq!(format_amount(100_000), "1000.00");
    assert_eq!(format_amount(1_000_005), "10000.05");
    assert_eq!(format_amount(u64::MAX), "184467440737095516.15");
}

#[test]
fn amount_is_read_in_minor_units() {
    assert_eq!(parse_amount("12.34"), Some(1234));
    assert_eq!(parse_amount("7"), Some(700));
    assert_eq!(parse_amount("0.5"), Some(50));
    assert_eq!(parse_amount("0.05"), Some(5));
    assert_eq!(parse_amount("0.01"), Some(1));
    assert_eq!(parse_amount("0"), Some(0));
    assert_eq!(parse_amount("0.00"), Some(0));
    assert_eq!(parse_amount("1000.00"), Some(100_000));
    assert_eq!(parse_amount("0012.30"), Some(1230));
}

#[test]
fn text_that_is_no_amount_is_refused() {
    let texts = [
        "", ".", ".5", "5.", "1.234", "-1", "+1", "1e3", "1,50", " 1", "1 ", "abc", "1.2.3", "1..2",
        "1.a", "1.2b", "a.10", "0x10", "\u{661}\u{662}", "1.\u{661}", "12\u{a0}",
    ];
    for text in texts {
        assert_eq!(parse_amount(text), None, "{:?}", text);
    }
}

#[test]
fn amount_beyond_the_largest_is_refused() {
    assert_eq!(parse_amount("184467440737095516.15"), Some(u64::MAX));
    assert_eq!(parse_amount("184467440737095516.16"), None);
    assert_eq!(parse_amount("184467440737095516.2"), None);
    assert_eq!(parse_amount("184467440737095517"), None);
    assert_eq!(parse_amount("18446744073709551616"), None);
    assert_eq!(parse_amount("99999999999999999999999999999999.99"), None);
    assert_eq!(parse_amount("184467440737095516"), Some(18_446_744_073_709_551_600));
}

#[test]
fn written_amount_reads_back() {
    for amount in [0u64, 1, 9, 10, 99, 100, 101, 12_345, 100_000, u64::MAX - 1, u64::MAX] {
        assert_eq!(parse_amount(&format_amount(amount)), Some(amount));
    }
}
