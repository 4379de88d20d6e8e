use elections::decimal::{parse_u128, parse_u64, u128_to_string, u64_to_string};

#[test]
fn reads_plain_digits() {
    assert_eq!(parse_u128("0"), Some(0));
    assert_eq!(parse_u128("7"), Some(7));
    assert_eq!(parse_u128("12"), Some(12));
    assert_eq!(parse_u128("1000000000000000000000000"), Some(1_000_000_000_000_000_000_000_000));
    assert_eq!(parse_u64("1700000000000000000"), Some(1_700_000_000_000_000_000));
}

#[test]
fn reads_a_leading_plus_and_leading_zeros() {
    assert_eq!(parse_u128("+5"), Some(5));
    assert_eq!(parse_u128("007"), Some(7));
    assert_eq!(parse_u128("+000"), Some(0));
    assert_eq!(parse_u64("+42"), Some(42));
    assert_eq!(
        parse_u64("0000000000000000000000000000000000000000000000000000000001"),
        Some(1)
    );
}

#[test]
fn refuses_what_is_not_decimal_text() {
    assert_eq!(parse_u128(""), None);
    assert_eq!(parse_u128("+"), None);
    assert_eq!(parse_u128("-1"), None);
    assert_eq!(parse_u128("-0"), None);
    assert_eq!(parse_u128("++1"), None);
    assert_eq!(parse_u128("1+"), None);
    assert_eq!(parse_u128("12a"), None);
    assert_eq!(parse_u128("a12"), None);
    assert_eq!(parse_u128(" 12"), None);
    assert_eq!(parse_u128("12 "), None);
    assert_eq!(parse_u128("1_000"), None);
    assert_eq!(parse_u128("0x10"), None);
    assert_eq!(parse_u128("1.5"), None);
    assert_eq!(parse_u64(""), None);
    assert_eq!(parse_u64("abc"), None);
}

#[test]
fn refuses_digits_outside_ascii() {
    assert_eq!(parse_u128("\u{ff11}\u{ff12}"), None);
    assert_eq!(parse_u128("1\u{0663}"), None);
    assert_eq!(parse_u64("\u{00b2}"), None);
    assert_eq!(parse_u64("12\u{00e9}"), None);
}

#[test]
fn reads_up_to_the_largest_number_and_no_further() {
    assert_eq!(parse_u64("18446744073709551615"), Some(u64::MAX));
    assert_eq!(parse_u64("18446744073709551616"), None);
    assert_eq!(parse_u64("99999999999999999999"), None);
    assert_eq!(parse_u128("18446744073709551616"), Some(18_446_744_073_709_551_616));
    assert_eq!(parse_u128("340282366920938463463374607431768211455"), Some(u128::MAX));
    assert_eq!(parse_u128("340282366920938463463374607431768211456"), None);
    assert_eq!(parse_u128("340282366920938463463374607431768211460"), None);
    assert_eq!(parse_u128("3402823669209384634633746074317682114550"), None);
    assert_eq!(parse_u128("+340282366920938463463374607431768211455"), Some(u128::MAX));
    assert_eq!(parse_u128("00340282366920938463463374607431768211455"), Some(u128::MAX));
}

#[test]
fn writes_the_shortest_text() {
    assert_eq!(u128_to_string(0), "0");
    assert_eq!(u128_to_string(9), "9");
    assert_eq!(u128_to_string(10), "10");
    assert_eq!(u128_to_string(14), "14");
    assert_eq!(u128_to_string(100), "100");
    assert_eq!(u128_to_string(1_000_000_000_000_000_000_000_000), "1000000000000000000000000");
    assert_eq!(u128_to_string(u128::MAX), "340282366920938463463374607431768211455");
    assert_eq!(u64_to_string(0), "0");
    assert_eq!(u64_to_string(1_700_000_000_000_000_000), "1700000000000000000");
    assert_eq!(u64_to_string(u64::MAX), "18446744073709551615");
}

#[test]
fn reading_agrees_with_std() {
    let samples = [
        "", "+", "-", "0", "00", "+0", "-0", "1", "+1", "-1", "42", "4 2", "42\n", "١٢", "1e3",
        "18446744073709551615", "18446744073709551616", "340282366920938463463374607431768211455",
        "340282366920938463463374607431768211456", "9999999999999999999999999999999999999999",
        "+-1", "0+1", "१२३", "123abc", "٠",
    ];
    for text in samples {
        assert_eq!(parse_u128(text), text.parse::<u128>().ok(), "u128 from {:?}", text);
        assert_eq!(parse_u64(text), text.parse::<u64>().ok(), "u64 from {:?}", text);
    }
}

#[test]
fn writing_agrees_with_std() {
    let mut n: u128 = 1;
    for _ in 0..128 {
        assert_eq!(u128_to_string(n), n.to_string());
        assert_eq!(u128_to_string(n - 1), (n - 1).to_string());
        n = n.wrapping_mul(2);
        if n == 0 {
            break;
        }
    }
    let mut m: u64 = 1;
    for _ in 0..20 {
        assert_eq!(u64_to_string(m), m.to_string());
        m = m.saturating_mul(10);
    }
}

#[test]
fn text_round_trips() {
    for n in [0u128, 1, 9, 10, 11, 99, 100, 255, 256, 65_535, u64::MAX as u128, u128::MAX - 1, u128::MAX] {
        assert_eq!(parse_u128(&u128_to_string(n)), Some(n));
    }
    for n in [0u64, 1, 10, 1_700_000_000_000_000_000, u64::MAX] {
        assert_eq!(parse_u64(&u64_to_string(n)), Some(n));
    }
}

#[test]
fn different_numbers_have_different_texts() {
    let numbers = [0u128, 1, 2, 10, 12, 21, 100, 101, 110];
    for a in numbers {
        for b in numbers {
            assert_eq!(u128_to_string(a) == u128_to_string(b), a == b);
        }
    }
}
