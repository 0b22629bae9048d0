use mini_shell::number::{decimal_text, parse_i32, push_decimal};
use mini_shell::text::chars_of;

fn digits(n: u64) -> String {
    decimal_text(n).iter().collect()
}

#[test]
fn decimal_text_writes_numerals_without_leading_zeros() {
    assert_eq!(digits(0), "0");
    assert_eq!(digits(7), "7");
    assert_eq!(digits(10), "10");
    assert_eq!(digits(12345), "12345");
    assert_eq!(digits(1000000), "1000000");
    assert_eq!(digits(u64::MAX), "18446744073709551615");
}

#[test]
fn push_decimal_appends() {
    let mut out = vec!['n', '='];
    push_decimal(&mut out, 405);
    assert_eq!(out, vec!['n', '=', '4', '0', '5']);
}

#[test]
fn parse_i32_reads_signed_numerals() {
    assert_eq!(parse_i32(&chars_of("42")), Some(42));
    assert_eq!(parse_i32(&chars_of("-7")), Some(-7));
    assert_eq!(parse_i32(&chars_of("+3")), Some(3));
    assert_eq!(parse_i32(&chars_of("0")), Some(0));
    assert_eq!(parse_i32(&chars_of("-0")), Some(0));
    assert_eq!(parse_i32(&chars_of("0005")), Some(5));
}

#[test]
fn parse_i32_knows_the_limits() {
    assert_eq!(parse_i32(&chars_of("2147483647")), Some(i32::MAX));
    assert_eq!(parse_i32(&chars_of("2147483648")), None);
    assert_eq!(parse_i32(&chars_of("-2147483648")), Some(i32::MIN));
    assert_eq!(parse_i32(&chars_of("-2147483649")), None);
    assert_eq!(parse_i32(&chars_of("99999999999999999999999999")), None);
    assert_eq!(parse_i32(&chars_of("00000000000000000000000012")), Some(12));
}

#[test]
fn parse_i32_refuses_what_is_no_numeral() {
    for s in ["", "-", "+", "12a", "a12", " 5", "5 ", "1.0", "--1", "+-1", "１２"] {
        assert_eq!(parse_i32(&chars_of(s)), None, "{:?}", s);
    }
}

#[test]
fn parse_i32_agrees_with_std() {
    for s in ["1", "-1", "+1", "007", "2147483647", "2147483648", "-2147483648", "-2147483649", "", "+", "x", "1x", "-+1", "4294967296"] {
        assert_eq!(parse_i32(&chars_of(s)), s.parse::<i32>().ok(), "{:?}", s);
    }
}
