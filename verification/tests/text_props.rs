use hungersim::numtext::{pad_to, u64_to_string};
use hungersim::parse::{parse_choice, parse_positive_integer};

#[test]
fn decimal_rendering() {
    assert_eq!(u64_to_string(0), "0");
    assert_eq!(u64_to_string(7), "7");
    assert_eq!(u64_to_string(10), "10");
    assert_eq!(u64_to_string(35), "35");
    assert_eq!(u64_to_string(100), "100");
    assert_eq!(u64_to_string(987654321), "987654321");
    assert_eq!(u64_to_string(u64::MAX), "18446744073709551615");
}

#[test]
fn padding_fills_to_width_and_never_truncates() {
    assert_eq!(pad_to("abc".to_string(), 7), "abc    ");
    assert_eq!(pad_to(String::new(), 3), "   ");
    assert_eq!(pad_to("exactly".to_string(), 7), "exactly");
    assert_eq!(pad_to("a longer value".to_string(), 7), "a longer value");
}

#[test]
fn choice_parsing_accepts_trimmed_numbers() {
    assert_eq!(parse_choice("1"), 1);
    assert_eq!(parse_choice(" 2 \n"), 2);
    assert_eq!(parse_choice("\t-17\r\n"), -17);
    assert_eq!(parse_choice("+5"), 5);
    assert_eq!(parse_choice("007"), 7);
    assert_eq!(parse_choice("2147483647"), i32::MAX);
    assert_eq!(parse_choice("-2147483648"), i32::MIN);
}

#[test]
fn malformed_choices_read_as_zero() {
    assert_eq!(parse_choice(""), 0);
    assert_eq!(parse_choice("   "), 0);
    assert_eq!(parse_choice("abc"), 0);
    assert_eq!(parse_choice("1a"), 0);
    assert_eq!(parse_choice("-"), 0);
    assert_eq!(parse_choice("+"), 0);
    assert_eq!(parse_choice("1 2"), 0);
    // out of the i32 range
    assert_eq!(parse_choice("2147483648"), 0);
    assert_eq!(parse_choice("-2147483649"), 0);
    assert_eq!(parse_choice("99999999999999999999"), 0);
}

#[test]
fn positive_integer_parsing_applies_the_limit() {
    assert_eq!(parse_positive_integer("12\n", 24), 12);
    assert_eq!(parse_positive_integer("0", 24), 0);
    assert_eq!(parse_positive_integer("24", 24), 24);
    // above the limit or negative: the error value
    assert_eq!(parse_positive_integer("25", 24), -1);
    assert_eq!(parse_positive_integer("-3", 24), -1);
    // malformed input reads as zero first
    assert_eq!(parse_positive_integer("abc", 24), 0);
    // a negative limit means no limit
    assert_eq!(parse_positive_integer("2147483647", -5), i32::MAX);
}
