use pack_planner::decimal::Decimal;
use pack_planner::number::{parse_i32, NumberError};
use pack_planner::sort_order::PackSortOrder;
use pack_planner::text::{begins_with, char_is_whitespace, chars_of, same_text, split_fields, trim};

fn units_of(text: &str) -> Result<i64, NumberError> {
    Decimal::from_str(text).map(|value| value.units())
}

#[test]
fn white_space_is_what_the_standard_library_says() {
    for code in 0..=0x10ffffu32 {
        if let Some(c) = char::from_u32(code) {
            assert_eq!(char_is_whitespace(c), c.is_whitespace(), "character {code:#x}");
        }
    }
}

#[test]
fn trimming_removes_white_space_on_both_sides_only() {
    assert_eq!(trim("  a b \t"), "a b");
    assert_eq!(trim("\u{3000}\r\nNATURAL,1,2\u{a0}\u{85}"), "NATURAL,1,2");
    assert_eq!(trim("abc"), "abc");
    assert_eq!(trim(" \t "), "");
    assert_eq!(trim(""), "");
    assert_eq!(trim(" \u{e9}t\u{e9} "), "\u{e9}t\u{e9}");
    for text in ["", " ", "a", " a", "a ", " a ", "\ta  b\n", "\u{2003}x\u{2003}y\u{2003}"] {
        assert_eq!(trim(text), text.trim());
    }
}

#[test]
fn splitting_gives_one_field_more_than_there_are_separators() {
    assert_eq!(split_fields("a,b,c", ','), vec!["a", "b", "c"]);
    assert_eq!(split_fields("", ','), vec![""]);
    assert_eq!(split_fields(",", ','), vec!["", ""]);
    assert_eq!(split_fields("a,,b,", ','), vec!["a", "", "b", ""]);
    assert_eq!(split_fields("no separator", ','), vec!["no separator"]);
    assert_eq!(split_fields("\u{e9}t\u{e9};\u{4e2d}\u{6587};z", ';'), vec!["\u{e9}t\u{e9}", "\u{4e2d}\u{6587}", "z"]);
    for text in ["", ",", ",,", "a,b", ",a,b,", "10.5,20,,x"] {
        let expected: Vec<&str> = text.split(',').collect();
        assert_eq!(split_fields(text, ','), expected);
    }
}

#[test]
fn characters_and_prefixes_are_compared_one_by_one() {
    assert_eq!(chars_of("a\u{e9}\u{4e2d}"), vec!['a', '\u{e9}', '\u{4e2d}']);
    assert!(begins_with(&chars_of("NATURAL,1,2"), "NATURAL"));
    assert!(begins_with(&chars_of("NATURALLY"), "NATURAL"));
    assert!(begins_with(&chars_of("abc"), ""));
    assert!(!begins_with(&chars_of("NATURA"), "NATURAL"));
    assert!(!begins_with(&chars_of("natural"), "NATURAL"));
    assert!(same_text("abc", "abc"));
    assert!(same_text("", ""));
    assert!(!same_text("abc", "abcd"));
    assert!(!same_text("abcd", "abc"));
    assert!(!same_text("abc", "abd"));
}

#[test]
fn whole_numbers_are_a_sign_and_digits() {
    assert_eq!(parse_i32("0"), Ok(0));
    assert_eq!(parse_i32("20"), Ok(20));
    assert_eq!(parse_i32("+7"), Ok(7));
    assert_eq!(parse_i32("-15"), Ok(-15));
    assert_eq!(parse_i32("-0"), Ok(0));
    assert_eq!(parse_i32("000123"), Ok(123));
    assert_eq!(parse_i32("2147483647"), Ok(2147483647));
    assert_eq!(parse_i32("-2147483648"), Ok(-2147483648));
    assert_eq!(parse_i32("00000000000000000000000000000000000000000000042"), Ok(42));
}

#[test]
fn whole_numbers_at_fault_say_why() {
    assert_eq!(parse_i32(""), Err(NumberError::Empty));
    assert_eq!(parse_i32("abc"), Err(NumberError::InvalidDigit));
    assert_eq!(parse_i32("+"), Err(NumberError::InvalidDigit));
    assert_eq!(parse_i32("-"), Err(NumberError::InvalidDigit));
    assert_eq!(parse_i32("1 "), Err(NumberError::InvalidDigit));
    assert_eq!(parse_i32(" 1"), Err(NumberError::InvalidDigit));
    assert_eq!(parse_i32("1.0"), Err(NumberError::InvalidDigit));
    assert_eq!(parse_i32("--1"), Err(NumberError::InvalidDigit));
    assert_eq!(parse_i32("1_000"), Err(NumberError::InvalidDigit));
    assert_eq!(parse_i32("\u{0663}"), Err(NumberError::InvalidDigit));
    assert_eq!(parse_i32("2147483648"), Err(NumberError::OutOfRange));
    assert_eq!(parse_i32("-2147483649"), Err(NumberError::OutOfRange));
    assert_eq!(parse_i32("99999999999999999999999999999999"), Err(NumberError::OutOfRange));
    assert_eq!(parse_i32("99999999999999999999999999999999x"), Err(NumberError::InvalidDigit));
}

#[test]
fn whole_numbers_agree_with_the_standard_library() {
    for text in ["0", "-0", "+0", "12", "-12", "+12", "2147483647", "2147483648", "-2147483648",
        "-2147483649", "", "+", "-", "1a", "a1", " 1", "1 ", "0x10", "1e3", "١٢"]
    {
        assert_eq!(parse_i32(text).ok(), text.parse::<i32>().ok(), "text {text:?}");
    }
}

#[test]
fn decimals_count_millionths() {
    assert_eq!(units_of("10.5"), Ok(10_500_000));
    assert_eq!(units_of("3.0"), Ok(3_000_000));
    assert_eq!(units_of("20"), Ok(20_000_000));
    assert_eq!(units_of("0"), Ok(0));
    assert_eq!(units_of("-0.0"), Ok(0));
    assert_eq!(units_of("+1.25"), Ok(1_250_000));
    assert_eq!(units_of("-1.25"), Ok(-1_250_000));
    assert_eq!(units_of(".5"), Ok(500_000));
    assert_eq!(units_of("5."), Ok(5_000_000));
    assert_eq!(units_of("0.000001"), Ok(1));
    assert_eq!(units_of("0.123456"), Ok(123_456));
    assert_eq!(units_of("0.1234560000"), Ok(123_456));
    assert_eq!(units_of("007.070"), Ok(7_070_000));
    assert_eq!(units_of("1000000000000"), Ok(1_000_000_000_000_000_000));
    assert_eq!(units_of("-1000000000000.000000"), Ok(-1_000_000_000_000_000_000));
    assert_eq!(units_of("999999999999.999999"), Ok(999_999_999_999_999_999));
}

#[test]
fn decimals_at_fault_say_why() {
    assert_eq!(units_of(""), Err(NumberError::Empty));
    assert_eq!(units_of("abc"), Err(NumberError::InvalidDigit));
    assert_eq!(units_of("xyz"), Err(NumberError::InvalidDigit));
    assert_eq!(units_of("."), Err(NumberError::InvalidDigit));
    assert_eq!(units_of("+"), Err(NumberError::InvalidDigit));
    assert_eq!(units_of("-."), Err(NumberError::InvalidDigit));
    assert_eq!(units_of("1.2.3"), Err(NumberError::InvalidDigit));
    assert_eq!(units_of("1..2"), Err(NumberError::InvalidDigit));
    assert_eq!(units_of("1,5"), Err(NumberError::InvalidDigit));
    assert_eq!(units_of("1e3"), Err(NumberError::InvalidDigit));
    assert_eq!(units_of("inf"), Err(NumberError::InvalidDigit));
    assert_eq!(units_of("NaN"), Err(NumberError::InvalidDigit));
    assert_eq!(units_of(" 1"), Err(NumberError::InvalidDigit));
    assert_eq!(units_of("1.5x"), Err(NumberError::InvalidDigit));
    assert_eq!(units_of("1.0000001x"), Err(NumberError::InvalidDigit));
    assert_eq!(units_of("x1.0000001"), Err(NumberError::InvalidDigit));
    assert_eq!(units_of("0.0000001"), Err(NumberError::TooPrecise));
    assert_eq!(units_of("1.1234567"), Err(NumberError::TooPrecise));
    assert_eq!(units_of("99999999999999999999.1234567"), Err(NumberError::TooPrecise));
    assert_eq!(units_of("1000000000000.000001"), Err(NumberError::OutOfRange));
    assert_eq!(units_of("-1000000000000.000001"), Err(NumberError::OutOfRange));
    assert_eq!(units_of("99999999999999999999999999999"), Err(NumberError::OutOfRange));
}

#[test]
fn decimals_are_made_of_units_within_range_only() {
    assert_eq!(Decimal::zero().units(), 0);
    assert_eq!(Decimal::from_units(-42).map(|value| value.units()), Some(-42));
    assert_eq!(
        Decimal::from_units(1_000_000_000_000_000_000).map(|value| value.units()),
        Some(1_000_000_000_000_000_000)
    );
    assert_eq!(Decimal::from_units(1_000_000_000_000_000_001), None);
    assert_eq!(Decimal::from_units(-1_000_000_000_000_000_001), None);
    assert_eq!(Decimal::from_units(i64::MIN), None);
    assert_eq!(Decimal::from_units_in_range(7).units(), 7);
    assert_eq!(Decimal::from_str("0.000007"), Ok(Decimal::from_units_in_range(7)));
}

#[test]
fn keywords_are_matched_exactly() {
    assert_eq!(PackSortOrder::from_str("NATURAL"), Ok(PackSortOrder::Natural));
    assert_eq!(PackSortOrder::from_str("SHORT_TO_LONG"), Ok(PackSortOrder::ShortToLong));
    assert_eq!(PackSortOrder::from_str("LONG_TO_SHORT"), Ok(PackSortOrder::LongToShort));
    for text in ["", "natural", "Natural", "NATURAL ", " NATURAL", "NATURA", "NATURALLY", "NotSet",
        "SHORT_TO_LON", "LONG_TO_SHORTER", "SHORT-TO-LONG"]
    {
        assert_eq!(
            PackSortOrder::from_str(text),
            Err(strum::ParseError::VariantNotFound),
            "text {text:?}"
        );
    }
}

#[test]
fn keywords_read_back_as_their_order() {
    for order in [PackSortOrder::Natural, PackSortOrder::ShortToLong, PackSortOrder::LongToShort] {
        assert_eq!(PackSortOrder::from_str(&order.to_string()), Ok(order));
    }
}

#[test]
fn joining_the_fields_of_a_text_gives_the_text_back() {
    for text in ["", ",", "a", "a,b", ",a,,b,", "10.5,20,,x", "no commas at all"] {
        let fields = split_fields(text, ',');
        assert!(fields.iter().all(|field| !field.contains(',')));
        assert_eq!(fields.join(","), text);
    }
}
