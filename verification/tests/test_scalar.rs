use serde_yml::number::Width;
use serde_yml::scalar::{
    ambiguous_lowercase, ambiguous_string, digits_but_not_number, parse_bool, parse_f64,
    parse_negative_int, parse_null, parse_signed_int, parse_unsigned_int, visit_int, Float, Int,
};

#[test]
fn test_parse_null_words() {
    assert_eq!(parse_null(b"null"), Some(()));
    assert_eq!(parse_null(b"Null"), Some(()));
    assert_eq!(parse_null(b"NULL"), Some(()));
    assert_eq!(parse_null(b"~"), Some(()));
    assert_eq!(parse_null(b"nULL"), None);
    assert_eq!(parse_null(b""), None);
    assert_eq!(parse_null(b"nul"), None);
}

#[test]
fn test_parse_bool_words() {
    assert_eq!(parse_bool("true"), Some(true));
    assert_eq!(parse_bool("True"), Some(true));
    assert_eq!(parse_bool("TRUE"), Some(true));
    assert_eq!(parse_bool("false"), Some(false));
    assert_eq!(parse_bool("False"), Some(false));
    assert_eq!(parse_bool("FALSE"), Some(false));
    assert_eq!(parse_bool("yes"), None);
    assert_eq!(parse_bool("tRUE"), None);
    assert_eq!(parse_bool(""), None);
}

#[test]
fn test_leading_zero_is_no_number() {
    assert!(digits_but_not_number("01"));
    assert!(digits_but_not_number("-007"));
    assert!(digits_but_not_number("+00"));
    assert!(!digits_but_not_number("0"));
    assert!(!digits_but_not_number("-0"));
    assert!(!digits_but_not_number("0x1"));
    assert!(!digits_but_not_number("10"));
    assert!(!digits_but_not_number("0.5"));
    assert!(!digits_but_not_number(""));
    assert_eq!(visit_int("01"), None);
    assert_eq!(visit_int("0"), Some(Int::U64(0)));
}

#[test]
fn test_parse_unsigned_int_forms() {
    assert_eq!(parse_unsigned_int("0", Width::Bits64), Some(0));
    assert_eq!(parse_unsigned_int("127", Width::Bits64), Some(127));
    assert_eq!(parse_unsigned_int("+127", Width::Bits64), Some(127));
    assert_eq!(parse_unsigned_int("0x1A", Width::Bits64), Some(26));
    assert_eq!(parse_unsigned_int("0xff", Width::Bits64), Some(255));
    assert_eq!(parse_unsigned_int("+0x10", Width::Bits64), Some(16));
    assert_eq!(parse_unsigned_int("0o17", Width::Bits64), Some(15));
    assert_eq!(parse_unsigned_int("0b101", Width::Bits64), Some(5));
    assert_eq!(parse_unsigned_int("0x-5", Width::Bits64), None);
    assert_eq!(parse_unsigned_int("0x+5", Width::Bits64), None);
    assert_eq!(parse_unsigned_int("0x", Width::Bits64), None);
    assert_eq!(parse_unsigned_int("0o8", Width::Bits64), None);
    assert_eq!(parse_unsigned_int("0b2", Width::Bits64), None);
    assert_eq!(parse_unsigned_int("-1", Width::Bits64), None);
    assert_eq!(parse_unsigned_int("++1", Width::Bits64), None);
    assert_eq!(parse_unsigned_int("+-1", Width::Bits64), None);
    assert_eq!(parse_unsigned_int("+", Width::Bits64), None);
    assert_eq!(parse_unsigned_int("", Width::Bits64), None);
    assert_eq!(parse_unsigned_int("007", Width::Bits64), None);
    assert_eq!(parse_unsigned_int("1_000", Width::Bits64), None);
    assert_eq!(parse_unsigned_int(" 1", Width::Bits64), None);
    assert_eq!(
        parse_unsigned_int("18446744073709551615", Width::Bits64),
        Some(u64::MAX as u128)
    );
    assert_eq!(parse_unsigned_int("18446744073709551616", Width::Bits64), None);
    assert_eq!(
        parse_unsigned_int("18446744073709551616", Width::Bits128),
        Some(18446744073709551616)
    );
    assert_eq!(
        parse_unsigned_int("340282366920938463463374607431768211455", Width::Bits128),
        Some(u128::MAX)
    );
    assert_eq!(
        parse_unsigned_int("340282366920938463463374607431768211456", Width::Bits128),
        None
    );
}

#[test]
fn test_parse_signed_int_forms() {
    assert_eq!(parse_signed_int("0", Width::Bits64), Some(0));
    assert_eq!(parse_signed_int("-0", Width::Bits64), Some(0));
    assert_eq!(parse_signed_int("-12", Width::Bits64), Some(-12));
    assert_eq!(parse_signed_int("+12", Width::Bits64), Some(12));
    assert_eq!(parse_signed_int("0x1A", Width::Bits64), Some(26));
    assert_eq!(parse_signed_int("-0x1A", Width::Bits64), Some(-26));
    assert_eq!(parse_signed_int("+0x1A", Width::Bits64), Some(26));
    assert_eq!(parse_signed_int("-0o17", Width::Bits64), Some(-15));
    assert_eq!(parse_signed_int("0o17", Width::Bits64), Some(15));
    assert_eq!(parse_signed_int("-0b101", Width::Bits64), Some(-5));
    assert_eq!(parse_signed_int("0b101", Width::Bits64), Some(5));
    assert_eq!(parse_signed_int("+-12", Width::Bits64), None);
    assert_eq!(parse_signed_int("++12", Width::Bits64), None);
    assert_eq!(parse_signed_int("--12", Width::Bits64), None);
    assert_eq!(parse_signed_int("0x-5", Width::Bits64), None);
    assert_eq!(parse_signed_int("-0x-5", Width::Bits64), None);
    assert_eq!(parse_signed_int("-0x", Width::Bits64), None);
    assert_eq!(parse_signed_int("-012", Width::Bits64), None);
    assert_eq!(parse_signed_int("-", Width::Bits64), None);
    assert_eq!(
        parse_signed_int("9223372036854775807", Width::Bits64),
        Some(i64::MAX as i128)
    );
    assert_eq!(parse_signed_int("9223372036854775808", Width::Bits64), None);
    assert_eq!(
        parse_signed_int("-9223372036854775808", Width::Bits64),
        Some(i64::MIN as i128)
    );
    assert_eq!(parse_signed_int("-9223372036854775809", Width::Bits64), None);
    assert_eq!(
        parse_signed_int("-0x8000000000000000", Width::Bits64),
        Some(i64::MIN as i128)
    );
    assert_eq!(
        parse_signed_int("-170141183460469231731687303715884105728", Width::Bits128),
        Some(i128::MIN)
    );
    assert_eq!(
        parse_signed_int("-170141183460469231731687303715884105729", Width::Bits128),
        None
    );
    assert_eq!(
        parse_signed_int("170141183460469231731687303715884105727", Width::Bits128),
        Some(i128::MAX)
    );
}

#[test]
fn test_parse_negative_int_forms() {
    assert_eq!(parse_negative_int("-0x1A", Width::Bits64), Some(-26));
    assert_eq!(parse_negative_int("-0o7", Width::Bits64), Some(-7));
    assert_eq!(parse_negative_int("-0b11", Width::Bits64), Some(-3));
    assert_eq!(parse_negative_int("-5", Width::Bits64), Some(-5));
    assert_eq!(parse_negative_int("+5", Width::Bits64), Some(5));
    assert_eq!(parse_negative_int("5", Width::Bits64), Some(5));
    assert_eq!(parse_negative_int("-05", Width::Bits64), None);
    assert_eq!(parse_negative_int("0x1A", Width::Bits64), None);
    assert_eq!(parse_negative_int("-0xZZ", Width::Bits64), None);
}

#[test]
fn test_visit_int_picks_first_type_that_fits() {
    assert_eq!(visit_int("26"), Some(Int::U64(26)));
    assert_eq!(visit_int("-0x1A"), Some(Int::I64(-26)));
    assert_eq!(visit_int("-26"), Some(Int::I64(-26)));
    assert_eq!(
        visit_int("18446744073709551616"),
        Some(Int::U128(18446744073709551616))
    );
    assert_eq!(
        visit_int("-9223372036854775809"),
        Some(Int::I128(-9223372036854775809))
    );
    assert_eq!(visit_int("-0"), Some(Int::I64(0)));
    assert_eq!(visit_int("1.5"), None);
    assert_eq!(visit_int("abc"), None);
    assert_eq!(visit_int(""), None);
}

#[test]
fn test_parse_f64_forms() {
    assert!(matches!(parse_f64(".inf"), Some(Float::Infinity)));
    assert!(matches!(parse_f64(".Inf"), Some(Float::Infinity)));
    assert!(matches!(parse_f64(".INF"), Some(Float::Infinity)));
    assert!(matches!(parse_f64("+.inf"), Some(Float::Infinity)));
    assert!(matches!(parse_f64("-.inf"), Some(Float::NegInfinity)));
    assert!(matches!(parse_f64("-.Inf"), Some(Float::NegInfinity)));
    assert!(matches!(parse_f64("-.INF"), Some(Float::NegInfinity)));
    assert!(matches!(parse_f64(".nan"), Some(Float::Nan)));
    assert!(matches!(parse_f64(".NaN"), Some(Float::Nan)));
    assert!(matches!(parse_f64(".NAN"), Some(Float::Nan)));
    assert!(matches!(parse_f64("-.nan"), Some(Float::Decimal("-.nan"))));
    assert!(matches!(parse_f64("+.nan"), Some(Float::Decimal(".nan"))));
    assert!(matches!(parse_f64("1.5"), Some(Float::Decimal("1.5"))));
    assert!(matches!(parse_f64("+1.5"), Some(Float::Decimal("1.5"))));
    assert!(matches!(parse_f64("-1.5"), Some(Float::Decimal("-1.5"))));
    assert!(matches!(parse_f64(".iNf"), Some(Float::Decimal(".iNf"))));
    assert!(parse_f64("++1.5").is_none());
    assert!(parse_f64("+-1.5").is_none());
}

#[test]
fn test_ambiguous_string() {
    assert!(ambiguous_string("true"));
    assert!(ambiguous_string("TRUE"));
    assert!(ambiguous_string("False"));
    assert!(ambiguous_string("NULL"));
    assert!(ambiguous_string("~"));
    assert!(ambiguous_string(""));
    assert!(ambiguous_string("123abc"));
    assert!(ambiguous_string("-x"));
    assert!(ambiguous_string(".5"));
    assert!(ambiguous_string("+1"));
    assert!(ambiguous_string("y"));
    assert!(ambiguous_string("YES"));
    assert!(ambiguous_string("N"));
    assert!(ambiguous_string("No"));
    assert!(ambiguous_string("ON"));
    assert!(ambiguous_string("Off"));
    assert!(ambiguous_string("NIL"));
    assert!(ambiguous_string("NaN"));
    assert!(!ambiguous_string("hello"));
    assert!(!ambiguous_string("yesterday"));
    assert!(!ambiguous_string("a1"));
    assert!(!ambiguous_string("truth"));
}

#[test]
fn test_ambiguous_lowercase_takes_text_as_it_is() {
    assert!(ambiguous_lowercase("yes"));
    assert!(!ambiguous_lowercase("YES"));
    assert!(ambiguous_lowercase("TRUE"));
    assert!(!ambiguous_lowercase("NIL"));
}
