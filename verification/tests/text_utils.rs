use objection::text::{dec_value_of, i32_to_string, i64_to_string, is_digit, u64_to_string};

#[test]
fn unsigned_rendering() {
    assert_eq!(u64_to_string(0), "0");
    assert_eq!(u64_to_string(9), "9");
    assert_eq!(u64_to_string(10), "10");
    assert_eq!(u64_to_string(152), "152");
    assert_eq!(u64_to_string(u64::MAX), "18446744073709551615");
}

#[test]
fn signed_rendering() {
    assert_eq!(i64_to_string(0), "0");
    assert_eq!(i64_to_string(152), "152");
    assert_eq!(i64_to_string(-8), "-8");
    assert_eq!(i64_to_string(i64::MIN), "-9223372036854775808");
    assert_eq!(i64_to_string(i64::MAX), "9223372036854775807");
    assert_eq!(i32_to_string(-16), "-16");
}

#[test]
fn decimal_reading() {
    assert_eq!(dec_value_of("152"), Some(152));
    assert_eq!(dec_value_of("0"), Some(0));
    assert_eq!(dec_value_of("007"), Some(7));
    assert_eq!(dec_value_of(""), None);
    assert_eq!(dec_value_of("12a"), None);
    assert_eq!(dec_value_of("-3"), None);
    assert_eq!(dec_value_of("9223372036854775807"), Some(i64::MAX));
    assert_eq!(dec_value_of("9223372036854775808"), None);
    assert_eq!(dec_value_of("99999999999999999999"), None);
}

#[test]
fn reading_undoes_rendering() {
    for v in [0i64, 1, 9, 10, 152, 4096, i64::MAX] {
        assert_eq!(dec_value_of(i64_to_string(v).as_str()), Some(v));
    }
}

#[test]
fn digit_class() {
    assert!(is_digit('0'));
    assert!(is_digit('9'));
    assert!(!is_digit('a'));
    assert!(!is_digit(' '));
}
