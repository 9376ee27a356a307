use schmargs::{IntParseError, SchmargsError, SchmargsField};

#[test]
fn hex_and_decimal_bind_the_same_value() {
    let from_hex = u64::parse_str("0xff".to_string()).unwrap();
    let from_dec = u64::parse_str("255".to_string()).unwrap();
    assert_eq!(from_hex, from_dec);
    assert_eq!(from_hex, 255);
}

#[test]
fn decimal_parses() {
    assert_eq!(u8::parse_str("0".to_string()).unwrap(), 0);
    assert_eq!(u8::parse_str("255".to_string()).unwrap(), 255);
    assert_eq!(u128::parse_str("3141592".to_string()).unwrap(), 3141592);
    assert_eq!(usize::parse_str("42".to_string()).unwrap(), 42);
}

#[test]
fn hex_parses() {
    assert_eq!(u8::parse_str("0xfe".to_string()).unwrap(), 0xfe);
    assert_eq!(u32::parse_str("0xDEADBEEF".to_string()).unwrap(), 0xdeadbeef);
    assert_eq!(usize::parse_str("0x40000000".to_string()).unwrap(), 0x40000000);
}

#[test]
fn signed_parses() {
    assert_eq!(i8::parse_str("-2".to_string()).unwrap(), -2);
    assert_eq!(i8::parse_str("-128".to_string()).unwrap(), -128);
    assert_eq!(i8::parse_str("127".to_string()).unwrap(), 127);
    assert_eq!(i64::parse_str("-3141592".to_string()).unwrap(), -3141592);
    assert_eq!(i64::parse_str("0xfe".to_string()).unwrap(), 0xfe);
    assert_eq!(i128::parse_str("+7".to_string()).unwrap(), 7);
}

#[test]
fn empty_text_is_reported() {
    assert_eq!(
        u8::parse_str(String::new()),
        Err(SchmargsError::ParseInt(IntParseError::Empty))
    );
}

#[test]
fn invalid_digits_are_reported() {
    assert_eq!(
        u8::parse_str("12x".to_string()),
        Err(SchmargsError::ParseInt(IntParseError::InvalidDigit))
    );
    assert_eq!(
        u8::parse_str("-5".to_string()),
        Err(SchmargsError::ParseInt(IntParseError::InvalidDigit))
    );
    assert_eq!(
        u8::parse_str("+".to_string()),
        Err(SchmargsError::ParseInt(IntParseError::InvalidDigit))
    );
    assert_eq!(
        i8::parse_str("-0x5".to_string()),
        Err(SchmargsError::ParseInt(IntParseError::InvalidDigit))
    );
}

#[test]
fn overflow_is_reported() {
    assert_eq!(
        u8::parse_str("256".to_string()),
        Err(SchmargsError::ParseInt(IntParseError::PosOverflow))
    );
    assert_eq!(
        u64::parse_str("99999999999999999999999999".to_string()),
        Err(SchmargsError::ParseInt(IntParseError::PosOverflow))
    );
    assert_eq!(
        i8::parse_str("128".to_string()),
        Err(SchmargsError::ParseInt(IntParseError::PosOverflow))
    );
    assert_eq!(
        i8::parse_str("-129".to_string()),
        Err(SchmargsError::ParseInt(IntParseError::NegOverflow))
    );
}

#[test]
fn hex_digit_case_does_not_matter() {
    assert_eq!(u16::parse_str("0xAb".to_string()).unwrap(), 0xab);
}

#[test]
fn string_field_passes_through() {
    assert_eq!(
        String::parse_str("anything -x".to_string()).unwrap(),
        "anything -x".to_string()
    );
}

#[test]
fn option_field_wraps_its_inner_type() {
    assert_eq!(Option::<u8>::parse_str("0xfe".to_string()).unwrap(), Some(0xfe));
    assert_eq!(Option::<u8>::as_option(), Some(None));
    assert_eq!(u8::as_option(), None);
}

#[test]
fn vec_field_splits_commas_on_a_single_token() {
    let vals = Vec::<String>::parse_str("Billy,Samantha,Muffin".to_string()).unwrap();
    assert_eq!(vals, vec!["Billy", "Samantha", "Muffin"]);
    let nums = Vec::<u8>::parse_str("1,2,0xfe".to_string()).unwrap();
    assert_eq!(nums, vec![1, 2, 0xfe]);
}

#[test]
fn vec_field_takes_the_rest_one_element_per_token() {
    let rest = vec!["Samantha".to_string(), "Muffin".to_string()];
    let vals = Vec::<String>::parse_it("Billy".to_string(), rest).unwrap();
    assert_eq!(vals, vec!["Billy", "Samantha", "Muffin"]);
}

#[test]
fn empty_pieces_between_commas_fail_for_numbers() {
    assert_eq!(
        Vec::<u8>::parse_str("1,,2".to_string()),
        Err(SchmargsError::ParseInt(IntParseError::Empty))
    );
}

#[test]
fn empty_pieces_between_commas_stay_for_strings() {
    let vals = Vec::<String>::parse_str("a,,b".to_string()).unwrap();
    assert_eq!(vals, vec!["a", "", "b"]);
}

#[test]
fn split_commas_on_empty_text_gives_one_empty_piece() {
    assert_eq!(schmargs::split_commas(""), vec!["".to_string()]);
    assert_eq!(schmargs::split_commas("a,b"), vec!["a".to_string(), "b".to_string()]);
}

#[test]
fn extreme_bounds_parse_exactly() {
    assert_eq!(
        u128::parse_str("340282366920938463463374607431768211455".to_string()).unwrap(),
        u128::MAX
    );
    assert_eq!(
        u128::parse_str("340282366920938463463374607431768211456".to_string()),
        Err(SchmargsError::ParseInt(IntParseError::PosOverflow))
    );
    assert_eq!(
        i128::parse_str("-170141183460564031503904321131212176128".to_string()),
        Err(SchmargsError::ParseInt(IntParseError::NegOverflow))
    );
    assert_eq!(
        i128::parse_str("-170141183460564819968".to_string()).unwrap(),
        -170141183460564819968
    );
    assert_eq!(
        i128::parse_str("170141183460469231731687303715884105727".to_string()).unwrap(),
        i128::MAX
    );
    assert_eq!(
        i128::parse_str("-170141183460469231731687303715884105728".to_string()).unwrap(),
        i128::MIN
    );
}
