use schmargs::{parse, Field, FieldKind, IntParseError, SchmargsError, StrippedSchmargsError, Ty, Value};

fn args(s: &str) -> Vec<String> {
    s.split_whitespace().map(str::to_string).collect()
}

fn hexdump_fields() -> Vec<Field> {
    vec![
        Field {
            name: "color".to_string(),
            kind: FieldKind::Flag,
            short: Some('c'),
            long: Some("color".to_string()),
            ty: Ty::Str,
            optional: false,
        },
        Field {
            name: "group".to_string(),
            kind: FieldKind::Opt,
            short: Some('g'),
            long: Some("group".to_string()),
            ty: Ty::Unsigned(u8::MAX as u128),
            optional: true,
        },
        Field {
            name: "start".to_string(),
            kind: FieldKind::Positional,
            short: None,
            long: None,
            ty: Ty::Unsigned(usize::MAX as u128),
            optional: false,
        },
        Field {
            name: "len".to_string(),
            kind: FieldKind::Positional,
            short: None,
            long: None,
            ty: Ty::Unsigned(usize::MAX as u128),
            optional: false,
        },
    ]
}

#[test]
fn unmapped_short_flag_fails() {
    let fields = hexdump_fields();
    let r = parse(&fields, args("-f --group 8 0x40000000 256"));
    assert_eq!(r, Err(SchmargsError::NoSuchShortFlag('f')));
}

#[test]
fn hexdump_scenario_binds_every_field() {
    let fields = hexdump_fields();
    let vals = parse(&fields, args("--group 8 0x40000000 256")).unwrap();
    assert_eq!(vals[0], Value::Bool(false));
    assert_eq!(vals[1], Value::Unsigned(8));
    assert_eq!(vals[2], Value::Unsigned(0x40000000));
    assert_eq!(vals[3], Value::Unsigned(256));
}

#[test]
fn positional_overflow_fails() {
    let fields = vec![Field {
        name: "x".to_string(),
        kind: FieldKind::Positional,
        short: None,
        long: None,
        ty: Ty::Unsigned(u64::MAX as u128),
        optional: false,
    }];
    let r = parse(&fields, args("1 2"));
    assert_eq!(r, Err(SchmargsError::UnexpectedValue("2".to_string())));
}

#[test]
fn absent_optional_field_binds_absent() {
    let fields = vec![Field {
        name: "group".to_string(),
        kind: FieldKind::Opt,
        short: Some('g'),
        long: Some("group".to_string()),
        ty: Ty::Unsigned(u8::MAX as u128),
        optional: true,
    }];
    let vals = parse(&fields, Vec::new()).unwrap();
    assert_eq!(vals[0], Value::Absent);
}

#[test]
fn absent_mandatory_field_fails() {
    let fields = vec![Field {
        name: "start".to_string(),
        kind: FieldKind::Positional,
        short: None,
        long: None,
        ty: Ty::Unsigned(usize::MAX as u128),
        optional: false,
    }];
    let r = parse(&fields, Vec::new());
    assert_eq!(r, Err(SchmargsError::ExpectedValue("start".to_string())));
}

#[test]
fn unknown_long_flag_fails() {
    let fields = hexdump_fields();
    let r = parse(&fields, args("--bogus 1 2"));
    assert_eq!(r, Err(SchmargsError::NoSuchLongFlag("bogus".to_string())));
}

#[test]
fn option_missing_its_value_fails() {
    let fields = hexdump_fields();
    let r = parse(&fields, args("0 1 --group"));
    assert_eq!(r, Err(SchmargsError::ExpectedValue("group".to_string())));
}

#[test]
fn option_value_must_be_positional() {
    let fields = hexdump_fields();
    let r = parse(&fields, args("--group --color 1 2"));
    assert_eq!(r, Err(SchmargsError::ExpectedValue("group".to_string())));
}

#[test]
fn bad_number_reports_the_conversion_failure() {
    let fields = hexdump_fields();
    let r = parse(&fields, args("--group eight 0 1"));
    assert_eq!(r, Err(SchmargsError::ParseInt(IntParseError::InvalidDigit)));
}

#[test]
fn option_mid_group_takes_the_next_stream_token() {
    let fields = hexdump_fields();
    let vals = parse(&fields, args("-gc 8 0 1"));
    // The option `g` stands mid-group: its value is the next stream token
    // `8`, and the remaining group character `c` is still processed.
    let vals = vals.unwrap();
    assert_eq!(vals[0], Value::Bool(true));
    assert_eq!(vals[1], Value::Unsigned(8));
    assert_eq!(vals[2], Value::Unsigned(0));
    assert_eq!(vals[3], Value::Unsigned(1));
}

#[test]
fn flags_bundle_into_one_group() {
    let fields = vec![
        Field {
            name: "x".to_string(),
            kind: FieldKind::Flag,
            short: Some('x'),
            long: None,
            ty: Ty::Str,
            optional: false,
        },
        Field {
            name: "v".to_string(),
            kind: FieldKind::Flag,
            short: Some('v'),
            long: None,
            ty: Ty::Str,
            optional: false,
        },
        Field {
            name: "f".to_string(),
            kind: FieldKind::Flag,
            short: Some('f'),
            long: None,
            ty: Ty::Str,
            optional: false,
        },
    ];
    let vals = parse(&fields, args("-xf")).unwrap();
    assert_eq!(vals[0], Value::Bool(true));
    assert_eq!(vals[1], Value::Bool(false));
    assert_eq!(vals[2], Value::Bool(true));
}

#[test]
fn trailing_list_claims_everything_left() {
    let fields = vec![
        Field {
            name: "first".to_string(),
            kind: FieldKind::Positional,
            short: None,
            long: None,
            ty: Ty::Unsigned(u64::MAX as u128),
            optional: false,
        },
        Field {
            name: "rest".to_string(),
            kind: FieldKind::Positional,
            short: None,
            long: None,
            ty: Ty::StrList,
            optional: false,
        },
    ];
    let vals = parse(&fields, args("7 a b c")).unwrap();
    assert_eq!(vals[0], Value::Unsigned(7));
    assert_eq!(
        vals[1],
        Value::StrList(vec!["a".to_string(), "b".to_string(), "c".to_string()])
    );
}

#[test]
fn strip_keeps_the_kind_and_drops_the_token() {
    assert_eq!(
        SchmargsError::NoSuchShortFlag('f').strip(),
        StrippedSchmargsError::NoSuchShortFlag('f')
    );
    assert_eq!(
        SchmargsError::NoSuchLongFlag("bogus".to_string()).strip(),
        StrippedSchmargsError::NoSuchLongFlag
    );
    assert_eq!(
        SchmargsError::UnexpectedValue("2".to_string()).strip(),
        StrippedSchmargsError::UnexpectedValue
    );
    assert_eq!(
        SchmargsError::ExpectedValue("start".to_string()).strip(),
        StrippedSchmargsError::ExpectedValue("start".to_string())
    );
    assert_eq!(
        SchmargsError::ParseInt(IntParseError::PosOverflow).strip(),
        StrippedSchmargsError::ParseInt(IntParseError::PosOverflow)
    );
    let stripped: StrippedSchmargsError = SchmargsError::NoSuchShortFlag('q').into();
    assert_eq!(stripped, StrippedSchmargsError::NoSuchShortFlag('q'));
}
