use schmargs::{
    intercept, parse, ArgsWithHelp, ArgsWithVersion, Field, FieldKind, SchmargsError, Ty, Value,
};

fn args(s: &str) -> Vec<String> {
    s.split_whitespace().map(str::to_string).collect()
}

fn meow_fields() -> Vec<Field> {
    vec![Field {
        name: "meow".to_string(),
        kind: FieldKind::Flag,
        short: Some('m'),
        long: Some("meow".to_string()),
        ty: Ty::Str,
        optional: false,
    }]
}

#[test]
fn help_long_flag_is_recognized() {
    let r = ArgsWithHelp::parse(&meow_fields(), args("--help")).unwrap();
    assert!(matches!(r, ArgsWithHelp::Help));
}

#[test]
fn help_short_flag_is_recognized() {
    let r = ArgsWithHelp::parse(&meow_fields(), args("-h")).unwrap();
    assert!(matches!(r, ArgsWithHelp::Help));
}

#[test]
fn version_long_flag_is_recognized() {
    let r = ArgsWithVersion::parse(&meow_fields(), args("--version")).unwrap();
    assert!(matches!(r, ArgsWithVersion::Version));
}

#[test]
fn successful_bind_is_wrapped() {
    let r = ArgsWithHelp::parse(&meow_fields(), args("--meow")).unwrap();
    match r {
        ArgsWithHelp::Args(vals) => assert_eq!(vals[0], Value::Bool(true)),
        ArgsWithHelp::Help => panic!("expected bound arguments"),
    }
}

#[test]
fn other_errors_propagate_unchanged() {
    let r = ArgsWithHelp::parse(&meow_fields(), args("--bogus"));
    assert_eq!(r, Err(SchmargsError::NoSuchLongFlag("bogus".to_string())));
}

#[test]
fn stacked_wrappers_intercept_in_turn() {
    let fields = meow_fields();

    let inner = parse(&fields, args("--version"));
    let versioned: Result<ArgsWithVersion<Vec<Value>>, SchmargsError> = intercept(inner);
    let full: Result<ArgsWithHelp<ArgsWithVersion<Vec<Value>>>, SchmargsError> =
        intercept(versioned);
    assert!(matches!(full, Ok(ArgsWithHelp::Args(ArgsWithVersion::Version))));

    let inner = parse(&fields, args("--help"));
    let versioned: Result<ArgsWithVersion<Vec<Value>>, SchmargsError> = intercept(inner);
    let full: Result<ArgsWithHelp<ArgsWithVersion<Vec<Value>>>, SchmargsError> =
        intercept(versioned);
    assert!(matches!(full, Ok(ArgsWithHelp::Help)));

    let inner = parse(&fields, args("--meow"));
    let versioned: Result<ArgsWithVersion<Vec<Value>>, SchmargsError> = intercept(inner);
    let full: Result<ArgsWithHelp<ArgsWithVersion<Vec<Value>>>, SchmargsError> =
        intercept(versioned);
    match full {
        Ok(ArgsWithHelp::Args(ArgsWithVersion::Args(vals))) => {
            assert_eq!(vals[0], Value::Bool(true));
        }
        other => panic!("expected bound arguments, got {:?}", other),
    }
}
