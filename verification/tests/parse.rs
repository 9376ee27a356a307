use schmargs::{parse, ArgsWithHelp, Field, FieldKind, Ty, Value};

fn args(s: &str) -> Vec<String> {
    s.split_whitespace().map(str::to_string).collect()
}

fn positional(name: &str, ty: Ty) -> Field {
    Field {
        name: name.to_string(),
        kind: FieldKind::Positional,
        short: None,
        long: None,
        ty,
        optional: false,
    }
}

fn flag(name: &str, short: Option<char>, long: Option<&str>) -> Field {
    Field {
        name: name.to_string(),
        kind: FieldKind::Flag,
        short,
        long: long.map(str::to_string),
        ty: Ty::Str,
        optional: false,
    }
}

fn opt(name: &str, short: Option<char>, long: Option<&str>, ty: Ty, optional: bool) -> Field {
    Field {
        name: name.to_string(),
        kind: FieldKind::Opt,
        short,
        long: long.map(str::to_string),
        ty,
        optional,
    }
}

fn u64_ty() -> Ty {
    Ty::Unsigned(u64::MAX as u128)
}

#[test]
fn nostd_basic() {
    let fields = vec![
        positional("positional", u64_ty()),
        positional("positional2", u64_ty()),
        flag("kill_all_humans", Some('k'), Some("kill")),
    ];
    let vals = parse(&fields, args("-k 42 255")).unwrap();
    assert_eq!(vals[0], Value::Unsigned(42));
    assert_eq!(vals[1], Value::Unsigned(255));
    assert!(matches!(vals[2], Value::Bool(true)));
}

fn basic_case() {
    let fields = vec![
        positional("positional", u64_ty()),
        positional("positional2", u64_ty()),
        flag("foo", None, Some("foo")),
    ];
    let vals = parse(&fields, args("--foo 42 255")).unwrap();
    assert!(matches!(vals[2], Value::Bool(true)));
    assert_eq!(vals[0], Value::Unsigned(42));
    assert_eq!(vals[1], Value::Unsigned(255));
}

#[test]
fn basic() {
    basic_case();
}

#[test]
fn test_basic() {
    basic_case();
}

fn string_case() {
    let fields = vec![
        flag("foo", None, Some("foo")),
        positional("positional", Ty::Str),
        positional("positional2", Ty::Str),
        positional("positional3", u64_ty()),
    ];
    let vals = parse(&fields, args("--foo bar baz 64")).unwrap();
    assert!(matches!(vals[0], Value::Bool(true)));
    assert_eq!(vals[1], Value::Str("bar".to_string()));
    assert_eq!(vals[2], Value::Str("baz".to_string()));
    assert_eq!(vals[3], Value::Unsigned(64));
}

#[test]
fn string() {
    string_case();
}

#[test]
fn test_string() {
    string_case();
}

fn arbitrary_lifetime_names_case() {
    let fields = vec![flag("foo", None, Some("foo")), positional("positional", Ty::Str)];
    let vals = parse(&fields, args("--foo bar")).unwrap();
    assert!(matches!(vals[0], Value::Bool(true)));
    assert_eq!(vals[1], Value::Str("bar".to_string()));
}

#[test]
fn arbitrary_lifetime_names() {
    arbitrary_lifetime_names_case();
}

#[test]
fn test_arbitrary_lifetime_names() {
    arbitrary_lifetime_names_case();
}

fn with_generics_case() {
    let fields = vec![
        flag("foo", None, Some("foo")),
        positional("positional", Ty::Str),
        positional("positional2", u64_ty()),
    ];
    let vals = parse(&fields, args("--foo well_im_only 82")).unwrap();
    assert!(matches!(vals[0], Value::Bool(true)));
    assert_eq!(vals[1], Value::Str("well_im_only".to_string()));
    assert_eq!(vals[2], Value::Unsigned(82));
}

#[test]
fn with_generics() {
    with_generics_case();
}

#[test]
fn test_with_generics() {
    with_generics_case();
}

fn unsigned_integers_case() {
    let fields = vec![
        positional("a", Ty::Unsigned(u8::MAX as u128)),
        positional("b", Ty::Unsigned(u16::MAX as u128)),
        positional("c", Ty::Unsigned(u32::MAX as u128)),
        positional("d", Ty::Unsigned(u64::MAX as u128)),
        positional("e", Ty::Unsigned(u128::MAX)),
    ];
    let vals = parse(&fields, args("0 1 2 0xfe 3141592")).unwrap();
    assert_eq!(vals[0], Value::Unsigned(0));
    assert_eq!(vals[1], Value::Unsigned(1));
    assert_eq!(vals[2], Value::Unsigned(2));
    assert_eq!(vals[3], Value::Unsigned(0xfe));
    assert_eq!(vals[4], Value::Unsigned(3141592));
}

#[test]
fn unsigned_integers() {
    unsigned_integers_case();
}

#[test]
fn test_unsigned_integers() {
    unsigned_integers_case();
}

fn signed_integers_case() {
    let fields = vec![
        positional("a", Ty::Signed(i8::MIN as i128, i8::MAX as i128)),
        positional("b", Ty::Signed(i16::MIN as i128, i16::MAX as i128)),
        positional("c", Ty::Signed(i32::MIN as i128, i32::MAX as i128)),
        positional("d", Ty::Signed(i64::MIN as i128, i64::MAX as i128)),
        positional("e", Ty::Signed(i128::MIN, i128::MAX)),
    ];
    let vals = parse(&fields, args("0 1 -- -2 0xfe -3141592")).unwrap();
    assert_eq!(vals[0], Value::Signed(0));
    assert_eq!(vals[1], Value::Signed(1));
    assert_eq!(vals[2], Value::Signed(-2));
    assert_eq!(vals[3], Value::Signed(0xfe));
    assert_eq!(vals[4], Value::Signed(-3141592));
}

#[test]
fn signed_integers() {
    signed_integers_case();
}

#[test]
fn test_signed_integers() {
    signed_integers_case();
}

fn short_flags_case() {
    let fields = vec![
        flag("adults", Some('a'), None),
        positional("puppies", Ty::Signed(i8::MIN as i128, i8::MAX as i128)),
    ];
    let vals = parse(&fields, args("-a 8")).unwrap();
    assert!(matches!(vals[0], Value::Bool(true)));
    assert_eq!(vals[1], Value::Signed(8));
}

#[test]
fn short_flags() {
    short_flags_case();
}

#[test]
fn test_short_flags() {
    short_flags_case();
}

fn short_flag_default_case() {
    let fields = vec![
        flag("adults", Some('a'), Some("adults")),
        positional("puppies", Ty::Signed(i8::MIN as i128, i8::MAX as i128)),
    ];
    let vals = parse(&fields, args("-a 8")).unwrap();
    assert!(matches!(vals[0], Value::Bool(true)));
    assert_eq!(vals[1], Value::Signed(8));
}

#[test]
fn short_flag_default() {
    short_flag_default_case();
}

#[test]
fn test_short_flag_default() {
    short_flag_default_case();
}

fn specify_custom_long_case() {
    let fields = vec![
        flag("adults", Some('a'), Some("adult")),
        positional("puppies", Ty::Signed(i8::MIN as i128, i8::MAX as i128)),
    ];
    let vals = parse(&fields, args("--adult 8")).unwrap();
    assert!(matches!(vals[0], Value::Bool(true)));
    assert_eq!(vals[1], Value::Signed(8));
}

#[test]
fn specify_custom_long() {
    specify_custom_long_case();
}

#[test]
fn test_specify_custom_long() {
    specify_custom_long_case();
}

fn option_case() {
    let fields = vec![opt("puppy", Some('p'), Some("puppy"), Ty::Str, false)];
    let vals = parse(&fields, args("--puppy eddie")).unwrap();
    assert_eq!(vals[0], Value::Str("eddie".to_string()));
}

#[test]
fn option() {
    option_case();
}

#[test]
fn test_option() {
    option_case();
}

fn option_plus_positional_case() {
    let fields = vec![
        opt("puppy", Some('p'), Some("puppy"), Ty::Str, false),
        positional("times_to_kick", Ty::Unsigned(u8::MAX as u128)),
    ];
    let vals = parse(&fields, args("--puppy eddie 32")).unwrap();
    assert_eq!(vals[0], Value::Str("eddie".to_string()));
    assert_eq!(vals[1], Value::Unsigned(32));
}

#[test]
fn option_plus_positional() {
    option_plus_positional_case();
}

#[test]
fn test_option_plus_positional() {
    option_plus_positional_case();
}

fn optional_option_case() {
    let fields = vec![opt("puppy", Some('p'), Some("puppy"), Ty::Str, true)];
    let vals = parse(&fields, Vec::new()).unwrap();
    assert_eq!(vals[0], Value::Absent);
}

#[test]
fn optional_option() {
    optional_option_case();
}

#[test]
fn test_optional_option() {
    optional_option_case();
}

fn owned_string_case() {
    let fields = vec![positional("puppy", Ty::Str)];
    let vals = parse(&fields, vec![String::from("Gus")]).unwrap();
    assert_eq!(vals[0], Value::Str(String::from("Gus")));
}

#[test]
fn owned_string() {
    owned_string_case();
}

#[test]
fn test_owned_string() {
    owned_string_case();
}

fn help_arg_case() {
    let fields = vec![positional("puppies", Ty::Signed(i8::MIN as i128, i8::MAX as i128))];
    let parsed = ArgsWithHelp::parse(&fields, args("--help")).unwrap();
    assert!(matches!(parsed, ArgsWithHelp::Help));
    let parsed = ArgsWithHelp::parse(&fields, args("8")).unwrap();
    match parsed {
        ArgsWithHelp::Args(vals) => assert_eq!(vals[0], Value::Signed(8)),
        ArgsWithHelp::Help => panic!("expected bound arguments"),
    }
}

#[test]
fn help_arg() {
    help_arg_case();
}

#[test]
fn test_help_arg() {
    help_arg_case();
}

#[test]
fn translate_underscore_to_hyphens() {
    let fields = vec![opt("puppy_to_kick", Some('p'), Some("puppy-to-kick"), Ty::Str, true)];
    parse(&fields, args("--puppy-to-kick joe")).unwrap();
}

#[test]
fn nonpositional_string_vec_by_commas() {
    let fields = vec![
        opt("puppies", Some('p'), Some("puppies"), Ty::StrList, false),
        positional("numbers", Ty::UnsignedList(usize::MAX as u128)),
    ];
    let vals = parse(&fields, args("--puppies Billy,Samantha,Muffin 3 1 4 1 5")).unwrap();
    assert_eq!(
        vals[0],
        Value::StrList(vec![
            "Billy".to_string(),
            "Samantha".to_string(),
            "Muffin".to_string()
        ])
    );
    assert_eq!(vals[1], Value::UnsignedList(vec![3, 1, 4, 1, 5]));
}

#[test]
fn positional_string_vec() {
    let fields = vec![positional("puppies", Ty::StrList)];
    let vals = parse(&fields, args("Billy Samantha Muffin")).unwrap();
    assert_eq!(
        vals[0],
        Value::StrList(vec![
            "Billy".to_string(),
            "Samantha".to_string(),
            "Muffin".to_string()
        ])
    );
}
