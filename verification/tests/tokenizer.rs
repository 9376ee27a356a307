use schmargs::{tokenize, DumbArgument, DumbIterator};

fn args(s: &str) -> Vec<String> {
    s.split_whitespace().map(str::to_string).collect()
}

#[test]
fn terminator_alone_yields_nothing() {
    let tokens = tokenize(args("--"));
    assert!(tokens.is_empty());
}

#[test]
fn terminator_makes_dashes_literal() {
    let tokens = tokenize(args("-- -x"));
    assert_eq!(tokens, vec![DumbArgument::Positional("-x".to_string())]);
}

#[test]
fn bundled_short_flags_stay_one_token() {
    let tokens = tokenize(args("-xvf"));
    assert_eq!(tokens, vec![DumbArgument::ShortFlags("xvf".to_string())]);
}

#[test]
fn long_flag_prefix_is_stripped() {
    let tokens = tokenize(args("--color 7"));
    assert_eq!(
        tokens,
        vec![
            DumbArgument::LongFlag("color".to_string()),
            DumbArgument::Positional("7".to_string()),
        ]
    );
}

#[test]
fn bare_dash_is_positional() {
    let tokens = tokenize(args("-"));
    assert_eq!(tokens, vec![DumbArgument::Positional("-".to_string())]);
}

#[test]
fn second_terminator_is_literal() {
    let tokens = tokenize(args("-- --"));
    assert_eq!(tokens, vec![DumbArgument::Positional("--".to_string())]);
}

#[test]
fn everything_after_terminator_is_positional() {
    let tokens = tokenize(args("-a -- --foo -x plain"));
    assert_eq!(
        tokens,
        vec![
            DumbArgument::ShortFlags("a".to_string()),
            DumbArgument::Positional("--foo".to_string()),
            DumbArgument::Positional("-x".to_string()),
            DumbArgument::Positional("plain".to_string()),
        ]
    );
}

#[test]
fn iterator_walks_the_tokens() {
    let mut it = DumbIterator::from_args(args("-v --out name"));
    assert_eq!(it.next(), Some(DumbArgument::ShortFlags("v".to_string())));
    assert_eq!(it.next(), Some(DumbArgument::LongFlag("out".to_string())));
    assert_eq!(it.next(), Some(DumbArgument::Positional("name".to_string())));
    assert_eq!(it.next(), None);
    assert_eq!(it.next(), None);
}

#[test]
fn into_inner_unwraps_the_payload() {
    assert_eq!(DumbArgument::ShortFlags("xvf".to_string()).into_inner(), "xvf");
    assert_eq!(DumbArgument::LongFlag("color".to_string()).into_inner(), "color");
    assert_eq!(DumbArgument::Positional("7".to_string()).into_inner(), "7");
}
