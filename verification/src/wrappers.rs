//! Flag-interception wrappers: a composition layer that lets an outer meta
//! flag such as `--help` or `--version` be added to any binder, by
//! reinterpreting the binder's "unknown flag" error as a sentinel result.

use crate::bind::lemma_find_long_none;
use crate::bind::parse;
use crate::bind::spec_matches_long;
use crate::bind::spec_parse_args;
use crate::bind::spec_table_wf;
use crate::bind::Field;
use crate::bind::FieldV;
use crate::error::ErrorV;
use crate::error::SchmargsError;
use crate::tokens::spec_tokenize;
use crate::tokens::spec_tokenize_from;
use crate::tokens::ArgView;
use crate::values::Value;
use crate::values::ValueV;
use vstd::prelude::*;

verus! {

use vstd::string::StringExecFns;

/// A generic wrapper: it reserves one short character and one long name,
/// and says how to wrap a successful inner result and how to mark the
/// reserved flag's appearance.
pub trait Wrapper: Sized {
    /// The inner binder's result type.
    type SchmargsType;

    /// The reserved short character.
    spec fn spec_short_option() -> char;

    /// The reserved long name, without the leading dashes.
    spec fn spec_long_option() -> Seq<char>;

    /// What wrapping a successfully bound inner result yields.
    spec fn spec_parsed(inner: Self::SchmargsType) -> Self;

    /// The sentinel marking that the reserved flag was recognized.
    spec fn spec_special() -> Self;

    /// The reserved short character.
    fn short_option() -> (c: char)
        ensures
            c == Self::spec_short_option(),
    ;

    /// The reserved long name, without the leading dashes.
    fn long_option() -> (s: String)
        ensures
            s@ == Self::spec_long_option(),
    ;

    /// Wrap a successfully bound inner result.
    fn parsed(inner: Self::SchmargsType) -> (r: Self)
        ensures
            r == Self::spec_parsed(inner),
    ;

    /// Produce the sentinel.
    fn special() -> (r: Self)
        ensures
            r == Self::spec_special(),
    ;
}

/// Is this error the recognition signal for a wrapper with the given
/// reserved identifiers: the unknown flag is exactly the reserved one?
pub open spec fn spec_recognized(e: ErrorV, short: char, long: Seq<char>) -> bool {
    match e {
        ErrorV::NoSuchShortFlag(c) => c == short,
        ErrorV::NoSuchLongFlag(s) => s == long,
        _ => false,
    }
}

/// What interception makes of the inner binder's outcome: success is
/// wrapped, the reserved flag reported as unknown becomes the sentinel,
/// and any other error propagates unchanged.
pub open spec fn spec_intercept<W: Wrapper>(inner: Result<W::SchmargsType, SchmargsError>) -> Result<
    W,
    SchmargsError,
> {
    match inner {
        Ok(v) => Ok(W::spec_parsed(v)),
        Err(e) => if spec_recognized(e@, W::spec_short_option(), W::spec_long_option()) {
            Ok(W::spec_special())
        } else {
            Err(e)
        },
    }
}

/// Reinterpret the inner binder's outcome through a wrapper, recognizing
/// the wrapper's reserved flag in the "no such flag" errors.
pub fn intercept<W: Wrapper>(inner: Result<W::SchmargsType, SchmargsError>) -> (r: Result<
    W,
    SchmargsError,
>)
    ensures
        r == spec_intercept::<W>(inner),
{
    match inner {
        Ok(v) => Ok(W::parsed(v)),
        Err(e) => {
            match &e {
                SchmargsError::NoSuchShortFlag(c) => {
                    if *c == W::short_option() {
                        return Ok(W::special());
                    }
                },
                SchmargsError::NoSuchLongFlag(s) => {
                    let lo = W::long_option();
                    if *s == lo {
                        return Ok(W::special());
                    }
                },
                _ => {},
            }
            Err(e)
        },
    }
}

/// A wrapper that provides `--help` functionality.
#[derive(Copy, Clone, Debug, PartialEq, Eq, PartialOrd, Ord)]
pub enum ArgsWithHelp<S> {
    /// User passed the `-h` or `--help` flag.
    Help,
    /// Parsed arguments.
    Args(S),
}

impl<S> Wrapper for ArgsWithHelp<S> {
    type SchmargsType = S;

    open spec fn spec_short_option() -> char {
        'h'
    }

    open spec fn spec_long_option() -> Seq<char> {
        "help"@
    }

    open spec fn spec_parsed(inner: S) -> Self {
        ArgsWithHelp::Args(inner)
    }

    open spec fn spec_special() -> Self {
        ArgsWithHelp::Help
    }

    fn short_option() -> char {
        'h'
    }

    fn long_option() -> String {
        String::from_str("help")
    }

    fn parsed(inner: S) -> Self {
        ArgsWithHelp::Args(inner)
    }

    fn special() -> Self {
        ArgsWithHelp::Help
    }
}

/// A wrapper that provides `--version` functionality; it can be stacked
/// with [`ArgsWithHelp`] or used by itself.
#[derive(Copy, Clone, Debug, PartialEq, Eq, PartialOrd, Ord)]
pub enum ArgsWithVersion<S> {
    /// User passed the `-v` or `--version` flag.
    Version,
    /// Parsed arguments.
    Args(S),
}

impl<S> Wrapper for ArgsWithVersion<S> {
    type SchmargsType = S;

    open spec fn spec_short_option() -> char {
        'v'
    }

    open spec fn spec_long_option() -> Seq<char> {
        "version"@
    }

    open spec fn spec_parsed(inner: S) -> Self {
        ArgsWithVersion::Args(inner)
    }

    open spec fn spec_special() -> Self {
        ArgsWithVersion::Version
    }

    fn short_option() -> char {
        'v'
    }

    fn long_option() -> String {
        String::from_str("version")
    }

    fn parsed(inner: S) -> Self {
        ArgsWithVersion::Args(inner)
    }

    fn special() -> Self {
        ArgsWithVersion::Version
    }
}

impl ArgsWithHelp<Vec<Value>> {
    /// Parse an argument list with `--help` interception layered over the
    /// table binder: a successful bind is wrapped in `Args`; an unknown
    /// `-h` or `--help` becomes the `Help` sentinel; anything else fails
    /// as the binder failed.
    pub fn parse(fields: &Vec<Field>, args: Vec<String>) -> (r: Result<
        ArgsWithHelp<Vec<Value>>,
        SchmargsError,
    >)
        requires
            spec_table_wf(fields.deep_view()),
        ensures
            (match spec_parse_args(fields.deep_view(), args.deep_view()) {
                Ok(vs) => r matches Ok(ArgsWithHelp::Args(v)) && v.deep_view() == vs,
                Err(e) => if spec_recognized(e, 'h', "help"@) {
                    r == Ok::<ArgsWithHelp<Vec<Value>>, SchmargsError>(ArgsWithHelp::Help)
                } else {
                    r matches Err(e2) && e2@ == e
                },
            }),
    {
        let inner = parse(fields, args);
        intercept::<ArgsWithHelp<Vec<Value>>>(inner)
    }
}

impl ArgsWithVersion<Vec<Value>> {
    /// Parse an argument list with `--version` interception layered over
    /// the table binder.
    pub fn parse(fields: &Vec<Field>, args: Vec<String>) -> (r: Result<
        ArgsWithVersion<Vec<Value>>,
        SchmargsError,
    >)
        requires
            spec_table_wf(fields.deep_view()),
        ensures
            (match spec_parse_args(fields.deep_view(), args.deep_view()) {
                Ok(vs) => r matches Ok(ArgsWithVersion::Args(v)) && v.deep_view() == vs,
                Err(e) => if spec_recognized(e, 'v', "version"@) {
                    r == Ok::<ArgsWithVersion<Vec<Value>>, SchmargsError>(ArgsWithVersion::Version)
                } else {
                    r matches Err(e2) && e2@ == e
                },
            }),
    {
        let inner = parse(fields, args);
        intercept::<ArgsWithVersion<Vec<Value>>>(inner)
    }
}


/// Wrapper precedence: over any inner table that does not declare the
/// long name `help`, parsing exactly `--help` makes the binder report the
/// unknown long flag, and that error is exactly the recognition signal of
/// [`ArgsWithHelp`] — so the wrapper yields its `Help` sentinel, never an
/// error.
pub proof fn lemma_help_precedence(fields: Seq<FieldV>, args: Seq<Seq<char>>)
    requires
        args.len() == 1,
        args[0] == "--help"@,
        forall|k: int| 0 <= k < fields.len() ==> !spec_matches_long(#[trigger] fields[k], "help"@),
    ensures
        spec_parse_args(fields, args) == Err::<Seq<ValueV>, ErrorV>(
            ErrorV::NoSuchLongFlag("help"@),
        ),
        spec_recognized(
            ErrorV::NoSuchLongFlag("help"@),
            <ArgsWithHelp<Seq<ValueV>> as Wrapper>::spec_short_option(),
            <ArgsWithHelp<Seq<ValueV>> as Wrapper>::spec_long_option(),
        ),
{
    broadcast use vstd::string::group_string_axioms;

    reveal_strlit("--help");
    reveal_strlit("help");
    let t = "--help"@;
    assert(t.len() == 6);
    assert(t[0] == '-' && t[1] == '-');
    assert(t.skip(2) =~= "help"@);
    assert(crate::tokens::spec_classify(t) == ArgView::LongFlag("help"@));
    let toks = spec_tokenize(args);
    assert(args.drop_first() =~= Seq::<Seq<char>>::empty());
    assert(spec_tokenize_from(args.drop_first(), false) =~= Seq::<ArgView>::empty());
    assert(toks =~= seq![ArgView::LongFlag("help"@)]);
    lemma_find_long_none(fields, "help"@, 0);
}

} // verus!
