//! Tagged value types for the table-driven binder: a field's value class,
//! the typed values bound to slots, and the conversions from tokens.

use crate::error::IntParseError;
use crate::error::SchmargsError;
use crate::field::spec_split_commas;
use crate::field::split_commas;
use crate::numbers::parse_integer_i;
use crate::numbers::parse_integer_u;
use crate::numbers::spec_parse_integer;
use vstd::prelude::*;

verus! {

use vstd::string::StringExecFns;

/// The value class of a declared field, carrying the numeric bounds of the
/// target integer type where there is one.
#[derive(Clone, Copy, Debug, PartialEq, Eq, Structural)]
pub enum Ty {
    /// An unsigned integer no greater than the carried inclusive bound.
    Unsigned(u128),
    /// A signed integer within the carried inclusive bounds.
    Signed(i128, i128),
    /// A string, taken as it stands.
    Str,
    /// A growable list of unsigned integers.
    UnsignedList(u128),
    /// A growable list of signed integers.
    SignedList(i128, i128),
    /// A growable list of strings.
    StrList,
}

impl Ty {
    /// Does a field of this type greedily claim the remainder of the
    /// stream when bound positionally?
    pub open spec fn spec_is_list(&self) -> bool {
        match self {
            Ty::UnsignedList(_) => true,
            Ty::SignedList(_, _) => true,
            Ty::StrList => true,
            _ => false,
        }
    }

    /// Executable version of [`Ty::spec_is_list`].
    #[verifier::when_used_as_spec(spec_is_list)]
    pub fn is_list(&self) -> (r: bool)
        ensures
            r == self.spec_is_list(),
    {
        match self {
            Ty::UnsignedList(_) => true,
            Ty::SignedList(_, _) => true,
            Ty::StrList => true,
            _ => false,
        }
    }

    /// The bounds describe a real integer type: a signed range always
    /// contains zero.
    pub open spec fn wf(&self) -> bool {
        match self {
            Ty::Signed(min, max) => *min <= 0 <= *max,
            Ty::SignedList(min, max) => *min <= 0 <= *max,
            _ => true,
        }
    }
}

/// A typed value bound to a field's slot.
#[derive(Clone, Debug, PartialEq, Eq)]
pub enum Value {
    /// A flag: present or not.
    Bool(bool),
    /// An unsigned integer.
    Unsigned(u128),
    /// A signed integer.
    Signed(i128),
    /// A string.
    Str(String),
    /// A list of unsigned integers.
    UnsignedList(Vec<u128>),
    /// A list of signed integers.
    SignedList(Vec<i128>),
    /// A list of strings.
    StrList(Vec<String>),
    /// An optional field whose token never appeared.
    Absent,
}

/// Mathematical image of a [`Value`].
pub enum ValueV {
    Bool(bool),
    Unsigned(u128),
    Signed(i128),
    Str(Seq<char>),
    UnsignedList(Seq<u128>),
    SignedList(Seq<i128>),
    StrList(Seq<Seq<char>>),
    Absent,
}

impl View for Value {
    type V = ValueV;

    open spec fn view(&self) -> ValueV {
        match self {
            Value::Bool(b) => ValueV::Bool(*b),
            Value::Unsigned(v) => ValueV::Unsigned(*v),
            Value::Signed(v) => ValueV::Signed(*v),
            Value::Str(s) => ValueV::Str(s@),
            Value::UnsignedList(v) => ValueV::UnsignedList(v@),
            Value::SignedList(v) => ValueV::SignedList(v@),
            Value::StrList(v) => ValueV::StrList(v.deep_view()),
            Value::Absent => ValueV::Absent,
        }
    }
}

impl DeepView for Value {
    type V = ValueV;

    open spec fn deep_view(&self) -> ValueV {
        self.view()
    }
}

/// Element-wise parsing of unsigned integers; the first failure wins.
pub open spec fn spec_parse_u_elems(items: Seq<Seq<char>>, max: u128) -> Result<
    Seq<u128>,
    IntParseError,
>
    decreases items.len(),
{
    if items.len() == 0 {
        Ok(Seq::<u128>::empty())
    } else {
        match spec_parse_integer(items[0], false, 0, max as int) {
            Ok(v) => match spec_parse_u_elems(items.drop_first(), max) {
                Ok(vs) => Ok(seq![v as u128] + vs),
                Err(e) => Err(e),
            },
            Err(e) => Err(e),
        }
    }
}

/// Element-wise parsing of signed integers; the first failure wins.
pub open spec fn spec_parse_i_elems(items: Seq<Seq<char>>, min: i128, max: i128) -> Result<
    Seq<i128>,
    IntParseError,
>
    decreases items.len(),
{
    if items.len() == 0 {
        Ok(Seq::<i128>::empty())
    } else {
        match spec_parse_integer(items[0], true, min as int, max as int) {
            Ok(v) => match spec_parse_i_elems(items.drop_first(), min, max) {
                Ok(vs) => Ok(seq![v as i128] + vs),
                Err(e) => Err(e),
            },
            Err(e) => Err(e),
        }
    }
}

/// What converting a single token to a value of class `ty` yields. Integer
/// classes read decimal or `0x`-prefixed hexadecimal; lists split the one
/// token at commas and convert each piece.
pub open spec fn spec_parse_one(ty: Ty, s: Seq<char>) -> Result<ValueV, IntParseError> {
    match ty {
        Ty::Unsigned(max) => match spec_parse_integer(s, false, 0, max as int) {
            Ok(v) => Ok(ValueV::Unsigned(v as u128)),
            Err(e) => Err(e),
        },
        Ty::Signed(min, max) => match spec_parse_integer(s, true, min as int, max as int) {
            Ok(v) => Ok(ValueV::Signed(v as i128)),
            Err(e) => Err(e),
        },
        Ty::Str => Ok(ValueV::Str(s)),
        Ty::UnsignedList(max) => match spec_parse_u_elems(spec_split_commas(s), max) {
            Ok(vs) => Ok(ValueV::UnsignedList(vs)),
            Err(e) => Err(e),
        },
        Ty::SignedList(min, max) => match spec_parse_i_elems(spec_split_commas(s), min, max) {
            Ok(vs) => Ok(ValueV::SignedList(vs)),
            Err(e) => Err(e),
        },
        Ty::StrList => Ok(ValueV::StrList(spec_split_commas(s))),
    }
}

/// What converting a token plus the rest of the stream yields: a list
/// claims `first` and every following item, one element per token; any
/// other class reads `first` alone.
pub open spec fn spec_parse_rest(ty: Ty, first: Seq<char>, rest: Seq<Seq<char>>) -> Result<
    ValueV,
    IntParseError,
> {
    match ty {
        Ty::UnsignedList(max) => match spec_parse_u_elems(seq![first] + rest, max) {
            Ok(vs) => Ok(ValueV::UnsignedList(vs)),
            Err(e) => Err(e),
        },
        Ty::SignedList(min, max) => match spec_parse_i_elems(seq![first] + rest, min, max) {
            Ok(vs) => Ok(ValueV::SignedList(vs)),
            Err(e) => Err(e),
        },
        Ty::StrList => Ok(ValueV::StrList(seq![first] + rest)),
        _ => spec_parse_one(ty, first),
    }
}

spec fn spec_prepend_u(p: Seq<u128>, r: Result<Seq<u128>, IntParseError>) -> Result<
    Seq<u128>,
    IntParseError,
> {
    match r {
        Ok(vs) => Ok(p + vs),
        Err(e) => Err(e),
    }
}

fn parse_u_vec(items: &Vec<String>, max: u128) -> (r: Result<Vec<u128>, IntParseError>)
    ensures
        (match (r, spec_parse_u_elems(items.deep_view(), max)) {
            (Ok(v), Ok(w)) => v@ == w,
            (Err(e), Err(k)) => e == k,
            _ => false,
        }),
{
    let ghost all = items.deep_view();
    let mut out: Vec<u128> = Vec::new();
    let n = items.len();
    let mut j: usize = 0;
    proof {
        assert(all.skip(0) =~= all);
    }
    while j < n
        invariant
            0 <= j <= n,
            n == all.len(),
            all == items.deep_view(),
            spec_parse_u_elems(all, max) == spec_prepend_u(
                out@,
                spec_parse_u_elems(all.skip(j as int), max),
            ),
        decreases n - j,
    {
        let ghost pre = all.skip(j as int);
        proof {
            assert(pre[0] == all[j as int]);
            assert(pre.drop_first() =~= all.skip(j as int + 1));
        }
        match parse_integer_u(items[j].as_str(), max) {
            Ok(v) => {
                let ghost olddv = out@;
                out.push(v);
                proof {
                    if let Ok(vs) = spec_parse_u_elems(all.skip(j as int + 1), max) {
                        assert(olddv + (seq![v] + vs) =~= out@ + vs);
                    }
                }
            },
            Err(e) => {
                return Err(e);
            },
        }
        j = j + 1;
    }
    proof {
        assert(all.skip(n as int) =~= Seq::<Seq<char>>::empty());
        assert(out@ + Seq::<u128>::empty() =~= out@);
    }
    Ok(out)
}

spec fn spec_prepend_i(p: Seq<i128>, r: Result<Seq<i128>, IntParseError>) -> Result<
    Seq<i128>,
    IntParseError,
> {
    match r {
        Ok(vs) => Ok(p + vs),
        Err(e) => Err(e),
    }
}

fn parse_i_vec(items: &Vec<String>, min: i128, max: i128) -> (r: Result<Vec<i128>, IntParseError>)
    requires
        min <= 0 <= max,
    ensures
        (match (r, spec_parse_i_elems(items.deep_view(), min, max)) {
            (Ok(v), Ok(w)) => v@ == w,
            (Err(e), Err(k)) => e == k,
            _ => false,
        }),
{
    let ghost all = items.deep_view();
    let mut out: Vec<i128> = Vec::new();
    let n = items.len();
    let mut j: usize = 0;
    proof {
        assert(all.skip(0) =~= all);
    }
    while j < n
        invariant
            0 <= j <= n,
            n == all.len(),
            all == items.deep_view(),
            min <= 0 <= max,
            spec_parse_i_elems(all, min, max) == spec_prepend_i(
                out@,
                spec_parse_i_elems(all.skip(j as int), min, max),
            ),
        decreases n - j,
    {
        let ghost pre = all.skip(j as int);
        proof {
            assert(pre[0] == all[j as int]);
            assert(pre.drop_first() =~= all.skip(j as int + 1));
        }
        match parse_integer_i(items[j].as_str(), min, max) {
            Ok(v) => {
                let ghost olddv = out@;
                out.push(v);
                proof {
                    if let Ok(vs) = spec_parse_i_elems(all.skip(j as int + 1), min, max) {
                        assert(olddv + (seq![v] + vs) =~= out@ + vs);
                    }
                }
            },
            Err(e) => {
                return Err(e);
            },
        }
        j = j + 1;
    }
    proof {
        assert(all.skip(n as int) =~= Seq::<Seq<char>>::empty());
        assert(out@ + Seq::<i128>::empty() =~= out@);
    }
    Ok(out)
}

/// Convert one token to a value of class `ty`.
pub fn parse_one(ty: &Ty, val: String) -> (r: Result<Value, SchmargsError>)
    requires
        ty.wf(),
    ensures
        (match (r, spec_parse_one(*ty, val@)) {
            (Ok(v), Ok(w)) => v@ == w,
            (Err(e), Err(k)) => e == SchmargsError::ParseInt(k),
            _ => false,
        }),
{
    match ty {
        Ty::Unsigned(max) => match parse_integer_u(val.as_str(), *max) {
            Ok(v) => Ok(Value::Unsigned(v)),
            Err(e) => Err(SchmargsError::ParseInt(e)),
        },
        Ty::Signed(min, max) => match parse_integer_i(val.as_str(), *min, *max) {
            Ok(v) => Ok(Value::Signed(v)),
            Err(e) => Err(SchmargsError::ParseInt(e)),
        },
        Ty::Str => Ok(Value::Str(val)),
        Ty::UnsignedList(max) => {
            let pieces = split_commas(val.as_str());
            match parse_u_vec(&pieces, *max) {
                Ok(vs) => Ok(Value::UnsignedList(vs)),
                Err(e) => Err(SchmargsError::ParseInt(e)),
            }
        },
        Ty::SignedList(min, max) => {
            let pieces = split_commas(val.as_str());
            match parse_i_vec(&pieces, *min, *max) {
                Ok(vs) => Ok(Value::SignedList(vs)),
                Err(e) => Err(SchmargsError::ParseInt(e)),
            }
        },
        Ty::StrList => {
            let pieces = split_commas(val.as_str());
            Ok(Value::StrList(pieces))
        },
    }
}

/// Convert a token plus the rest of the stream to a value of class `ty`:
/// a list claims everything, anything else reads `first` alone.
pub fn parse_with_rest(ty: &Ty, first: String, rest: Vec<String>) -> (r: Result<
    Value,
    SchmargsError,
>)
    requires
        ty.wf(),
    ensures
        (match (r, spec_parse_rest(*ty, first@, rest.deep_view())) {
            (Ok(v), Ok(w)) => v@ == w,
            (Err(e), Err(k)) => e == SchmargsError::ParseInt(k),
            _ => false,
        }),
{
    if ty.is_list() {
        let ghost restdv = rest.deep_view();
        let ghost firstv = first@;
        let mut items = rest;
        items.insert(0, first);
        proof {
            assert(items.deep_view() =~= seq![firstv] + restdv);
        }
        match ty {
            Ty::UnsignedList(max) => match parse_u_vec(&items, *max) {
                Ok(vs) => Ok(Value::UnsignedList(vs)),
                Err(e) => Err(SchmargsError::ParseInt(e)),
            },
            Ty::SignedList(min, max) => match parse_i_vec(&items, *min, *max) {
                Ok(vs) => Ok(Value::SignedList(vs)),
                Err(e) => Err(SchmargsError::ParseInt(e)),
            },
            _ => Ok(Value::StrList(items)),
        }
    } else {
        parse_one(ty, first)
    }
}

} // verus!
