//! The field-binding protocol: the per-type contract for turning a raw
//! token (or a token plus the rest of the positional stream) into a typed
//! value, including a notion of "absent is acceptable" for optional types.

use crate::error::IntParseError;
use crate::error::SchmargsError;
use crate::numbers::parse_integer_i;
use crate::numbers::parse_integer_u;
use crate::numbers::spec_parse_integer;
use vstd::prelude::*;

verus! {

use vstd::string::StrSliceExecFns;
use vstd::string::StringExecFns;

/// Splitting a string at commas: the empty string gives one empty piece,
/// and every comma ends a piece, so `a,,b` gives three pieces.
pub open spec fn spec_split_commas(s: Seq<char>) -> Seq<Seq<char>>
    decreases s.len(),
{
    if s.len() == 0 {
        seq![Seq::<char>::empty()]
    } else if s[0] == ',' {
        seq![Seq::<char>::empty()] + spec_split_commas(s.drop_first())
    } else {
        let rest = spec_split_commas(s.drop_first());
        seq![seq![s[0]] + rest[0]] + rest.drop_first()
    }
}

/// Splitting always yields at least one piece.
pub proof fn lemma_split_commas_nonempty(s: Seq<char>)
    ensures
        spec_split_commas(s).len() >= 1,
    decreases s.len(),
{
    if s.len() > 0 {
        lemma_split_commas_nonempty(s.drop_first());
    }
}

/// Split a string into the pieces between its commas.
pub fn split_commas(s: &str) -> (r: Vec<String>)
    ensures
        r.deep_view() == spec_split_commas(s@),
{
    let n = s.unicode_len();
    let mut done: Vec<String> = Vec::new();
    let mut start: usize = 0;
    let mut i: usize = 0;
    proof {
        assert(s@.skip(0) =~= s@);
        lemma_split_commas_nonempty(s@);
        assert(done.deep_view() =~= Seq::<Seq<char>>::empty());
        assert(s@.subrange(0, 0) + spec_split_commas(s@)[0] =~= spec_split_commas(s@)[0]);
        assert(done.deep_view() + seq![spec_split_commas(s@)[0]] + spec_split_commas(
            s@,
        ).drop_first() =~= spec_split_commas(s@));
    }
    while i < n
        invariant
            0 <= start <= i <= n,
            n == s@.len(),
            spec_split_commas(s@) == done.deep_view() + seq![
                s@.subrange(start as int, i as int) + spec_split_commas(s@.skip(i as int))[0],
            ] + spec_split_commas(s@.skip(i as int)).drop_first(),
        decreases n - i,
    {
        let ghost pre = s@.skip(i as int);
        let ghost cur = s@.subrange(start as int, i as int);
        proof {
            assert(pre[0] == s@[i as int]);
            assert(pre.drop_first() =~= s@.skip(i as int + 1));
            lemma_split_commas_nonempty(s@.skip(i as int + 1));
        }
        let c = s.get_char(i);
        if c == ',' {
            let piece = s.substring_char(start, i);
            done.push(piece.to_owned());
            proof {
                let post = s@.skip(i as int + 1);
                assert(done.deep_view() =~= done.deep_view().drop_last().push(cur + Seq::<
                    char,
                >::empty()));
                assert(spec_split_commas(pre) =~= seq![Seq::<char>::empty()] + spec_split_commas(
                    post,
                ));
                assert(cur + spec_split_commas(pre)[0] =~= cur);
                assert(spec_split_commas(pre).drop_first() =~= spec_split_commas(post));
                assert(spec_split_commas(post) =~= seq![spec_split_commas(post)[0]]
                    + spec_split_commas(post).drop_first());
                assert(done.deep_view().drop_last() + seq![cur] + spec_split_commas(pre).drop_first()
                    =~= done.deep_view() + seq![
                    s@.subrange(i as int + 1, i as int + 1) + spec_split_commas(post)[0],
                ] + spec_split_commas(post).drop_first());
            }
            start = i + 1;
        } else {
            proof {
                let post = s@.skip(i as int + 1);
                let rest = spec_split_commas(post);
                assert(spec_split_commas(pre) =~= seq![seq![pre[0]] + rest[0]] + rest.drop_first());
                assert(cur + spec_split_commas(pre)[0] =~= s@.subrange(start as int, i as int + 1)
                    + rest[0]);
                assert(spec_split_commas(pre).drop_first() =~= rest.drop_first());
            }
        }
        i = i + 1;
    }
    let piece = s.substring_char(start, n);
    done.push(piece.to_owned());
    proof {
        assert(s@.skip(n as int) =~= Seq::<char>::empty());
        assert(spec_split_commas(s@.skip(n as int)) =~= seq![Seq::<char>::empty()]);
        assert(s@.subrange(start as int, n as int) + Seq::<char>::empty() =~= s@.subrange(
            start as int,
            n as int,
        ));
        assert(done.deep_view() =~= done.deep_view().drop_last().push(
            s@.subrange(start as int, n as int),
        ));
        assert(done.deep_view() =~= spec_split_commas(s@));
    }
    done
}

/// A field that can be bound from argument tokens. Each implementation
/// says, as a specification, what parsing means for the type; the
/// executable methods are proved to follow it.
pub trait SchmargsField: DeepView + Sized {
    /// What parsing a single token means for this type.
    spec fn spec_parse(s: Seq<char>) -> Result<Self::V, IntParseError>;

    /// What parsing a token plus the rest of the positional stream means.
    /// Only collection types read past the first token.
    spec fn spec_parse_it(s: Seq<char>, rest: Seq<Seq<char>>) -> Result<Self::V, IntParseError>;

    /// The value a never-written slot falls back to, if absence is
    /// acceptable for this type.
    spec fn spec_absent() -> Option<Self::V>;

    /// Construct the type from one token.
    fn parse_str(val: String) -> (r: Result<Self, SchmargsError>)
        ensures
            (match (r, Self::spec_parse(val@)) {
                (Ok(v), Ok(w)) => v.deep_view() == w,
                (Err(e), Err(k)) => e == SchmargsError::ParseInt(k),
                _ => false,
            }),
    ;

    /// Construct the type from a token and the remaining tokens.
    fn parse_it(val: String, rest: Vec<String>) -> (r: Result<Self, SchmargsError>)
        ensures
            (match (r, Self::spec_parse_it(val@, rest.deep_view())) {
                (Ok(v), Ok(w)) => v.deep_view() == w,
                (Err(e), Err(k)) => e == SchmargsError::ParseInt(k),
                _ => false,
            }),
    ;

    /// The mechanism used to make optional types optional: the value bound
    /// when no token arrived for the field, or `None` where the field is
    /// mandatory.
    fn as_option() -> (r: Option<Self>)
        ensures
            r.deep_view() == Self::spec_absent(),
    ;
}


/// Element-wise parsing of a list of pieces, each through the element
/// type's single-token parse; the first failure wins.
pub open spec fn spec_parse_elems<T: SchmargsField>(items: Seq<Seq<char>>) -> Result<
    Seq<T::V>,
    IntParseError,
>
    decreases items.len(),
{
    if items.len() == 0 {
        Ok(Seq::<T::V>::empty())
    } else {
        match T::spec_parse(items[0]) {
            Ok(v) => match spec_parse_elems::<T>(items.drop_first()) {
                Ok(vs) => Ok(seq![v] + vs),
                Err(e) => Err(e),
            },
            Err(e) => Err(e),
        }
    }
}

spec fn spec_prepend_elems<V>(p: Seq<V>, r: Result<Seq<V>, IntParseError>) -> Result<
    Seq<V>,
    IntParseError,
> {
    match r {
        Ok(vs) => Ok(p + vs),
        Err(e) => Err(e),
    }
}

fn parse_pieces<T: SchmargsField>(items: &Vec<String>) -> (r: Result<Vec<T>, SchmargsError>)
    ensures
        (match (r, spec_parse_elems::<T>(items.deep_view())) {
            (Ok(v), Ok(w)) => v.deep_view() == w,
            (Err(e), Err(k)) => e == SchmargsError::ParseInt(k),
            _ => false,
        }),
{
    let ghost all = items.deep_view();
    let mut out: Vec<T> = Vec::new();
    let n = items.len();
    let mut j: usize = 0;
    proof {
        assert(all.skip(0) =~= all);
        assert(out.deep_view() =~= Seq::<T::V>::empty());
    }
    while j < n
        invariant
            0 <= j <= n,
            n == all.len(),
            all == items.deep_view(),
            spec_parse_elems::<T>(all) == spec_prepend_elems(
                out.deep_view(),
                spec_parse_elems::<T>(all.skip(j as int)),
            ),
        decreases n - j,
    {
        let ghost pre = all.skip(j as int);
        proof {
            assert(pre[0] == all[j as int]);
            assert(pre.drop_first() =~= all.skip(j as int + 1));
        }
        let piece = items[j].clone();
        match T::parse_str(piece) {
            Ok(v) => {
                let ghost olddv = out.deep_view();
                let ghost w = match T::spec_parse(pre[0]) {
                    Ok(w) => w,
                    Err(_) => arbitrary(),
                };
                out.push(v);
                proof {
                    assert(out.deep_view() =~= olddv.push(w));
                    if let Ok(vs) = spec_parse_elems::<T>(all.skip(j as int + 1)) {
                        assert(olddv + (seq![w] + vs) =~= olddv.push(w) + vs);
                    }
                }
            },
            Err(e) => {
                return Err(e);
            },
        }
        j = j + 1;
    }
    proof {
        assert(all.skip(n as int) =~= Seq::<Seq<char>>::empty());
        if let Ok(vs) = spec_parse_elems::<T>(all) {
            assert(out.deep_view() + Seq::<T::V>::empty() =~= out.deep_view());
        }
    }
    Ok(out)
}

impl SchmargsField for u8 {
    open spec fn spec_parse(s: Seq<char>) -> Result<u8, IntParseError> {
        match spec_parse_integer(s, false, 0, u8::MAX as int) {
            Ok(v) => Ok(v as u8),
            Err(e) => Err(e),
        }
    }

    open spec fn spec_parse_it(s: Seq<char>, rest: Seq<Seq<char>>) -> Result<u8, IntParseError> {
        Self::spec_parse(s)
    }

    open spec fn spec_absent() -> Option<u8> {
        None
    }

    fn parse_str(val: String) -> Result<u8, SchmargsError> {
        match parse_integer_u(val.as_str(), u8::MAX as u128) {
            Ok(v) => Ok(v as u8),
            Err(e) => Err(SchmargsError::ParseInt(e)),
        }
    }

    fn parse_it(val: String, rest: Vec<String>) -> Result<u8, SchmargsError> {
        Self::parse_str(val)
    }

    fn as_option() -> Option<u8> {
        None
    }
}

impl SchmargsField for u16 {
    open spec fn spec_parse(s: Seq<char>) -> Result<u16, IntParseError> {
        match spec_parse_integer(s, false, 0, u16::MAX as int) {
            Ok(v) => Ok(v as u16),
            Err(e) => Err(e),
        }
    }

    open spec fn spec_parse_it(s: Seq<char>, rest: Seq<Seq<char>>) -> Result<u16, IntParseError> {
        Self::spec_parse(s)
    }

    open spec fn spec_absent() -> Option<u16> {
        None
    }

    fn parse_str(val: String) -> Result<u16, SchmargsError> {
        match parse_integer_u(val.as_str(), u16::MAX as u128) {
            Ok(v) => Ok(v as u16),
            Err(e) => Err(SchmargsError::ParseInt(e)),
        }
    }

    fn parse_it(val: String, rest: Vec<String>) -> Result<u16, SchmargsError> {
        Self::parse_str(val)
    }

    fn as_option() -> Option<u16> {
        None
    }
}

impl SchmargsField for u32 {
    open spec fn spec_parse(s: Seq<char>) -> Result<u32, IntParseError> {
        match spec_parse_integer(s, false, 0, u32::MAX as int) {
            Ok(v) => Ok(v as u32),
            Err(e) => Err(e),
        }
    }

    open spec fn spec_parse_it(s: Seq<char>, rest: Seq<Seq<char>>) -> Result<u32, IntParseError> {
        Self::spec_parse(s)
    }

    open spec fn spec_absent() -> Option<u32> {
        None
    }

    fn parse_str(val: String) -> Result<u32, SchmargsError> {
        match parse_integer_u(val.as_str(), u32::MAX as u128) {
            Ok(v) => Ok(v as u32),
            Err(e) => Err(SchmargsError::ParseInt(e)),
        }
    }

    fn parse_it(val: String, rest: Vec<String>) -> Result<u32, SchmargsError> {
        Self::parse_str(val)
    }

    fn as_option() -> Option<u32> {
        None
    }
}

impl SchmargsField for u64 {
    open spec fn spec_parse(s: Seq<char>) -> Result<u64, IntParseError> {
        match spec_parse_integer(s, false, 0, u64::MAX as int) {
            Ok(v) => Ok(v as u64),
            Err(e) => Err(e),
        }
    }

    open spec fn spec_parse_it(s: Seq<char>, rest: Seq<Seq<char>>) -> Result<u64, IntParseError> {
        Self::spec_parse(s)
    }

    open spec fn spec_absent() -> Option<u64> {
        None
    }

    fn parse_str(val: String) -> Result<u64, SchmargsError> {
        match parse_integer_u(val.as_str(), u64::MAX as u128) {
            Ok(v) => Ok(v as u64),
            Err(e) => Err(SchmargsError::ParseInt(e)),
        }
    }

    fn parse_it(val: String, rest: Vec<String>) -> Result<u64, SchmargsError> {
        Self::parse_str(val)
    }

    fn as_option() -> Option<u64> {
        None
    }
}

impl SchmargsField for u128 {
    open spec fn spec_parse(s: Seq<char>) -> Result<u128, IntParseError> {
        match spec_parse_integer(s, false, 0, u128::MAX as int) {
            Ok(v) => Ok(v as u128),
            Err(e) => Err(e),
        }
    }

    open spec fn spec_parse_it(s: Seq<char>, rest: Seq<Seq<char>>) -> Result<u128, IntParseError> {
        Self::spec_parse(s)
    }

    open spec fn spec_absent() -> Option<u128> {
        None
    }

    fn parse_str(val: String) -> Result<u128, SchmargsError> {
        match parse_integer_u(val.as_str(), u128::MAX as u128) {
            Ok(v) => Ok(v as u128),
            Err(e) => Err(SchmargsError::ParseInt(e)),
        }
    }

    fn parse_it(val: String, rest: Vec<String>) -> Result<u128, SchmargsError> {
        Self::parse_str(val)
    }

    fn as_option() -> Option<u128> {
        None
    }
}

impl SchmargsField for usize {
    open spec fn spec_parse(s: Seq<char>) -> Result<usize, IntParseError> {
        match spec_parse_integer(s, false, 0, usize::MAX as int) {
            Ok(v) => Ok(v as usize),
            Err(e) => Err(e),
        }
    }

    open spec fn spec_parse_it(s: Seq<char>, rest: Seq<Seq<char>>) -> Result<usize, IntParseError> {
        Self::spec_parse(s)
    }

    open spec fn spec_absent() -> Option<usize> {
        None
    }

    fn parse_str(val: String) -> Result<usize, SchmargsError> {
        match parse_integer_u(val.as_str(), usize::MAX as u128) {
            Ok(v) => Ok(v as usize),
            Err(e) => Err(SchmargsError::ParseInt(e)),
        }
    }

    fn parse_it(val: String, rest: Vec<String>) -> Result<usize, SchmargsError> {
        Self::parse_str(val)
    }

    fn as_option() -> Option<usize> {
        None
    }
}

impl SchmargsField for i8 {
    open spec fn spec_parse(s: Seq<char>) -> Result<i8, IntParseError> {
        match spec_parse_integer(s, true, i8::MIN as int, i8::MAX as int) {
            Ok(v) => Ok(v as i8),
            Err(e) => Err(e),
        }
    }

    open spec fn spec_parse_it(s: Seq<char>, rest: Seq<Seq<char>>) -> Result<i8, IntParseError> {
        Self::spec_parse(s)
    }

    open spec fn spec_absent() -> Option<i8> {
        None
    }

    fn parse_str(val: String) -> Result<i8, SchmargsError> {
        match parse_integer_i(val.as_str(), i8::MIN as i128, i8::MAX as i128) {
            Ok(v) => Ok(v as i8),
            Err(e) => Err(SchmargsError::ParseInt(e)),
        }
    }

    fn parse_it(val: String, rest: Vec<String>) -> Result<i8, SchmargsError> {
        Self::parse_str(val)
    }

    fn as_option() -> Option<i8> {
        None
    }
}

impl SchmargsField for i16 {
    open spec fn spec_parse(s: Seq<char>) -> Result<i16, IntParseError> {
        match spec_parse_integer(s, true, i16::MIN as int, i16::MAX as int) {
            Ok(v) => Ok(v as i16),
            Err(e) => Err(e),
        }
    }

    open spec fn spec_parse_it(s: Seq<char>, rest: Seq<Seq<char>>) -> Result<i16, IntParseError> {
        Self::spec_parse(s)
    }

    open spec fn spec_absent() -> Option<i16> {
        None
    }

    fn parse_str(val: String) -> Result<i16, SchmargsError> {
        match parse_integer_i(val.as_str(), i16::MIN as i128, i16::MAX as i128) {
            Ok(v) => Ok(v as i16),
            Err(e) => Err(SchmargsError::ParseInt(e)),
        }
    }

    fn parse_it(val: String, rest: Vec<String>) -> Result<i16, SchmargsError> {
        Self::parse_str(val)
    }

    fn as_option() -> Option<i16> {
        None
    }
}

impl SchmargsField for i32 {
    open spec fn spec_parse(s: Seq<char>) -> Result<i32, IntParseError> {
        match spec_parse_integer(s, true, i32::MIN as int, i32::MAX as int) {
            Ok(v) => Ok(v as i32),
            Err(e) => Err(e),
        }
    }

    open spec fn spec_parse_it(s: Seq<char>, rest: Seq<Seq<char>>) -> Result<i32, IntParseError> {
        Self::spec_parse(s)
    }

    open spec fn spec_absent() -> Option<i32> {
        None
    }

    fn parse_str(val: String) -> Result<i32, SchmargsError> {
        match parse_integer_i(val.as_str(), i32::MIN as i128, i32::MAX as i128) {
            Ok(v) => Ok(v as i32),
            Err(e) => Err(SchmargsError::ParseInt(e)),
        }
    }

    fn parse_it(val: String, rest: Vec<String>) -> Result<i32, SchmargsError> {
        Self::parse_str(val)
    }

    fn as_option() -> Option<i32> {
        None
    }
}

impl SchmargsField for i64 {
    open spec fn spec_parse(s: Seq<char>) -> Result<i64, IntParseError> {
        match spec_parse_integer(s, true, i64::MIN as int, i64::MAX as int) {
            Ok(v) => Ok(v as i64),
            Err(e) => Err(e),
        }
    }

    open spec fn spec_parse_it(s: Seq<char>, rest: Seq<Seq<char>>) -> Result<i64, IntParseError> {
        Self::spec_parse(s)
    }

    open spec fn spec_absent() -> Option<i64> {
        None
    }

    fn parse_str(val: String) -> Result<i64, SchmargsError> {
        match parse_integer_i(val.as_str(), i64::MIN as i128, i64::MAX as i128) {
            Ok(v) => Ok(v as i64),
            Err(e) => Err(SchmargsError::ParseInt(e)),
        }
    }

    fn parse_it(val: String, rest: Vec<String>) -> Result<i64, SchmargsError> {
        Self::parse_str(val)
    }

    fn as_option() -> Option<i64> {
        None
    }
}

impl SchmargsField for i128 {
    open spec fn spec_parse(s: Seq<char>) -> Result<i128, IntParseError> {
        match spec_parse_integer(s, true, i128::MIN as int, i128::MAX as int) {
            Ok(v) => Ok(v as i128),
            Err(e) => Err(e),
        }
    }

    open spec fn spec_parse_it(s: Seq<char>, rest: Seq<Seq<char>>) -> Result<i128, IntParseError> {
        Self::spec_parse(s)
    }

    open spec fn spec_absent() -> Option<i128> {
        None
    }

    fn parse_str(val: String) -> Result<i128, SchmargsError> {
        match parse_integer_i(val.as_str(), i128::MIN as i128, i128::MAX as i128) {
            Ok(v) => Ok(v as i128),
            Err(e) => Err(SchmargsError::ParseInt(e)),
        }
    }

    fn parse_it(val: String, rest: Vec<String>) -> Result<i128, SchmargsError> {
        Self::parse_str(val)
    }

    fn as_option() -> Option<i128> {
        None
    }
}

impl SchmargsField for isize {
    open spec fn spec_parse(s: Seq<char>) -> Result<isize, IntParseError> {
        match spec_parse_integer(s, true, isize::MIN as int, isize::MAX as int) {
            Ok(v) => Ok(v as isize),
            Err(e) => Err(e),
        }
    }

    open spec fn spec_parse_it(s: Seq<char>, rest: Seq<Seq<char>>) -> Result<isize, IntParseError> {
        Self::spec_parse(s)
    }

    open spec fn spec_absent() -> Option<isize> {
        None
    }

    fn parse_str(val: String) -> Result<isize, SchmargsError> {
        match parse_integer_i(val.as_str(), isize::MIN as i128, isize::MAX as i128) {
            Ok(v) => Ok(v as isize),
            Err(e) => Err(SchmargsError::ParseInt(e)),
        }
    }

    fn parse_it(val: String, rest: Vec<String>) -> Result<isize, SchmargsError> {
        Self::parse_str(val)
    }

    fn as_option() -> Option<isize> {
        None
    }
}

impl SchmargsField for String {
    open spec fn spec_parse(s: Seq<char>) -> Result<Seq<char>, IntParseError> {
        Ok(s)
    }

    open spec fn spec_parse_it(s: Seq<char>, rest: Seq<Seq<char>>) -> Result<
        Seq<char>,
        IntParseError,
    > {
        Ok(s)
    }

    open spec fn spec_absent() -> Option<Seq<char>> {
        None
    }

    fn parse_str(val: String) -> Result<String, SchmargsError> {
        Ok(val)
    }

    fn parse_it(val: String, rest: Vec<String>) -> Result<String, SchmargsError> {
        Ok(val)
    }

    fn as_option() -> Option<String> {
        None
    }
}

impl<T: SchmargsField> SchmargsField for Vec<T> {
    open spec fn spec_parse(s: Seq<char>) -> Result<Seq<T::V>, IntParseError> {
        spec_parse_elems::<T>(spec_split_commas(s))
    }

    open spec fn spec_parse_it(s: Seq<char>, rest: Seq<Seq<char>>) -> Result<
        Seq<T::V>,
        IntParseError,
    > {
        spec_parse_elems::<T>(seq![s] + rest)
    }

    open spec fn spec_absent() -> Option<Seq<T::V>> {
        None
    }

    fn parse_str(val: String) -> Result<Vec<T>, SchmargsError> {
        let pieces = split_commas(val.as_str());
        parse_pieces::<T>(&pieces)
    }

    fn parse_it(val: String, rest: Vec<String>) -> Result<Vec<T>, SchmargsError> {
        let ghost restdv = rest.deep_view();
        let ghost valv = val@;
        let mut items = rest;
        items.insert(0, val);
        proof {
            assert(items.deep_view() =~= seq![valv] + restdv);
        }
        parse_pieces::<T>(&items)
    }

    fn as_option() -> Option<Vec<T>> {
        None
    }
}

impl<T: SchmargsField> SchmargsField for Option<T> {
    open spec fn spec_parse(s: Seq<char>) -> Result<Option<T::V>, IntParseError> {
        match T::spec_parse(s) {
            Ok(v) => Ok(Some(v)),
            Err(e) => Err(e),
        }
    }

    open spec fn spec_parse_it(s: Seq<char>, rest: Seq<Seq<char>>) -> Result<
        Option<T::V>,
        IntParseError,
    > {
        match T::spec_parse_it(s, rest) {
            Ok(v) => Ok(Some(v)),
            Err(e) => Err(e),
        }
    }

    open spec fn spec_absent() -> Option<Option<T::V>> {
        Some(None)
    }

    fn parse_str(val: String) -> Result<Option<T>, SchmargsError> {
        match T::parse_str(val) {
            Ok(v) => Ok(Some(v)),
            Err(e) => Err(e),
        }
    }

    fn parse_it(val: String, rest: Vec<String>) -> Result<Option<T>, SchmargsError> {
        match T::parse_it(val, rest) {
            Ok(v) => Ok(Some(v)),
            Err(e) => Err(e),
        }
    }

    fn as_option() -> Option<Option<T>> {
        Some(None)
    }
}

} // verus!
