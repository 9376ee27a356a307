//! The field binder: a state machine that, given the classified token
//! stream and a table of declared fields, drives token-by-token dispatch,
//! accumulates typed slots, and produces either a fully bound record or a
//! structured error.

use crate::error::ErrorV;
use crate::error::SchmargsError;
use crate::tokens::spec_tokenize;
use crate::tokens::tokenize;
use crate::tokens::ArgView;
use crate::tokens::DumbArgument;
use crate::values::parse_one;
use crate::values::parse_with_rest;
use crate::values::spec_parse_one;
use crate::values::spec_parse_rest;
use crate::values::Ty;
use crate::values::Value;
use crate::values::ValueV;
use vstd::prelude::*;

verus! {

use vstd::string::StrSliceExecFns;

/// The binding class of a declared field.
#[derive(Clone, Copy, Debug, PartialEq, Eq, Structural)]
pub enum FieldKind {
    /// Boolean field, true exactly when its short or long identifier
    /// appears among the tokens.
    Flag,
    /// Named field taking exactly one following token as its value.
    Opt,
    /// Field bound by its position among the residual values.
    Positional,
}

/// A declared field: the name used in error messages, its binding class,
/// its identifiers, its value class, and whether absence is acceptable.
#[derive(Clone, Debug)]
pub struct Field {
    /// The field's name, used in error messages.
    pub name: String,
    /// How tokens reach the field.
    pub kind: FieldKind,
    /// The single-character identifier, for `Flag` and `Opt` fields.
    pub short: Option<char>,
    /// The long identifier, for `Flag` and `Opt` fields.
    pub long: Option<String>,
    /// The value class the field binds.
    pub ty: Ty,
    /// Whether a never-written slot binds `Value::Absent` instead of
    /// failing; true for optional wrapper types.
    pub optional: bool,
}

/// Mathematical image of a [`Field`].
pub struct FieldV {
    pub name: Seq<char>,
    pub kind: FieldKind,
    pub short: Option<char>,
    pub long: Option<Seq<char>>,
    pub ty: Ty,
    pub optional: bool,
}

impl View for Field {
    type V = FieldV;

    open spec fn view(&self) -> FieldV {
        FieldV {
            name: self.name@,
            kind: self.kind,
            short: self.short,
            long: match self.long {
                Some(l) => Some(l@),
                None => None,
            },
            ty: self.ty,
            optional: self.optional,
        }
    }
}

impl DeepView for Field {
    type V = FieldV;

    open spec fn deep_view(&self) -> FieldV {
        self.view()
    }
}

/// Every integer bound in the table describes a real integer type.
pub open spec fn spec_table_wf(fields: Seq<FieldV>) -> bool {
    forall|k: int| 0 <= k < fields.len() ==> (#[trigger] fields[k]).ty.wf()
}

/// Does a short-flag character address this field?
pub open spec fn spec_matches_short(f: FieldV, c: char) -> bool {
    (f.kind == FieldKind::Flag || f.kind == FieldKind::Opt) && f.short == Some(c)
}

/// Does a long-flag name address this field?
pub open spec fn spec_matches_long(f: FieldV, s: Seq<char>) -> bool {
    (f.kind == FieldKind::Flag || f.kind == FieldKind::Opt) && match f.long {
        Some(l) => l == s,
        None => false,
    }
}

/// The first field at or after `i` that the short flag `c` addresses.
pub open spec fn spec_find_short(fields: Seq<FieldV>, c: char, i: int) -> Option<int>
    decreases fields.len() - i,
{
    if i < 0 || i >= fields.len() {
        None
    } else if spec_matches_short(fields[i], c) {
        Some(i)
    } else {
        spec_find_short(fields, c, i + 1)
    }
}

/// The first field at or after `i` that the long flag `s` addresses.
pub open spec fn spec_find_long(fields: Seq<FieldV>, s: Seq<char>, i: int) -> Option<int>
    decreases fields.len() - i,
{
    if i < 0 || i >= fields.len() {
        None
    } else if spec_matches_long(fields[i], s) {
        Some(i)
    } else {
        spec_find_long(fields, s, i + 1)
    }
}

/// The `p`-th positional field at or after `i`, counting from zero.
pub open spec fn spec_find_positional(fields: Seq<FieldV>, i: int, p: int) -> Option<int>
    decreases fields.len() - i,
{
    if i < 0 || i >= fields.len() {
        None
    } else if fields[i].kind == FieldKind::Positional {
        if p == 0 {
            Some(i)
        } else {
            spec_find_positional(fields, i + 1, p - 1)
        }
    } else {
        spec_find_positional(fields, i + 1, p)
    }
}

/// The payload strings of a token sequence.
pub open spec fn spec_inners(tokens: Seq<ArgView>) -> Seq<Seq<char>> {
    tokens.map_values(|t: ArgView| t.inner())
}

/// What a still-empty slot is worth once the tokens are exhausted: a flag
/// was simply never passed and reads false, an optional field binds its
/// absent state, and a mandatory field is a missing value.
pub open spec fn spec_slot_final(f: FieldV, slot: Option<ValueV>) -> Result<ValueV, ErrorV> {
    match slot {
        Some(v) => Ok(v),
        None => if f.kind == FieldKind::Flag {
            Ok(ValueV::Bool(false))
        } else if f.optional {
            Ok(ValueV::Absent)
        } else {
            Err(ErrorV::ExpectedValue(f.name))
        },
    }
}

/// Closing the parse once the tokens are exhausted: each field from `i`
/// on, in declaration order, keeps its bound value or falls back as
/// [`spec_slot_final`] says; the first mandatory field still unset decides
/// the error.
pub open spec fn spec_finalize(
    fields: Seq<FieldV>,
    slots: Seq<Option<ValueV>>,
    i: int,
) -> Result<Seq<ValueV>, ErrorV>
    decreases fields.len() - i,
{
    if i < 0 || i >= fields.len() {
        Ok(Seq::<ValueV>::empty())
    } else {
        match spec_slot_final(fields[i], slots[i]) {
            Ok(v) => match spec_finalize(fields, slots, i + 1) {
                Ok(vs) => Ok(seq![v] + vs),
                Err(e) => Err(e),
            },
            Err(e) => Err(e),
        }
    }
}

/// Measure for the short-flag group recursion: positive while characters
/// remain, so finishing the group may hand over to the token loop.
pub open spec fn spec_group_measure(g: Seq<char>, j: int) -> int {
    if j <= g.len() {
        g.len() - j + 1
    } else {
        1
    }
}

/// The binder's per-token transition, from token index `i` with `pos`
/// positional values already dispatched and the slots bound so far.
///
/// A short-flag group hands over to [`spec_bind_group`]. A long flag binds
/// its field: a flag slot is set true; an option consumes the next token,
/// which must be positional, as its value. A positional token goes to the
/// `pos`-th positional field: a list field claims every remaining token's
/// payload and ends the scan; any other field binds this one token.
pub open spec fn spec_bind_from(
    fields: Seq<FieldV>,
    tokens: Seq<ArgView>,
    i: int,
    pos: int,
    slots: Seq<Option<ValueV>>,
) -> Result<Seq<ValueV>, ErrorV>
    decreases tokens.len() - i, 0int,
{
    if i < 0 || i >= tokens.len() {
        spec_finalize(fields, slots, 0)
    } else {
        match tokens[i] {
            ArgView::ShortFlags(g) => spec_bind_group(fields, tokens, i + 1, pos, slots, g, 0),
            ArgView::LongFlag(s) => match spec_find_long(fields, s, 0) {
                None => Err(ErrorV::NoSuchLongFlag(s)),
                Some(fi) => if fields[fi].kind == FieldKind::Flag {
                    spec_bind_from(
                        fields,
                        tokens,
                        i + 1,
                        pos,
                        slots.update(fi, Some(ValueV::Bool(true))),
                    )
                } else if i + 1 >= tokens.len() {
                    Err(ErrorV::ExpectedValue(fields[fi].name))
                } else {
                    match tokens[i + 1] {
                        ArgView::Positional(v) => match spec_parse_one(fields[fi].ty, v) {
                            Ok(val) => spec_bind_from(
                                fields,
                                tokens,
                                i + 2,
                                pos,
                                slots.update(fi, Some(val)),
                            ),
                            Err(e) => Err(ErrorV::ParseInt(e)),
                        },
                        _ => Err(ErrorV::ExpectedValue(fields[fi].name)),
                    }
                },
            },
            ArgView::Positional(v) => match spec_find_positional(fields, 0, pos) {
                None => Err(ErrorV::UnexpectedValue(v)),
                Some(fi) => if fields[fi].ty.spec_is_list() {
                    match spec_parse_rest(fields[fi].ty, v, spec_inners(tokens.skip(i + 1))) {
                        Ok(val) => spec_finalize(fields, slots.update(fi, Some(val)), 0),
                        Err(e) => Err(ErrorV::ParseInt(e)),
                    }
                } else {
                    match spec_parse_one(fields[fi].ty, v) {
                        Ok(val) => spec_bind_from(
                            fields,
                            tokens,
                            i + 1,
                            pos + 1,
                            slots.update(fi, Some(val)),
                        ),
                        Err(e) => Err(ErrorV::ParseInt(e)),
                    }
                },
            },
        }
    }
}

/// The binder's walk through one short-flag group `g`, from character
/// index `j`, with `i` the index of the next unconsumed token. Each
/// character addresses a field by its short identifier: a flag sets its
/// slot; an option pulls its value from the token stream — not from the
/// rest of the group — and the remaining characters go on being processed.
pub open spec fn spec_bind_group(
    fields: Seq<FieldV>,
    tokens: Seq<ArgView>,
    i: int,
    pos: int,
    slots: Seq<Option<ValueV>>,
    g: Seq<char>,
    j: int,
) -> Result<Seq<ValueV>, ErrorV>
    decreases tokens.len() - i, spec_group_measure(g, j),
{
    if j < 0 || j >= g.len() {
        spec_bind_from(fields, tokens, i, pos, slots)
    } else {
        match spec_find_short(fields, g[j], 0) {
            None => Err(ErrorV::NoSuchShortFlag(g[j])),
            Some(fi) => if fields[fi].kind == FieldKind::Flag {
                spec_bind_group(
                    fields,
                    tokens,
                    i,
                    pos,
                    slots.update(fi, Some(ValueV::Bool(true))),
                    g,
                    j + 1,
                )
            } else if i < 0 || i >= tokens.len() {
                Err(ErrorV::ExpectedValue(fields[fi].name))
            } else {
                match tokens[i] {
                    ArgView::Positional(v) => match spec_parse_one(fields[fi].ty, v) {
                        Ok(val) => spec_bind_group(
                            fields,
                            tokens,
                            i + 1,
                            pos,
                            slots.update(fi, Some(val)),
                            g,
                            j + 1,
                        ),
                        Err(e) => Err(ErrorV::ParseInt(e)),
                    },
                    _ => Err(ErrorV::ExpectedValue(fields[fi].name)),
                }
            },
        }
    }
}

/// What binding a classified token stream against a field table yields:
/// one value per field in declaration order, or the first error.
pub open spec fn spec_bind(fields: Seq<FieldV>, tokens: Seq<ArgView>) -> Result<
    Seq<ValueV>,
    ErrorV,
> {
    spec_bind_from(fields, tokens, 0, 0, Seq::<Option<ValueV>>::new(fields.len(), |k: int| None))
}

/// What parsing a raw argument list yields: the tokens of
/// [`spec_tokenize`] bound by [`spec_bind`].
pub open spec fn spec_parse_args(fields: Seq<FieldV>, args: Seq<Seq<char>>) -> Result<
    Seq<ValueV>,
    ErrorV,
> {
    spec_bind(fields, spec_tokenize(args))
}

/// The mathematical image of a binder result.
pub open spec fn spec_bind_result(r: Result<Vec<Value>, SchmargsError>) -> Result<
    Seq<ValueV>,
    ErrorV,
> {
    match r {
        Ok(v) => Ok(v.deep_view()),
        Err(e) => Err(e@),
    }
}


fn matches_short(f: &Field, c: char) -> (r: bool)
    ensures
        r == spec_matches_short(f@, c),
{
    let kind_ok = match f.kind {
        FieldKind::Flag => true,
        FieldKind::Opt => true,
        FieldKind::Positional => false,
    };
    kind_ok && (match f.short {
        Some(sc) => sc == c,
        None => false,
    })
}

fn matches_long(f: &Field, s: &String) -> (r: bool)
    ensures
        r == spec_matches_long(f@, s@),
{
    let kind_ok = match f.kind {
        FieldKind::Flag => true,
        FieldKind::Opt => true,
        FieldKind::Positional => false,
    };
    kind_ok && (match &f.long {
        Some(l) => *l == *s,
        None => false,
    })
}

fn find_short(fields: &Vec<Field>, c: char) -> (r: Option<usize>)
    ensures
        (match r {
            Some(fi) => fi < fields.len() && spec_find_short(fields.deep_view(), c, 0) == Some(
                fi as int,
            ),
            None => spec_find_short(fields.deep_view(), c, 0) is None,
        }),
{
    let ghost fdv = fields.deep_view();
    let n = fields.len();
    let mut j: usize = 0;
    while j < n
        invariant
            0 <= j <= n,
            n == fields.len(),
            fdv == fields.deep_view(),
            spec_find_short(fdv, c, 0) == spec_find_short(fdv, c, j as int),
        decreases n - j,
    {
        if matches_short(&fields[j], c) {
            return Some(j);
        }
        j = j + 1;
    }
    None
}

fn find_long(fields: &Vec<Field>, s: &String) -> (r: Option<usize>)
    ensures
        (match r {
            Some(fi) => fi < fields.len() && spec_find_long(fields.deep_view(), s@, 0) == Some(
                fi as int,
            ),
            None => spec_find_long(fields.deep_view(), s@, 0) is None,
        }),
{
    let ghost fdv = fields.deep_view();
    let n = fields.len();
    let mut j: usize = 0;
    while j < n
        invariant
            0 <= j <= n,
            n == fields.len(),
            fdv == fields.deep_view(),
            spec_find_long(fdv, s@, 0) == spec_find_long(fdv, s@, j as int),
        decreases n - j,
    {
        if matches_long(&fields[j], s) {
            return Some(j);
        }
        j = j + 1;
    }
    None
}

fn find_positional(fields: &Vec<Field>, p: usize) -> (r: Option<usize>)
    ensures
        (match r {
            Some(fi) => fi < fields.len() && spec_find_positional(fields.deep_view(), 0, p as int)
                == Some(fi as int),
            None => spec_find_positional(fields.deep_view(), 0, p as int) is None,
        }),
{
    let ghost fdv = fields.deep_view();
    let n = fields.len();
    let mut j: usize = 0;
    let mut rem: usize = p;
    while j < n
        invariant
            0 <= j <= n,
            n == fields.len(),
            fdv == fields.deep_view(),
            spec_find_positional(fdv, 0, p as int) == spec_find_positional(
                fdv,
                j as int,
                rem as int,
            ),
        decreases n - j,
    {
        let is_positional = match fields[j].kind {
            FieldKind::Positional => true,
            _ => false,
        };
        if is_positional {
            if rem == 0 {
                return Some(j);
            }
            rem = rem - 1;
        }
        j = j + 1;
    }
    None
}

fn inner_string(t: &DumbArgument) -> (r: String)
    ensures
        r@ == t@.inner(),
{
    match t {
        DumbArgument::ShortFlags(s) => s.clone(),
        DumbArgument::LongFlag(s) => s.clone(),
        DumbArgument::Positional(s) => s.clone(),
    }
}

fn collect_inners(tokens: &Vec<DumbArgument>, from: usize) -> (r: Vec<String>)
    requires
        from <= tokens.len(),
    ensures
        r.deep_view() == spec_inners(tokens.deep_view().skip(from as int)),
{
    let ghost tdv = tokens.deep_view();
    let mut out: Vec<String> = Vec::new();
    let mut k = from;
    proof {
        assert(out.deep_view() =~= spec_inners(tdv.subrange(from as int, from as int)));
    }
    while k < tokens.len()
        invariant
            from <= k <= tokens.len(),
            tdv == tokens.deep_view(),
            out.deep_view() == spec_inners(tdv.subrange(from as int, k as int)),
        decreases tokens.len() - k,
    {
        let ghost olddv = out.deep_view();
        let piece = inner_string(&tokens[k]);
        out.push(piece);
        proof {
            assert(out.deep_view() =~= olddv.push(tdv[k as int].inner()));
            assert(out.deep_view() =~= spec_inners(tdv.subrange(from as int, k as int + 1)));
        }
        k = k + 1;
    }
    proof {
        assert(tdv.subrange(from as int, tdv.len() as int) =~= tdv.skip(from as int));
    }
    out
}

/// Close the parse: keep each bound value, let empty flag slots read
/// false and optional slots read absent, and report the first mandatory
/// field that never got a value.
fn finalize(fields: &Vec<Field>, slots: Vec<Option<Value>>) -> (r: Result<Vec<Value>, SchmargsError>)
    requires
        slots.len() == fields.len(),
    ensures
        spec_bind_result(r) == spec_finalize(fields.deep_view(), slots.deep_view(), 0),
{
    let ghost fdv = fields.deep_view();
    let ghost osdv = slots.deep_view();
    let mut slots = slots;
    let n = fields.len();
    let out0: Vec<Value> = Vec::new();
    proof {
        assert(out0.deep_view() =~= Seq::<ValueV>::empty());
    }
    let mut result: Result<Vec<Value>, SchmargsError> = Ok(out0);
    let mut k = n;
    proof {
        assert(slots.deep_view() =~= osdv.subrange(0, n as int));
        assert(spec_bind_result(result) == spec_finalize(fdv, osdv, n as int));
    }
    while k > 0
        invariant
            0 <= k <= n,
            n == fields.len(),
            slots.len() == k,
            fdv == fields.deep_view(),
            osdv.len() == n,
            slots.deep_view() == osdv.subrange(0, k as int),
            spec_bind_result(result) == spec_finalize(fdv, osdv, k as int),
        decreases k,
    {
        k = k - 1;
        let ghost presdv = slots.deep_view();
        let slot = match slots.pop() {
            Some(s) => s,
            None => unreached(),
        };
        proof {
            assert(slot.deep_view() == presdv[k as int]);
            assert(slots.deep_view() =~= presdv.drop_last());
            assert(presdv.drop_last() =~= osdv.subrange(0, k as int));
            assert(presdv[k as int] == osdv[k as int]);
        }
        let fin: Result<Value, SchmargsError> = match slot {
            Some(v) => Ok(v),
            None => {
                let f = &fields[k];
                let is_flag = match f.kind {
                    FieldKind::Flag => true,
                    _ => false,
                };
                if is_flag {
                    Ok(Value::Bool(false))
                } else if f.optional {
                    Ok(Value::Absent)
                } else {
                    Err(SchmargsError::ExpectedValue(f.name.clone()))
                }
            },
        };
        match fin {
            Err(e) => {
                result = Err(e);
            },
            Ok(v) => {
                let prior = result;
                match prior {
                    Ok(vs) => {
                        let ghost olddv = vs.deep_view();
                        let mut vs = vs;
                        vs.insert(0, v);
                        proof {
                            assert(vs.deep_view() =~= seq![v@] + olddv);
                        }
                        result = Ok(vs);
                    },
                    Err(e) => {
                        result = Err(e);
                    },
                }
            },
        }
    }
    result
}

/// Bind a classified token stream against the field table: drive the
/// per-token dispatch of the state machine, fill the slots, and close.
#[verifier::rlimit(100)]
pub fn bind_tokens(fields: &Vec<Field>, tokens: &Vec<DumbArgument>) -> (r: Result<
    Vec<Value>,
    SchmargsError,
>)
    requires
        spec_table_wf(fields.deep_view()),
    ensures
        spec_bind_result(r) == spec_bind(fields.deep_view(), tokens.deep_view()),
        r matches Ok(v) ==> v.len() == fields.len(),
{
    proof {
        lemma_bind_length(fields.deep_view(), tokens.deep_view());
    }
    let ghost fdv = fields.deep_view();
    let ghost tdv = tokens.deep_view();
    let nf = fields.len();
    let nt = tokens.len();
    let mut slots: Vec<Option<Value>> = Vec::new();
    let mut k: usize = 0;
    while k < nf
        invariant
            0 <= k <= nf,
            slots.len() == k,
            forall|x: int| 0 <= x < k ==> slots.deep_view()[x] is None,
        decreases nf - k,
    {
        let ghost olddv = slots.deep_view();
        slots.push(None);
        proof {
            assert forall|x: int| 0 <= x < k + 1 implies slots.deep_view()[x] is None by {
                if x < k {
                    assert(slots@[x] == slots@.drop_last()[x]);
                    assert(slots.deep_view()[x] == olddv[x]);
                } else {
                    assert(slots@[x] == None::<Value>);
                }
            }
        }
        k = k + 1;
    }
    let mut i: usize = 0;
    let mut pos: usize = 0;
    proof {
        assert(slots.deep_view() =~= Seq::<Option<ValueV>>::new(fdv.len(), |x: int| None));
    }
    while i < nt
        invariant
            0 <= i <= nt,
            pos <= i,
            nt == tokens.len(),
            nf == fields.len(),
            slots.len() == nf,
            fdv == fields.deep_view(),
            tdv == tokens.deep_view(),
            spec_table_wf(fdv),
            spec_bind_from(fdv, tdv, i as int, pos as int, slots.deep_view()) == spec_bind(
                fdv,
                tdv,
            ),
        decreases nt - i,
    {
        let ghost sdv = slots.deep_view();
        match &tokens[i] {
            DumbArgument::Positional(v) => {
                proof {
                    assert(tdv[i as int] == ArgView::Positional(v@));
                }
                match find_positional(fields, pos) {
                    None => {
                        return Err(SchmargsError::UnexpectedValue(v.clone()));
                    },
                    Some(fi) => {
                        let ty = fields[fi].ty;
                        proof {
                            assert(fdv[fi as int].ty == ty);
                            assert(ty.wf());
                        }
                        if ty.is_list() {
                            let rest = collect_inners(tokens, i + 1);
                            match parse_with_rest(&ty, v.clone(), rest) {
                                Ok(val) => {
                                    slots[fi] = Some(val);
                                    proof {
                                        assert(slots.deep_view() =~= sdv.update(
                                            fi as int,
                                            Some(val@),
                                        ));
                                    }
                                    let out = finalize(fields, slots);
                                    proof {
                                        assert(spec_bind_result(out) == spec_bind(fdv, tdv));
                                        lemma_bind_length(fdv, tdv);
                                    }
                                    return out;
                                },
                                Err(e) => {
                                    return Err(e);
                                },
                            }
                        } else {
                            match parse_one(&ty, v.clone()) {
                                Ok(val) => {
                                    slots[fi] = Some(val);
                                    proof {
                                        assert(slots.deep_view() =~= sdv.update(
                                            fi as int,
                                            Some(val@),
                                        ));
                                    }
                                    pos = pos + 1;
                                    i = i + 1;
                                },
                                Err(e) => {
                                    return Err(e);
                                },
                            }
                        }
                    },
                }
            },
            DumbArgument::LongFlag(s) => {
                proof {
                    assert(tdv[i as int] == ArgView::LongFlag(s@));
                }
                match find_long(fields, s) {
                    None => {
                        return Err(SchmargsError::NoSuchLongFlag(s.clone()));
                    },
                    Some(fi) => {
                        let is_flag = match fields[fi].kind {
                            FieldKind::Flag => true,
                            _ => false,
                        };
                        if is_flag {
                            slots[fi] = Some(Value::Bool(true));
                            proof {
                                assert(slots.deep_view() =~= sdv.update(
                                    fi as int,
                                    Some(ValueV::Bool(true)),
                                ));
                            }
                            i = i + 1;
                        } else {
                            if i + 1 >= nt {
                                return Err(SchmargsError::ExpectedValue(fields[fi].name.clone()));
                            }
                            match &tokens[i + 1] {
                                DumbArgument::Positional(v) => {
                                    proof {
                                        assert(tdv[i as int + 1] == ArgView::Positional(v@));
                                    }
                                    let ty = fields[fi].ty;
                                    proof {
                                        assert(ty.wf());
                                    }
                                    match parse_one(&ty, v.clone()) {
                                        Ok(val) => {
                                            slots[fi] = Some(val);
                                            proof {
                                                assert(slots.deep_view() =~= sdv.update(
                                                    fi as int,
                                                    Some(val@),
                                                ));
                                            }
                                            i = i + 2;
                                        },
                                        Err(e) => {
                                            return Err(e);
                                        },
                                    }
                                },
                                _ => {
                                    return Err(SchmargsError::ExpectedValue(
                                        fields[fi].name.clone(),
                                    ));
                                },
                            }
                        }
                    },
                }
            },
            DumbArgument::ShortFlags(g) => {
                proof {
                    assert(tdv[i as int] == ArgView::ShortFlags(g@));
                }
                let ghost i0 = i as int;
                let ghost gv = g@;
                let glen = g.as_str().unicode_len();
                let mut j: usize = 0;
                i = i + 1;
                while j < glen
                    invariant
                        i0 < i,
                        0 <= j <= glen,
                        glen == gv.len(),
                        pos <= i,
                        i <= nt,
                        nt == tokens.len(),
                        nf == fields.len(),
                        slots.len() == nf,
                        fdv == fields.deep_view(),
                        tdv == tokens.deep_view(),
                        spec_table_wf(fdv),
                        gv == g@,
                        spec_bind_group(
                            fdv,
                            tdv,
                            i as int,
                            pos as int,
                            slots.deep_view(),
                            gv,
                            j as int,
                        ) == spec_bind(fdv, tdv),
                    decreases glen - j,
                {
                    let ghost sdv2 = slots.deep_view();
                    let c = g.as_str().get_char(j);
                    match find_short(fields, c) {
                        None => {
                            return Err(SchmargsError::NoSuchShortFlag(c));
                        },
                        Some(fi) => {
                            let is_flag = match fields[fi].kind {
                                FieldKind::Flag => true,
                                _ => false,
                            };
                            if is_flag {
                                slots[fi] = Some(Value::Bool(true));
                                proof {
                                    assert(slots.deep_view() =~= sdv2.update(
                                        fi as int,
                                        Some(ValueV::Bool(true)),
                                    ));
                                }
                                j = j + 1;
                            } else {
                                if i >= nt {
                                    return Err(SchmargsError::ExpectedValue(
                                        fields[fi].name.clone(),
                                    ));
                                }
                                match &tokens[i] {
                                    DumbArgument::Positional(v) => {
                                        proof {
                                            assert(tdv[i as int] == ArgView::Positional(v@));
                                        }
                                        let ty = fields[fi].ty;
                                        proof {
                                            assert(ty.wf());
                                        }
                                        match parse_one(&ty, v.clone()) {
                                            Ok(val) => {
                                                slots[fi] = Some(val);
                                                proof {
                                                    assert(slots.deep_view() =~= sdv2.update(
                                                        fi as int,
                                                        Some(val@),
                                                    ));
                                                }
                                                i = i + 1;
                                                j = j + 1;
                                            },
                                            Err(e) => {
                                                return Err(e);
                                            },
                                        }
                                    },
                                    _ => {
                                        return Err(SchmargsError::ExpectedValue(
                                            fields[fi].name.clone(),
                                        ));
                                    },
                                }
                            }
                        },
                    }
                }
            },
        }
    }
    finalize(fields, slots)
}

/// Tokenize a raw argument list and bind it against the field table.
pub fn parse(fields: &Vec<Field>, args: Vec<String>) -> (r: Result<Vec<Value>, SchmargsError>)
    requires
        spec_table_wf(fields.deep_view()),
    ensures
        spec_bind_result(r) == spec_parse_args(fields.deep_view(), args.deep_view()),
        r matches Ok(v) ==> v.len() == fields.len(),
{
    let tokens = tokenize(args);
    bind_tokens(fields, &tokens)
}


/// Must the field receive a token: is it neither a flag nor optional?
pub open spec fn spec_mandatory(f: FieldV) -> bool {
    f.kind != FieldKind::Flag && !f.optional
}

/// The value an untouched field reads: false for a flag, the absent state
/// otherwise.
pub open spec fn spec_default_value(f: FieldV) -> ValueV {
    if f.kind == FieldKind::Flag {
        ValueV::Bool(false)
    } else {
        ValueV::Absent
    }
}

/// The first mandatory field at or after `i`.
pub open spec fn spec_first_mandatory(fields: Seq<FieldV>, i: int) -> Option<int>
    decreases fields.len() - i,
{
    if i < 0 || i >= fields.len() {
        None
    } else if spec_mandatory(fields[i]) {
        Some(i)
    } else {
        spec_first_mandatory(fields, i + 1)
    }
}

proof fn lemma_finalize_empty(fields: Seq<FieldV>, slots: Seq<Option<ValueV>>, i: int)
    requires
        0 <= i <= fields.len(),
        slots.len() == fields.len(),
        forall|k: int| 0 <= k < fields.len() ==> slots[k] is None,
    ensures
        (match spec_first_mandatory(fields, i) {
            None => spec_finalize(fields, slots, i) matches Ok(vs) && vs.len() == fields.len() - i
                && (forall|k: int|
                i <= k < fields.len() ==> vs[k - i] == spec_default_value(fields[k])),
            Some(m) => spec_finalize(fields, slots, i) == Err::<Seq<ValueV>, ErrorV>(
                ErrorV::ExpectedValue(fields[m].name),
            ),
        }),
    decreases fields.len() - i,
{
    if i < fields.len() {
        lemma_finalize_empty(fields, slots, i + 1);
        if !spec_mandatory(fields[i]) {
            match spec_first_mandatory(fields, i + 1) {
                None => {
                    let v = spec_default_value(fields[i]);
                    if let Ok(vs) = spec_finalize(fields, slots, i + 1) {
                        let all = seq![v] + vs;
                        assert forall|k: int| i <= k < fields.len() implies all[k - i]
                            == spec_default_value(fields[k]) by {
                            if k > i {
                                assert(all[k - i] == vs[k - i - 1]);
                            }
                        }
                    }
                },
                Some(_) => {},
            }
        }
    }
}

/// Idempotence of absence: binding an empty token stream succeeds exactly
/// when no mandatory field is declared. Then every flag reads false and
/// every optional or positional field binds its absent state; otherwise
/// the first mandatory field decides the error, reporting its name as the
/// missing value.
pub proof fn lemma_bind_empty(fields: Seq<FieldV>)
    ensures
        (match spec_first_mandatory(fields, 0) {
            None => spec_bind(fields, Seq::<ArgView>::empty()) matches Ok(vs) && vs.len()
                == fields.len() && (forall|k: int|
                0 <= k < fields.len() ==> vs[k] == spec_default_value(fields[k])),
            Some(m) => spec_bind(fields, Seq::<ArgView>::empty()) == Err::<
                Seq<ValueV>,
                ErrorV,
            >(ErrorV::ExpectedValue(fields[m].name)),
        }),
{
    let slots = Seq::<Option<ValueV>>::new(fields.len(), |k: int| None);
    lemma_finalize_empty(fields, slots, 0);
}

/// No field of the table answers to the long flag `s`: the scan finds
/// nothing.
pub proof fn lemma_find_long_none(fields: Seq<FieldV>, s: Seq<char>, i: int)
    requires
        forall|k: int| 0 <= k < fields.len() ==> !spec_matches_long(#[trigger] fields[k], s),
    ensures
        spec_find_long(fields, s, i) is None,
    decreases fields.len() - i,
{
    if 0 <= i < fields.len() {
        lemma_find_long_none(fields, s, i + 1);
    }
}

/// The number of positional fields at or after `i`.
pub open spec fn spec_count_positionals(fields: Seq<FieldV>, i: int) -> int
    decreases fields.len() - i,
{
    if i < 0 || i >= fields.len() {
        0
    } else if fields[i].kind == FieldKind::Positional {
        1 + spec_count_positionals(fields, i + 1)
    } else {
        spec_count_positionals(fields, i + 1)
    }
}

proof fn lemma_count_positionals_nonneg(fields: Seq<FieldV>, i: int)
    ensures
        spec_count_positionals(fields, i) >= 0,
    decreases fields.len() - i,
{
    if 0 <= i < fields.len() {
        lemma_count_positionals_nonneg(fields, i + 1);
    }
}

proof fn lemma_find_positional_bound(fields: Seq<FieldV>, i: int, p: int)
    requires
        spec_find_positional(fields, i, p) is Some,
    ensures
        0 <= p < spec_count_positionals(fields, i),
    decreases fields.len() - i,
{
    if 0 <= i < fields.len() {
        if fields[i].kind == FieldKind::Positional {
            if p == 0 {
                lemma_count_positionals_nonneg(fields, i + 1);
            } else {
                lemma_find_positional_bound(fields, i + 1, p - 1);
            }
        } else {
            lemma_find_positional_bound(fields, i + 1, p);
        }
    }
}

/// How many tokens the binder dispatches through the positional counter
/// from token index `i` on, `pos` of them already dispatched. The
/// transitions mirror [`spec_bind_from`]: a positional token that reaches
/// a field counts one dispatch — a collection field's single dispatch
/// claims the remaining tokens as its payload — while flags and option
/// values count none.
pub open spec fn spec_pos_consumed_from(
    fields: Seq<FieldV>,
    tokens: Seq<ArgView>,
    i: int,
    pos: int,
) -> int
    decreases tokens.len() - i, 0int,
{
    if i < 0 || i >= tokens.len() {
        0
    } else {
        match tokens[i] {
            ArgView::ShortFlags(g) => spec_pos_consumed_group(fields, tokens, i + 1, pos, g, 0),
            ArgView::LongFlag(s) => match spec_find_long(fields, s, 0) {
                None => 0,
                Some(fi) => if fields[fi].kind == FieldKind::Flag {
                    spec_pos_consumed_from(fields, tokens, i + 1, pos)
                } else if i + 1 >= tokens.len() {
                    0
                } else {
                    match tokens[i + 1] {
                        ArgView::Positional(v) => match spec_parse_one(fields[fi].ty, v) {
                            Ok(_) => spec_pos_consumed_from(fields, tokens, i + 2, pos),
                            Err(_) => 0,
                        },
                        _ => 0,
                    }
                },
            },
            ArgView::Positional(v) => match spec_find_positional(fields, 0, pos) {
                None => 0,
                Some(fi) => if fields[fi].ty.spec_is_list() {
                    1
                } else {
                    match spec_parse_one(fields[fi].ty, v) {
                        Ok(_) => 1 + spec_pos_consumed_from(fields, tokens, i + 1, pos + 1),
                        Err(_) => 1,
                    }
                },
            },
        }
    }
}

/// The dispatch count within a short-flag group, mirroring
/// [`spec_bind_group`].
pub open spec fn spec_pos_consumed_group(
    fields: Seq<FieldV>,
    tokens: Seq<ArgView>,
    i: int,
    pos: int,
    g: Seq<char>,
    j: int,
) -> int
    decreases tokens.len() - i, spec_group_measure(g, j),
{
    if j < 0 || j >= g.len() {
        spec_pos_consumed_from(fields, tokens, i, pos)
    } else {
        match spec_find_short(fields, g[j], 0) {
            None => 0,
            Some(fi) => if fields[fi].kind == FieldKind::Flag {
                spec_pos_consumed_group(fields, tokens, i, pos, g, j + 1)
            } else if i < 0 || i >= tokens.len() {
                0
            } else {
                match tokens[i] {
                    ArgView::Positional(v) => match spec_parse_one(fields[fi].ty, v) {
                        Ok(_) => spec_pos_consumed_group(fields, tokens, i + 1, pos, g, j + 1),
                        Err(_) => 0,
                    },
                    _ => 0,
                }
            },
        }
    }
}

proof fn lemma_pos_consumed_from_bound(fields: Seq<FieldV>, tokens: Seq<ArgView>, i: int, pos: int)
    requires
        0 <= pos,
    ensures
        0 <= spec_pos_consumed_from(fields, tokens, i, pos),
        pos <= spec_count_positionals(fields, 0) ==> spec_pos_consumed_from(fields, tokens, i, pos)
            <= spec_count_positionals(fields, 0) - pos,
    decreases tokens.len() - i, 0int,
{
    if 0 <= i < tokens.len() {
        match tokens[i] {
            ArgView::ShortFlags(g) => {
                lemma_pos_consumed_group_bound(fields, tokens, i + 1, pos, g, 0);
            },
            ArgView::LongFlag(s) => {
                match spec_find_long(fields, s, 0) {
                    None => {},
                    Some(fi) => {
                        lemma_pos_consumed_from_bound(fields, tokens, i + 1, pos);
                        if i + 2 <= tokens.len() {
                            lemma_pos_consumed_from_bound(fields, tokens, i + 2, pos);
                        }
                    },
                }
            },
            ArgView::Positional(v) => {
                match spec_find_positional(fields, 0, pos) {
                    None => {},
                    Some(fi) => {
                        lemma_find_positional_bound(fields, 0, pos);
                        lemma_pos_consumed_from_bound(fields, tokens, i + 1, pos + 1);
                    },
                }
            },
        }
    }
}

proof fn lemma_pos_consumed_group_bound(
    fields: Seq<FieldV>,
    tokens: Seq<ArgView>,
    i: int,
    pos: int,
    g: Seq<char>,
    j: int,
)
    requires
        0 <= pos,
    ensures
        0 <= spec_pos_consumed_group(fields, tokens, i, pos, g, j),
        pos <= spec_count_positionals(fields, 0) ==> spec_pos_consumed_group(
            fields,
            tokens,
            i,
            pos,
            g,
            j,
        ) <= spec_count_positionals(fields, 0) - pos,
    decreases tokens.len() - i, spec_group_measure(g, j),
{
    if j < 0 || j >= g.len() {
        lemma_pos_consumed_from_bound(fields, tokens, i, pos);
    } else {
        match spec_find_short(fields, g[j], 0) {
            None => {},
            Some(fi) => {
                if fields[fi].kind == FieldKind::Flag {
                    lemma_pos_consumed_group_bound(fields, tokens, i, pos, g, j + 1);
                } else if 0 <= i < tokens.len() {
                    lemma_pos_consumed_group_bound(fields, tokens, i + 1, pos, g, j + 1);
                }
            },
        }
    }
}

/// For every table and token stream, the binder dispatches no more
/// positional tokens than the table declares positional fields: each
/// non-collection positional field takes at most one, and a collection
/// field takes one dispatch that claims the remaining tokens as its
/// payload.
pub proof fn lemma_positional_consumption(fields: Seq<FieldV>, tokens: Seq<ArgView>)
    ensures
        0 <= spec_pos_consumed_from(fields, tokens, 0, 0),
        spec_pos_consumed_from(fields, tokens, 0, 0) <= spec_count_positionals(fields, 0),
{
    lemma_count_positionals_nonneg(fields, 0);
    lemma_pos_consumed_from_bound(fields, tokens, 0, 0);
}


proof fn lemma_finalize_length(fields: Seq<FieldV>, slots: Seq<Option<ValueV>>, i: int)
    ensures
        spec_finalize(fields, slots, i) matches Ok(vs) ==> vs.len() == (if 0 <= i
            <= fields.len() {
            fields.len() - i
        } else {
            0int
        }),
    decreases fields.len() - i,
{
    if 0 <= i < fields.len() {
        lemma_finalize_length(fields, slots, i + 1);
    }
}

proof fn lemma_bind_from_length(
    fields: Seq<FieldV>,
    tokens: Seq<ArgView>,
    i: int,
    pos: int,
    slots: Seq<Option<ValueV>>,
)
    ensures
        spec_bind_from(fields, tokens, i, pos, slots) matches Ok(vs) ==> vs.len() == fields.len(),
    decreases tokens.len() - i, 0int,
{
    if i < 0 || i >= tokens.len() {
        lemma_finalize_length(fields, slots, 0);
    } else {
        match tokens[i] {
            ArgView::ShortFlags(g) => {
                lemma_bind_group_length(fields, tokens, i + 1, pos, slots, g, 0);
            },
            ArgView::LongFlag(s) => {
                match spec_find_long(fields, s, 0) {
                    None => {},
                    Some(fi) => {
                        if fields[fi].kind == FieldKind::Flag {
                            lemma_bind_from_length(
                                fields,
                                tokens,
                                i + 1,
                                pos,
                                slots.update(fi, Some(ValueV::Bool(true))),
                            );
                        } else if i + 1 < tokens.len() {
                            if let ArgView::Positional(v) = tokens[i + 1] {
                                if let Ok(val) = spec_parse_one(fields[fi].ty, v) {
                                    lemma_bind_from_length(
                                        fields,
                                        tokens,
                                        i + 2,
                                        pos,
                                        slots.update(fi, Some(val)),
                                    );
                                }
                            }
                        }
                    },
                }
            },
            ArgView::Positional(v) => {
                match spec_find_positional(fields, 0, pos) {
                    None => {},
                    Some(fi) => {
                        if fields[fi].ty.spec_is_list() {
                            if let Ok(val) = spec_parse_rest(
                                fields[fi].ty,
                                v,
                                spec_inners(tokens.skip(i + 1)),
                            ) {
                                lemma_finalize_length(fields, slots.update(fi, Some(val)), 0);
                            }
                        } else {
                            if let Ok(val) = spec_parse_one(fields[fi].ty, v) {
                                lemma_bind_from_length(
                                    fields,
                                    tokens,
                                    i + 1,
                                    pos + 1,
                                    slots.update(fi, Some(val)),
                                );
                            }
                        }
                    },
                }
            },
        }
    }
}

proof fn lemma_bind_group_length(
    fields: Seq<FieldV>,
    tokens: Seq<ArgView>,
    i: int,
    pos: int,
    slots: Seq<Option<ValueV>>,
    g: Seq<char>,
    j: int,
)
    ensures
        spec_bind_group(fields, tokens, i, pos, slots, g, j) matches Ok(vs) ==> vs.len()
            == fields.len(),
    decreases tokens.len() - i, spec_group_measure(g, j),
{
    if j < 0 || j >= g.len() {
        lemma_bind_from_length(fields, tokens, i, pos, slots);
    } else {
        match spec_find_short(fields, g[j], 0) {
            None => {},
            Some(fi) => {
                if fields[fi].kind == FieldKind::Flag {
                    lemma_bind_group_length(
                        fields,
                        tokens,
                        i,
                        pos,
                        slots.update(fi, Some(ValueV::Bool(true))),
                        g,
                        j + 1,
                    );
                } else if 0 <= i < tokens.len() {
                    if let ArgView::Positional(v) = tokens[i] {
                        if let Ok(val) = spec_parse_one(fields[fi].ty, v) {
                            lemma_bind_group_length(
                                fields,
                                tokens,
                                i + 1,
                                pos,
                                slots.update(fi, Some(val)),
                                g,
                                j + 1,
                            );
                        }
                    }
                }
            },
        }
    }
}

/// A successful bind yields exactly one value per declared field, in
/// declaration order.
pub proof fn lemma_bind_length(fields: Seq<FieldV>, tokens: Seq<ArgView>)
    ensures
        spec_bind(fields, tokens) matches Ok(vs) ==> vs.len() == fields.len(),
{
    lemma_bind_from_length(
        fields,
        tokens,
        0,
        0,
        Seq::<Option<ValueV>>::new(fields.len(), |k: int| None),
    );
}

} // verus!
