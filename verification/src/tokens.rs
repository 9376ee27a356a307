//! The tokenizer: classifies raw argument strings into positional values,
//! long flags and bundled short-flag groups, honoring a `--` terminator.

use vstd::prelude::*;

verus! {

use vstd::string::StrSliceExecFns;

/// Mathematical image of a classified token: the payload is the character
/// sequence left after the classifying prefix is stripped.
pub enum ArgView {
    /// A bundle of short-flag characters, e.g. `-xvf` gives `xvf`.
    ShortFlags(Seq<char>),
    /// A long flag, e.g. `--color` gives `color`.
    LongFlag(Seq<char>),
    /// A plain value, kept unchanged.
    Positional(Seq<char>),
}

impl ArgView {
    /// The payload, whatever the classification.
    pub open spec fn inner(self) -> Seq<char> {
        match self {
            ArgView::ShortFlags(s) => s,
            ArgView::LongFlag(s) => s,
            ArgView::Positional(s) => s,
        }
    }
}

/// A classified argument token. The payload of a `ShortFlags` or `LongFlag`
/// token is the content after the dash prefix; a `Positional` payload is the
/// raw string unchanged.
#[derive(Debug, Clone, PartialEq, Eq)]
pub enum DumbArgument {
    /// A bundle of short-flag characters, e.g. `-xvf` gives `xvf`.
    ShortFlags(String),
    /// A long flag, e.g. `--color` gives `color`.
    LongFlag(String),
    /// A plain value, kept unchanged.
    Positional(String),
}

impl View for DumbArgument {
    type V = ArgView;

    open spec fn view(&self) -> ArgView {
        match self {
            DumbArgument::ShortFlags(s) => ArgView::ShortFlags(s@),
            DumbArgument::LongFlag(s) => ArgView::LongFlag(s@),
            DumbArgument::Positional(s) => ArgView::Positional(s@),
        }
    }
}

impl DeepView for DumbArgument {
    type V = ArgView;

    open spec fn deep_view(&self) -> ArgView {
        self.view()
    }
}

impl DumbArgument {
    /// Unwrap the payload.
    pub fn into_inner(self) -> (r: String)
        ensures
            r@ == self@.inner(),
    {
        match self {
            DumbArgument::ShortFlags(inner) => inner,
            DumbArgument::LongFlag(inner) => inner,
            DumbArgument::Positional(inner) => inner,
        }
    }
}

/// Is the string exactly `--`, the terminator after which everything is
/// positional?
pub open spec fn spec_is_terminator(s: Seq<char>) -> bool {
    s.len() == 2 && s[0] == '-' && s[1] == '-'
}

/// How a single raw string is classified before the terminator was seen:
/// `--x...` is a long flag with the `--` stripped, `-x...` is a group of
/// short flags with the `-` stripped, and anything else — including a bare
/// `-` — is positional.
pub open spec fn spec_classify(s: Seq<char>) -> ArgView {
    if s.len() > 2 && s[0] == '-' && s[1] == '-' {
        ArgView::LongFlag(s.skip(2))
    } else if s.len() >= 2 && s[0] == '-' && !(s.len() == 2 && s[1] == '-') {
        ArgView::ShortFlags(s.skip(1))
    } else {
        ArgView::Positional(s)
    }
}

/// The token sequence produced from the raw strings `args`, where
/// `terminated` says whether a `--` terminator was already consumed.
/// The first `--` seen is consumed without being emitted; every raw string
/// after it is positional whatever its shape.
pub open spec fn spec_tokenize_from(args: Seq<Seq<char>>, terminated: bool) -> Seq<ArgView>
    decreases args.len(),
{
    if args.len() == 0 {
        Seq::empty()
    } else if terminated {
        seq![ArgView::Positional(args[0])] + spec_tokenize_from(args.drop_first(), true)
    } else if spec_is_terminator(args[0]) {
        spec_tokenize_from(args.drop_first(), true)
    } else {
        seq![spec_classify(args[0])] + spec_tokenize_from(args.drop_first(), false)
    }
}

/// The token sequence produced from the raw strings `args`.
pub open spec fn spec_tokenize(args: Seq<Seq<char>>) -> Seq<ArgView> {
    spec_tokenize_from(args, false)
}

/// Once the terminator has been consumed, every remaining raw string comes
/// out as a positional token, unchanged.
pub proof fn lemma_tokenize_terminated(args: Seq<Seq<char>>)
    ensures
        spec_tokenize_from(args, true) == args.map_values(|s: Seq<char>| ArgView::Positional(s)),
    decreases args.len(),
{
    let m = args.map_values(|s: Seq<char>| ArgView::Positional(s));
    if args.len() == 0 {
        assert(spec_tokenize_from(args, true) =~= m);
    } else {
        lemma_tokenize_terminated(args.drop_first());
        assert(spec_tokenize_from(args, true) =~= m);
    }
}

/// A leading terminator makes the whole rest of the argument list literal:
/// every raw string after it, dash-prefixed or not, becomes one positional
/// token.
pub proof fn lemma_tokenize_after_terminator(rest: Seq<Seq<char>>)
    ensures
        spec_tokenize(seq![seq!['-', '-']] + rest) == rest.map_values(
            |s: Seq<char>| ArgView::Positional(s),
        ),
{
    let args = seq![seq!['-', '-']] + rest;
    assert(spec_is_terminator(args[0]));
    assert(args.drop_first() =~= rest);
    lemma_tokenize_terminated(rest);
}

proof fn lemma_cons<A>(x: A, rest: Seq<A>)
    ensures
        (seq![x] + rest).len() == rest.len() + 1,
        (seq![x] + rest)[0] == x,
        (seq![x] + rest).drop_first() == rest,
{
    assert((seq![x] + rest).drop_first() =~= rest);
}

fn is_terminator(s: &String) -> (r: bool)
    ensures
        r == spec_is_terminator(s@),
{
    let st = s.as_str();
    let n = st.unicode_len();
    n == 2 && st.get_char(0) == '-' && st.get_char(1) == '-'
}

fn classify(s: String) -> (t: DumbArgument)
    ensures
        t@ == spec_classify(s@),
{
    let st = s.as_str();
    let n = st.unicode_len();
    if n > 2 && st.get_char(0) == '-' && st.get_char(1) == '-' {
        let rest = st.substring_char(2, n);
        proof {
            assert(rest@ =~= s@.skip(2));
        }
        DumbArgument::LongFlag(rest.to_owned())
    } else if n >= 2 && st.get_char(0) == '-' && !(n == 2 && st.get_char(1) == '-') {
        let rest = st.substring_char(1, n);
        proof {
            assert(rest@ =~= s@.skip(1));
        }
        DumbArgument::ShortFlags(rest.to_owned())
    } else {
        DumbArgument::Positional(s)
    }
}

/// The tokenizer: a single-pass iterator that classifies raw argument
/// strings, honoring the `--` terminator.
pub struct DumbIterator {
    args: Vec<String>,
    index: usize,
    hit_double_dash: bool,
}

impl DumbIterator {
    /// The cursor never runs past the argument list.
    pub closed spec fn wf(&self) -> bool {
        self.index <= self.args.len()
    }

    /// The tokens this iterator has yet to produce.
    pub closed spec fn remaining(&self) -> Seq<ArgView> {
        spec_tokenize_from(self.args.deep_view().skip(self.index as int), self.hit_double_dash)
    }

    /// Construct from the list of raw arguments.
    pub fn from_args(args: Vec<String>) -> (it: DumbIterator)
        ensures
            it.wf(),
            it.remaining() == spec_tokenize(args.deep_view()),
    {
        let it = DumbIterator { args, index: 0, hit_double_dash: false };
        proof {
            assert(it.args.deep_view().skip(0) =~= it.args.deep_view());
        }
        it
    }

    /// Produce the next token: the head of `remaining()`, or `None` once
    /// `remaining()` is exhausted.
    pub fn next(&mut self) -> (r: Option<DumbArgument>)
        requires
            old(self).wf(),
        ensures
            final(self).wf(),
            match r {
                Option::None => old(self).remaining().len() == 0 && final(self).remaining().len()
                    == 0,
                Option::Some(t) => old(self).remaining().len() > 0 && t@ == old(
                    self,
                ).remaining()[0] && final(self).remaining() == old(self).remaining().drop_first(),
            },
    {
        let ghost pre = self.args.deep_view().skip(self.index as int);
        if self.index == self.args.len() {
            proof {
                assert(pre =~= Seq::<Seq<char>>::empty());
            }
            return None;
        }
        let arg = self.args[self.index].clone();
        self.index = self.index + 1;
        let ghost post = self.args.deep_view().skip(self.index as int);
        proof {
            assert(pre.drop_first() =~= post);
            assert(pre[0] == arg@);
        }
        if self.hit_double_dash {
            proof {
                lemma_cons(ArgView::Positional(pre[0]), spec_tokenize_from(pre.drop_first(), true));
            }
            return Some(DumbArgument::Positional(arg));
        }
        if is_terminator(&arg) {
            self.hit_double_dash = true;
            let ghost pre2 = post;
            if self.index == self.args.len() {
                proof {
                    reveal_with_fuel(spec_tokenize_from, 2);
                    assert(pre2 =~= Seq::<Seq<char>>::empty());
                }
                return None;
            }
            let arg2 = self.args[self.index].clone();
            self.index = self.index + 1;
            proof {
                reveal_with_fuel(spec_tokenize_from, 2);
                assert(pre2.drop_first() =~= self.args.deep_view().skip(self.index as int));
                assert(pre2[0] == arg2@);
                lemma_cons(
                    ArgView::Positional(pre2[0]),
                    spec_tokenize_from(pre2.drop_first(), true),
                );
            }
            return Some(DumbArgument::Positional(arg2));
        }
        proof {
            lemma_cons(spec_classify(pre[0]), spec_tokenize_from(pre.drop_first(), false));
        }
        Some(classify(arg))
    }
}

/// Classify a whole argument list at once.
pub fn tokenize(args: Vec<String>) -> (tokens: Vec<DumbArgument>)
    ensures
        tokens.deep_view() == spec_tokenize(args.deep_view()),
{
    let ghost orig = args.deep_view();
    let mut it = DumbIterator::from_args(args);
    let mut tokens: Vec<DumbArgument> = Vec::new();
    loop
        invariant
            it.wf(),
            tokens.deep_view() + it.remaining() == spec_tokenize(orig),
        ensures
            it.remaining().len() == 0,
            tokens.deep_view() + it.remaining() == spec_tokenize(orig),
        decreases it.remaining().len(),
    {
        let ghost oldrem = it.remaining();
        let ghost olddv = tokens.deep_view();
        match it.next() {
            None => {
                proof {
                    assert(oldrem =~= it.remaining());
                }
                break ;
            },
            Some(t) => {
                tokens.push(t);
                proof {
                    assert(tokens.deep_view() =~= olddv.push(t@));
                    assert(olddv.push(t@) + it.remaining() =~= olddv + oldrem);
                }
            },
        }
    }
    proof {
        assert(tokens.deep_view() =~= spec_tokenize(orig));
    }
    tokens
}

} // verus!
