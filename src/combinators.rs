use vstd::prelude::*;
use vstd::string::StrSliceExecFns;

verus! {

/// What a parser hands back: the input left over and a value, or the input
/// at which matching failed.
pub type ParseResult<'a, Output> = Result<(&'a str, Output), &'a str>;

/// The mathematical counterpart of a [`ParseResult`].
pub type SpecResult<V> = Result<(Seq<char>, V), Seq<char>>;

/// `r` is what `m` describes: the same leftover input and value on success,
/// the same failure point on failure.
pub open spec fn agrees<'a, O: DeepView>(r: ParseResult<'a, O>, m: SpecResult<O::V>) -> bool {
    match r {
        Ok((rest, v)) => m == SpecResult::<O::V>::Ok((rest@, v.deep_view())),
        Err(e) => m == SpecResult::<O::V>::Err(e@),
    }
}

/// A parser over the characters of a text.
pub trait Parser<Output: DeepView> {
    /// The parser is ready to run.
    spec fn wf(&self) -> bool;

    /// What running the parser on `input` gives.
    spec fn spec_parse(&self, input: Seq<char>) -> SpecResult<Output::V>;

    fn parse<'a>(&self, input: &'a str) -> (r: ParseResult<'a, Output>)
        requires
            self.wf(),
        ensures
            agrees(r, self.spec_parse(input@)),
    ;

    /// This parser with its values transformed, boxed.
    fn mapper<F>(self, map_fn: F) -> (r: BoxedParser<Mapper<Self, F, Output>>)
        where
            Self: Sized,
        ensures
            r.parser.parser == self,
            r.parser.f == map_fn,
    {
        BoxedParser::new(mapper(self, map_fn))
    }

    /// This parser with its successes filtered, boxed.
    fn pred<F>(self, pred_fn: F) -> (r: BoxedParser<Pred<Self, F>>)
        where
            Self: Sized,
        ensures
            r.parser.parser == self,
            r.parser.predicate == pred_fn,
    {
        BoxedParser::new(pred(self, pred_fn))
    }

    /// This parser followed by the parser built from its value, boxed.
    fn and_then<F, Q>(self, f: F) -> (r: BoxedParser<AndThen<Self, F, Output, Q>>)
        where
            Self: Sized,
        ensures
            r.parser.parser == self,
            r.parser.f == f,
    {
        BoxedParser::new(and_then(self, f))
    }
}

/// A pure function from parsed values to new values.
pub trait Mapping<A: DeepView, B: DeepView> {
    spec fn spec_apply(&self, a: A::V) -> B::V;

    fn apply(&self, a: A) -> (b: B)
        ensures
            b.deep_view() == self.spec_apply(a.deep_view()),
    ;
}

/// A test on parsed values.
pub trait Predicate<A: DeepView> {
    spec fn spec_test(&self, a: A::V) -> bool;

    fn test(&self, a: &A) -> (r: bool)
        ensures
            r == self.spec_test(a.deep_view()),
    ;
}

/// Runs `p1`, then `p2` on what `p1` left.
pub struct Pair<P1, P2> {
    pub p1: P1,
    pub p2: P2,
}

pub fn pair<P1, P2>(parser1: P1, parser2: P2) -> (r: Pair<P1, P2>)
    ensures
        r.p1 == parser1,
        r.p2 == parser2,
{
    Pair { p1: parser1, p2: parser2 }
}

impl<R1: DeepView, R2: DeepView, P1: Parser<R1>, P2: Parser<R2>> Parser<(R1, R2)> for Pair<P1, P2> {
    open spec fn wf(&self) -> bool {
        self.p1.wf() && self.p2.wf()
    }

    open spec fn spec_parse(&self, input: Seq<char>) -> SpecResult<(R1::V, R2::V)> {
        match self.p1.spec_parse(input) {
            Ok((mid, a)) => match self.p2.spec_parse(mid) {
                Ok((rest, b)) => Ok((rest, (a, b))),
                Err(e) => Err(e),
            },
            Err(e) => Err(e),
        }
    }

    fn parse<'a>(&self, input: &'a str) -> (r: ParseResult<'a, (R1, R2)>) {
        match self.p1.parse(input) {
            Ok((mid, a)) => match self.p2.parse(mid) {
                Ok((rest, b)) => Ok((rest, (a, b))),
                Err(e) => Err(e),
            },
            Err(e) => Err(e),
        }
    }
}


/// Runs `p1` then `p2` and keeps the value of `p1`.
pub struct Left<P1, P2, R2> {
    pub p1: P1,
    pub p2: P2,
    pub marker: core::marker::PhantomData<R2>,
}

pub fn left<P1, P2, R2>(parser1: P1, parser2: P2) -> (r: Left<P1, P2, R2>)
    ensures
        r.p1 == parser1,
        r.p2 == parser2,
{
    Left { p1: parser1, p2: parser2, marker: core::marker::PhantomData }
}

impl<R1: DeepView, R2: DeepView, P1: Parser<R1>, P2: Parser<R2>> Parser<R1> for Left<P1, P2, R2> {
    open spec fn wf(&self) -> bool {
        self.p1.wf() && self.p2.wf()
    }

    open spec fn spec_parse(&self, input: Seq<char>) -> SpecResult<R1::V> {
        match self.p1.spec_parse(input) {
            Ok((mid, a)) => match self.p2.spec_parse(mid) {
                Ok((rest, _b)) => Ok((rest, a)),
                Err(e) => Err(e),
            },
            Err(e) => Err(e),
        }
    }

    fn parse<'a>(&self, input: &'a str) -> (r: ParseResult<'a, R1>) {
        match self.p1.parse(input) {
            Ok((mid, a)) => match self.p2.parse(mid) {
                Ok((rest, _b)) => Ok((rest, a)),
                Err(e) => Err(e),
            },
            Err(e) => Err(e),
        }
    }
}

/// Runs `p1` then `p2` and keeps the value of `p2`.
pub struct Right<P1, P2, R1> {
    pub p1: P1,
    pub p2: P2,
    pub marker: core::marker::PhantomData<R1>,
}

pub fn right<P1, P2, R1>(parser1: P1, parser2: P2) -> (r: Right<P1, P2, R1>)
    ensures
        r.p1 == parser1,
        r.p2 == parser2,
{
    Right { p1: parser1, p2: parser2, marker: core::marker::PhantomData }
}

impl<R1: DeepView, R2: DeepView, P1: Parser<R1>, P2: Parser<R2>> Parser<R2> for Right<P1, P2, R1> {
    open spec fn wf(&self) -> bool {
        self.p1.wf() && self.p2.wf()
    }

    open spec fn spec_parse(&self, input: Seq<char>) -> SpecResult<R2::V> {
        match self.p1.spec_parse(input) {
            Ok((mid, _a)) => self.p2.spec_parse(mid),
            Err(e) => Err(e),
        }
    }

    fn parse<'a>(&self, input: &'a str) -> (r: ParseResult<'a, R2>) {
        match self.p1.parse(input) {
            Ok((mid, _a)) => self.p2.parse(mid),
            Err(e) => Err(e),
        }
    }
}

/// Runs a parser and transforms its value; leftover input and failures pass
/// through unchanged.
pub struct Mapper<P, F, A> {
    pub parser: P,
    pub f: F,
    pub marker: core::marker::PhantomData<A>,
}

pub fn mapper<P, F, A>(parser: P, f: F) -> (r: Mapper<P, F, A>)
    ensures
        r.parser == parser,
        r.f == f,
{
    Mapper { parser, f, marker: core::marker::PhantomData }
}

impl<A: DeepView, B: DeepView, P: Parser<A>, F: Mapping<A, B>> Parser<B> for Mapper<P, F, A> {
    open spec fn wf(&self) -> bool {
        self.parser.wf()
    }

    open spec fn spec_parse(&self, input: Seq<char>) -> SpecResult<B::V> {
        match self.parser.spec_parse(input) {
            Ok((rest, a)) => Ok((rest, self.f.spec_apply(a))),
            Err(e) => Err(e),
        }
    }

    fn parse<'a>(&self, input: &'a str) -> (r: ParseResult<'a, B>) {
        match self.parser.parse(input) {
            Ok((rest, a)) => Ok((rest, self.f.apply(a))),
            Err(e) => Err(e),
        }
    }
}

/// Keeps a parser's success only where the predicate accepts its value;
/// otherwise fails on the input it was given.
pub struct Pred<P, F> {
    pub parser: P,
    pub predicate: F,
}

pub fn pred<P, F>(parser: P, predicate: F) -> (r: Pred<P, F>)
    ensures
        r.parser == parser,
        r.predicate == predicate,
{
    Pred { parser, predicate }
}

impl<A: DeepView, P: Parser<A>, F: Predicate<A>> Parser<A> for Pred<P, F> {
    open spec fn wf(&self) -> bool {
        self.parser.wf()
    }

    open spec fn spec_parse(&self, input: Seq<char>) -> SpecResult<A::V> {
        match self.parser.spec_parse(input) {
            Ok((rest, a)) => if self.predicate.spec_test(a) {
                Ok((rest, a))
            } else {
                Err(input)
            },
            Err(_) => Err(input),
        }
    }

    fn parse<'a>(&self, input: &'a str) -> (r: ParseResult<'a, A>) {
        match self.parser.parse(input) {
            Ok((rest, a)) => {
                if self.predicate.test(&a) {
                    Ok((rest, a))
                } else {
                    Err(input)
                }
            },
            Err(_) => Err(input),
        }
    }
}

/// Tries `p1`; where it fails, tries `p2` on the same input.
pub struct Either<P1, P2> {
    pub p1: P1,
    pub p2: P2,
}

pub fn either<P1, P2>(parser1: P1, parser2: P2) -> (r: Either<P1, P2>)
    ensures
        r.p1 == parser1,
        r.p2 == parser2,
{
    Either { p1: parser1, p2: parser2 }
}

impl<A: DeepView, P1: Parser<A>, P2: Parser<A>> Parser<A> for Either<P1, P2> {
    open spec fn wf(&self) -> bool {
        self.p1.wf() && self.p2.wf()
    }

    open spec fn spec_parse(&self, input: Seq<char>) -> SpecResult<A::V> {
        match self.p1.spec_parse(input) {
            Ok(x) => Ok(x),
            Err(_) => self.p2.spec_parse(input),
        }
    }

    fn parse<'a>(&self, input: &'a str) -> (r: ParseResult<'a, A>) {
        match self.p1.parse(input) {
            Ok(x) => Ok(x),
            Err(_) => self.p2.parse(input),
        }
    }
}


/// Runs `p` as long as it succeeds and makes progress: the input left over
/// and the values in order. A success that consumes nothing ends the
/// repetition, since running the parser again would give it again forever.
pub open spec fn spec_many<A: DeepView, P: Parser<A>>(p: P, input: Seq<char>) -> (Seq<char>, Seq<A::V>)
    decreases input.len(),
{
    match p.spec_parse(input) {
        Ok((rest, v)) => if rest.len() < input.len() {
            let (last, vs) = spec_many(p, rest);
            (last, seq![v] + vs)
        } else {
            (input, seq![])
        },
        Err(_) => (input, seq![]),
    }
}

pub proof fn lemma_push_deep_view<A: DeepView>(old_v: Vec<A>, new_v: Vec<A>, a: A)
    requires
        new_v@ == old_v@.push(a),
    ensures
        new_v.deep_view() == old_v.deep_view().push(a.deep_view()),
{
    assert(new_v.deep_view() =~= old_v.deep_view().push(a.deep_view()));
}

/// Appends to `out` the values of repeated runs of `p` from `input`.
fn run_many<'a, A: DeepView, P: Parser<A>>(p: &P, input: &'a str, out: Vec<A>) -> (r: (&'a str, Vec<A>))
    requires
        p.wf(),
    ensures
        r.0@ == spec_many(*p, input@).0,
        r.1.deep_view() == out.deep_view() + spec_many(*p, input@).1,
{
    let mut cur = input;
    let mut acc = out;
    loop
        invariant
            p.wf(),
            spec_many(*p, input@).0 == spec_many(*p, cur@).0,
            out.deep_view() + spec_many(*p, input@).1 == acc.deep_view() + spec_many(*p, cur@).1,
        ensures
            spec_many(*p, cur@).0 == cur@,
            spec_many(*p, cur@).1 =~= seq![],
        decreases cur@.len(),
    {
        match p.parse(cur) {
            Ok((rest, v)) => {
                if rest.unicode_len() < cur.unicode_len() {
                    let ghost before = acc;
                    let ghost dv = v.deep_view();
                    proof {
                        let tail = spec_many(*p, rest@).1;
                        assert(spec_many(*p, cur@).1 == seq![dv] + tail);
                        assert(before.deep_view() + (seq![dv] + tail) =~= before.deep_view().push(dv) + tail);
                    }
                    acc.push(v);
                    proof {
                        lemma_push_deep_view(before, acc, v);
                    }
                    cur = rest;
                } else {
                    break;
                }
            },
            Err(_) => {
                break;
            },
        }
    }
    assert(acc.deep_view() + seq![] =~= acc.deep_view());
    (cur, acc)
}

/// Repeats a parser as long as it succeeds; never fails.
pub struct ZeroOrMore<P, A> {
    pub parser: P,
    pub marker: core::marker::PhantomData<A>,
}

pub fn zero_or_more<P, A>(parser: P) -> (r: ZeroOrMore<P, A>)
    ensures
        r.parser == parser,
{
    ZeroOrMore { parser, marker: core::marker::PhantomData }
}

impl<A: DeepView, P: Parser<A>> Parser<Vec<A>> for ZeroOrMore<P, A> {
    open spec fn wf(&self) -> bool {
        self.parser.wf()
    }

    open spec fn spec_parse(&self, input: Seq<char>) -> SpecResult<Seq<A::V>> {
        Ok(spec_many(self.parser, input))
    }

    fn parse<'a>(&self, input: &'a str) -> (r: ParseResult<'a, Vec<A>>) {
        let out: Vec<A> = Vec::new();
        assert(out.deep_view() =~= seq![]);
        let (rest, vs) = run_many(&self.parser, input, out);
        assert(vs.deep_view() =~= spec_many(self.parser, input@).1);
        Ok((rest, vs))
    }
}

/// Repeats a parser as long as it succeeds; fails where its first run fails.
pub struct OneOrMore<P, A> {
    pub parser: P,
    pub marker: core::marker::PhantomData<A>,
}

pub fn one_or_more<P, A>(parser: P) -> (r: OneOrMore<P, A>)
    ensures
        r.parser == parser,
{
    OneOrMore { parser, marker: core::marker::PhantomData }
}

impl<A: DeepView, P: Parser<A>> Parser<Vec<A>> for OneOrMore<P, A> {
    open spec fn wf(&self) -> bool {
        self.parser.wf()
    }

    open spec fn spec_parse(&self, input: Seq<char>) -> SpecResult<Seq<A::V>> {
        match self.parser.spec_parse(input) {
            Ok((rest, v)) => {
                let (last, vs) = spec_many(self.parser, rest);
                Ok((last, seq![v] + vs))
            },
            Err(e) => Err(e),
        }
    }

    fn parse<'a>(&self, input: &'a str) -> (r: ParseResult<'a, Vec<A>>) {
        match self.parser.parse(input) {
            Ok((rest, first)) => {
                let mut out: Vec<A> = Vec::new();
                out.push(first);
                assert(out.deep_view() =~= seq![first.deep_view()]);
                let (last, vs) = run_many(&self.parser, rest, out);
                Ok((last, vs))
            },
            Err(e) => Err(e),
        }
    }
}

/// Builds, from a parsed value, the parser to run next.
pub trait Binder<A: DeepView, B: DeepView, Q: Parser<B>> {
    /// What the parser built from `a` gives on `input`.
    spec fn spec_next(&self, a: A::V, input: Seq<char>) -> SpecResult<B::V>;

    fn bind(&self, a: A) -> (q: Q)
        ensures
            q.wf(),
            forall|s: Seq<char>| #[trigger] q.spec_parse(s) == self.spec_next(a.deep_view(), s),
    ;
}

/// Runs a parser, builds the next parser from its value, and runs that on
/// the input left.
pub struct AndThen<P, F, A, Q> {
    pub parser: P,
    pub f: F,
    pub marker: core::marker::PhantomData<(A, Q)>,
}

pub fn and_then<P, F, A, Q>(parser: P, f: F) -> (r: AndThen<P, F, A, Q>)
    ensures
        r.parser == parser,
        r.f == f,
{
    AndThen { parser, f, marker: core::marker::PhantomData }
}

impl<
    A: DeepView,
    B: DeepView,
    P: Parser<A>,
    Q: Parser<B>,
    F: Binder<A, B, Q>,
> Parser<B> for AndThen<P, F, A, Q> {
    open spec fn wf(&self) -> bool {
        self.parser.wf()
    }

    open spec fn spec_parse(&self, input: Seq<char>) -> SpecResult<B::V> {
        match self.parser.spec_parse(input) {
            Ok((rest, a)) => self.f.spec_next(a, rest),
            Err(e) => Err(e),
        }
    }

    fn parse<'a>(&self, input: &'a str) -> (r: ParseResult<'a, B>) {
        match self.parser.parse(input) {
            Ok((rest, a)) => {
                let next = self.f.bind(a);
                next.parse(rest)
            },
            Err(e) => Err(e),
        }
    }
}

/// Repeating a parser that fails at once: "zero or more" succeeds with no
/// values and takes nothing, "one or more" fails where the parser failed.
pub proof fn lemma_repeat_failing<A: DeepView, P: Parser<A>>(p: P, s: Seq<char>)
    requires
        p.spec_parse(s) is Err,
    ensures
        (ZeroOrMore { parser: p, marker: core::marker::PhantomData::<A> }).spec_parse(s)
            == SpecResult::<Seq<A::V>>::Ok((s, seq![])),
        (OneOrMore { parser: p, marker: core::marker::PhantomData::<A> }).spec_parse(s)
            == SpecResult::<Seq<A::V>>::Err(p.spec_parse(s)->Err_0),
{
}

/// A parser held behind a box.
pub struct BoxedParser<P> {
    pub parser: Box<P>,
}

impl<P> BoxedParser<P> {
    pub fn new(parser: P) -> (r: Self)
        ensures
            *r.parser == parser,
    {
        BoxedParser { parser: Box::new(parser) }
    }
}

impl<A: DeepView, P: Parser<A>> Parser<A> for BoxedParser<P> {
    open spec fn wf(&self) -> bool {
        self.parser.wf()
    }

    open spec fn spec_parse(&self, input: Seq<char>) -> SpecResult<A::V> {
        self.parser.spec_parse(input)
    }

    fn parse<'a>(&self, input: &'a str) -> (r: ParseResult<'a, A>) {
        self.parser.parse(input)
    }
}

} // verus!
