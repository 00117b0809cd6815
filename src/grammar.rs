use crate::combinators::{
    agrees, Binder, left, lemma_push_deep_view, mapper, one_or_more, pair, pred, right, spec_many, zero_or_more, Left, Mapper, Mapping, Pair,
    ParseResult, Parser, OneOrMore, Pred, Predicate, Right, SpecResult, ZeroOrMore,
};
use crate::element::{same_text, Element, ElementModel};
use crate::primitives::{
    lemma_run_len_bound, run_len, space0, space_test, token_test, Space0,
    literal_match, quoted_string, space1, spec_non_literal, spec_quoted_string, spec_space1,
    LiteralMatch, NonLiteral, QuotedString, Space1,
};
use vstd::prelude::*;
use vstd::string::StrSliceExecFns;

verus! {

pub type AttributePair = Pair<NonLiteral, Right<LiteralMatch, QuotedString, ()>>;

pub type AttributeItem = Right<Space1, AttributePair, Vec<char>>;

pub type Attributes = ZeroOrMore<AttributeItem, (String, String)>;

pub type ElementStart = Right<LiteralMatch, Pair<NonLiteral, Attributes>, ()>;

pub type TagElement = Mapper<
    Left<ElementStart, LiteralMatch, ()>,
    MakeElement,
    (String, Vec<(String, String)>),
>;

pub type CloseElement = Pred<Right<LiteralMatch, Left<NonLiteral, LiteralMatch, ()>, ()>, NameIs>;

/// `key="value"`.
pub open spec fn spec_attribute_pair(s: Seq<char>) -> SpecResult<(Seq<char>, Seq<char>)> {
    match spec_non_literal(s) {
        Ok((m, key)) => if seq!['='].is_prefix_of(m) {
            match spec_quoted_string(m.skip(1)) {
                Ok((rest, value)) => Ok((rest, (key, value))),
                Err(e) => Err(e),
            }
        } else {
            Err(m)
        },
        Err(e) => Err(e),
    }
}

/// Whitespace, then an attribute pair.
pub open spec fn spec_attribute_item(s: Seq<char>) -> SpecResult<(Seq<char>, Seq<char>)> {
    match spec_space1(s) {
        Ok((m, _)) => spec_attribute_pair(m),
        Err(e) => Err(e),
    }
}

/// As many attribute items as follow.
pub open spec fn spec_attributes(s: Seq<char>) -> (Seq<char>, Seq<(Seq<char>, Seq<char>)>)
    decreases s.len(),
{
    match spec_attribute_item(s) {
        Ok((rest, kv)) => if rest.len() < s.len() {
            let (last, kvs) = spec_attributes(rest);
            (last, seq![kv] + kvs)
        } else {
            (s, seq![])
        },
        Err(_) => (s, seq![]),
    }
}

/// `<`, a name and the attributes.
pub open spec fn spec_element_start(s: Seq<char>) -> SpecResult<
    (Seq<char>, Seq<(Seq<char>, Seq<char>)>),
> {
    if seq!['<'].is_prefix_of(s) {
        match spec_non_literal(s.skip(1)) {
            Ok((m, name)) => {
                let (rest, attrs) = spec_attributes(m);
                Ok((rest, (name, attrs)))
            },
            Err(e) => Err(e),
        }
    } else {
        Err(s)
    }
}

/// An element start closed by `closing`: an element without children.
pub open spec fn spec_tag(s: Seq<char>, closing: Seq<char>) -> SpecResult<ElementModel> {
    match spec_element_start(s) {
        Ok((m, (name, attr))) => if closing.is_prefix_of(m) {
            Ok((m.skip(closing.len() as int), ElementModel { name, attr, children: seq![] }))
        } else {
            Err(m)
        },
        Err(e) => Err(e),
    }
}

/// `<name attrs/>`.
pub open spec fn spec_single(s: Seq<char>) -> SpecResult<ElementModel> {
    spec_tag(s, seq!['/', '>'])
}

/// `<name attrs>`.
pub open spec fn spec_open(s: Seq<char>) -> SpecResult<ElementModel> {
    spec_tag(s, seq!['>'])
}

/// `</name>` with exactly the name given; fails on its own input otherwise.
pub open spec fn spec_close(name: Seq<char>, s: Seq<char>) -> SpecResult<Seq<char>> {
    if seq!['<', '/'].is_prefix_of(s) {
        match spec_non_literal(s.skip(2)) {
            Ok((m, found)) => if seq!['>'].is_prefix_of(m) && found == name {
                Ok((m.skip(1), found))
            } else {
                Err(s)
            },
            Err(_) => Err(s),
        }
    } else {
        Err(s)
    }
}

/// Builds an element without children from a name and attributes.
pub struct MakeElement;

impl Mapping<(String, Vec<(String, String)>), Element> for MakeElement {
    open spec fn spec_apply(&self, a: (Seq<char>, Seq<(Seq<char>, Seq<char>)>)) -> ElementModel {
        ElementModel { name: a.0, attr: a.1, children: seq![] }
    }

    fn apply(&self, a: (String, Vec<(String, String)>)) -> (b: Element) {
        let (name, attr) = a;
        let b = Element { name, attr, children: Vec::new() };
        assert(b.deep_view().children =~= Seq::<ElementModel>::empty());
        b
    }
}

/// Accepts exactly the given name.
pub struct NameIs {
    pub expected: String,
}

impl Predicate<String> for NameIs {
    open spec fn spec_test(&self, a: Seq<char>) -> bool {
        a == self.expected@
    }

    fn test(&self, a: &String) -> (r: bool) {
        same_text(a.as_str(), self.expected.as_str())
    }
}

/// Repeating the attribute item parser gives [`spec_attributes`].
proof fn lemma_attributes(p: AttributeItem, s: Seq<char>)
    requires
        forall|t: Seq<char>| #[trigger] p.spec_parse(t) == spec_attribute_item(t),
    ensures
        spec_many(p, s) == spec_attributes(s),
    decreases s.len(),
{
    if let Ok((rest, _)) = spec_attribute_item(s) {
        if rest.len() < s.len() {
            lemma_attributes(p, rest);
        }
    }
}

/// `key="value"`.
pub fn attribute_pair() -> (r: AttributePair)
    ensures
        r.wf(),
        forall|s: Seq<char>| #[trigger] r.spec_parse(s) == spec_attribute_pair(s),
{
    let r = pair(NonLiteral, right(literal_match("="), quoted_string()));
    proof {
        reveal_strlit("=");
        assert("="@ =~= seq!['=']);
    }
    r
}

/// Attributes, each after at least one whitespace character.
pub fn attributes() -> (r: Attributes)
    ensures
        r.wf(),
        forall|s: Seq<char>| #[trigger] r.spec_parse(s) == SpecResult::<
            Seq<(Seq<char>, Seq<char>)>,
        >::Ok(spec_attributes(s)),
{
    let r = zero_or_more(right(space1(), attribute_pair()));
    assert forall|s: Seq<char>| #[trigger] r.spec_parse(s) == SpecResult::<
        Seq<(Seq<char>, Seq<char>)>,
    >::Ok(spec_attributes(s)) by {
        lemma_attributes(r.parser, s);
    }
    r
}

/// `<`, a name and its attributes.
pub fn element_start() -> (r: ElementStart)
    ensures
        r.wf(),
        forall|s: Seq<char>| #[trigger] r.spec_parse(s) == spec_element_start(s),
{
    let r = right(literal_match("<"), pair(NonLiteral, attributes()));
    proof {
        reveal_strlit("<");
        assert("<"@ =~= seq!['<']);
    }
    r
}

/// `<name attrs/>`.
pub fn single_element() -> (r: TagElement)
    ensures
        r.wf(),
        forall|s: Seq<char>| #[trigger] r.spec_parse(s) == spec_single(s),
{
    let r = mapper(left(element_start(), literal_match("/>")), MakeElement);
    proof {
        reveal_strlit("/>");
        assert("/>"@ =~= seq!['/', '>']);
    }
    r
}

/// `<name attrs>`, as an element whose children are still to come.
pub fn open_element() -> (r: TagElement)
    ensures
        r.wf(),
        forall|s: Seq<char>| #[trigger] r.spec_parse(s) == spec_open(s),
{
    let r = mapper(left(element_start(), literal_match(">")), MakeElement);
    proof {
        reveal_strlit(">");
        assert(">"@ =~= seq!['>']);
    }
    r
}

/// `</name>` for exactly the name given.
pub fn close_element(expected_name: String) -> (r: CloseElement)
    ensures
        r.wf(),
        forall|s: Seq<char>| #[trigger] r.spec_parse(s) == spec_close(expected_name@, s),
{
    let r = pred(
        right(literal_match("</"), left(NonLiteral, literal_match(">"))),
        NameIs { expected: expected_name },
    );
    proof {
        reveal_strlit("</");
        reveal_strlit(">");
        assert("</"@ =~= seq!['<', '/']);
        assert(">"@ =~= seq!['>']);
    }
    r
}


/// Builds, from an opened element, the parser of its closing tag.
pub struct ClosingTagFor;

impl Binder<Element, String, CloseElement> for ClosingTagFor {
    open spec fn spec_next(&self, a: ElementModel, input: Seq<char>) -> SpecResult<Seq<char>> {
        spec_close(a.name, input)
    }

    fn bind(&self, a: Element) -> (q: CloseElement) {
        close_element(a.name)
    }
}

/// Whitespace, then `p`, then whitespace.
pub open spec fn spec_wrapped<A: DeepView, P: Parser<A>>(p: P, s: Seq<char>) -> SpecResult<A::V> {
    let s1 = s.skip(run_len(s, space_test()) as int);
    match p.spec_parse(s1) {
        Ok((s2, v)) => Ok((s2.skip(run_len(s2, space_test()) as int), v)),
        Err(e) => Err(e),
    }
}

pub type WhitespaceWrap<P> = Right<Space0, Left<P, Space0, Vec<char>>, Vec<char>>;

/// Lets whitespace stand before and after what `parser` matches.
pub fn whitespace_wrap<P, A: DeepView>(parser: P) -> (r: WhitespaceWrap<P>)
    where
        P: Parser<A>,
    ensures
        r.wf() == parser.wf(),
        r.p2.p1 == parser,
        forall|s: Seq<char>| #[trigger] r.spec_parse(s) == spec_wrapped(parser, s),
{
    right(space0(), left(parser, space0()))
}

#[via_fn]
proof fn spec_element_decreases(s: Seq<char>) {
    lemma_run_len_bound(s, space_test());
}

/// An element with whitespace around it: a self-closing one where that
/// matches, else a parent element.
pub open spec fn spec_element(s: Seq<char>) -> SpecResult<ElementModel>
    decreases s.len(), 1nat via spec_element_decreases
{
    let s1 = s.skip(run_len(s, space_test()) as int);
    let r = match spec_single(s1) {
        Ok(x) => Ok(x),
        Err(_) => spec_parent(s1),
    };
    match r {
        Ok((s2, el)) => Ok((s2.skip(run_len(s2, space_test()) as int), el)),
        Err(e) => Err(e),
    }
}

proof fn lemma_attributes_shrink(s: Seq<char>)
    ensures
        spec_attributes(s).0.len() <= s.len(),
    decreases s.len(),
{
    if let Ok((rest, _)) = spec_attribute_item(s) {
        if rest.len() < s.len() {
            lemma_attributes_shrink(rest);
        }
    }
}

/// A tag takes at least its `<`.
proof fn lemma_tag_shrinks(s: Seq<char>, closing: Seq<char>)
    requires
        closing.len() > 0,
    ensures
        spec_tag(s, closing) is Ok ==> spec_tag(s, closing)->Ok_0.0.len() < s.len(),
{
    if seq!['<'].is_prefix_of(s) {
        let t = s.skip(1);
        lemma_run_len_bound(t, token_test());
        if let Ok((m, _)) = spec_non_literal(t) {
            lemma_attributes_shrink(m);
        }
    }
}

#[via_fn]
proof fn spec_parent_decreases(s: Seq<char>) {
    lemma_tag_shrinks(s, seq!['>']);
}

/// `<name attrs>`, the child elements, and `</name>`.
pub open spec fn spec_parent(s: Seq<char>) -> SpecResult<ElementModel>
    decreases s.len(), 0nat via spec_parent_decreases
{
    match spec_open(s) {
        Ok((s1, el)) => {
            let (s2, kids) = spec_children(s1);
            match spec_close(el.name, s2) {
                Ok((s3, _)) => Ok((s3, ElementModel { children: kids, ..el })),
                Err(e) => Err(e),
            }
        },
        Err(e) => Err(e),
    }
}

/// As many elements as follow, and the input after them.
pub open spec fn spec_children(s: Seq<char>) -> (Seq<char>, Seq<ElementModel>)
    decreases s.len(), 2nat
{
    match spec_element(s) {
        Ok((rest, el)) => if rest.len() < s.len() {
            let (last, els) = spec_children(rest);
            (last, seq![el] + els)
        } else {
            (s, seq![])
        },
        Err(_) => (s, seq![]),
    }
}

/// A whole command line: one element or more.
pub open spec fn spec_cli_words(s: Seq<char>) -> SpecResult<Seq<ElementModel>> {
    match spec_element(s) {
        Ok((rest, el)) => {
            let (last, els) = spec_children(rest);
            Ok((last, seq![el] + els))
        },
        Err(e) => Err(e),
    }
}

/// An element with the whitespace around it.
pub fn element<'a>(input: &'a str) -> (r: ParseResult<'a, Element>)
    ensures
        agrees(r, spec_element(input@)),
    decreases input@.len(), 1nat
{
    let sp = space0();
    let s1 = match sp.parse(input) {
        Ok((rest, _)) => rest,
        Err(e) => return Err(e),
    };
    proof {
        lemma_run_len_bound(input@, space_test());
    }
    let r = match single_element().parse(s1) {
        Ok(x) => Ok(x),
        Err(_) => parent_element(s1),
    };
    match r {
        Ok((s2, el)) => {
            let s3 = match sp.parse(s2) {
                Ok((rest, _)) => rest,
                Err(e) => return Err(e),
            };
            Ok((s3, el))
        },
        Err(e) => Err(e),
    }
}

/// As many elements as follow: the input after them, and the elements.
pub fn children<'a>(input: &'a str) -> (r: (&'a str, Vec<Element>))
    ensures
        r.0@ == spec_children(input@).0,
        r.1.deep_view() == spec_children(input@).1,
    decreases input@.len(), 2nat
{
    let mut cur = input;
    let mut kids: Vec<Element> = Vec::new();
    assert(kids.deep_view() =~= Seq::<ElementModel>::empty());
    loop
        invariant
            cur@.len() <= input@.len(),
            spec_children(input@).0 == spec_children(cur@).0,
            spec_children(input@).1 == kids.deep_view() + spec_children(cur@).1,
        ensures
            spec_children(cur@).0 == cur@,
            spec_children(cur@).1 =~= Seq::<ElementModel>::empty(),
        decreases cur@.len(),
    {
        match element(cur) {
            Ok((rest, child)) => {
                if rest.unicode_len() < cur.unicode_len() {
                    let ghost before = kids;
                    let ghost dv = child.deep_view();
                    proof {
                        let tail = spec_children(rest@).1;
                        assert(spec_children(cur@).1 == seq![dv] + tail);
                        assert(before.deep_view() + (seq![dv] + tail) =~= before.deep_view().push(dv)
                            + tail);
                    }
                    kids.push(child);
                    proof {
                        lemma_push_deep_view(before, kids, child);
                    }
                    cur = rest;
                } else {
                    break;
                }
            },
            Err(_) => {
                break;
            },
        }
    }
    assert(kids.deep_view() + Seq::<ElementModel>::empty() =~= kids.deep_view());
    (cur, kids)
}

/// An element with children: its opening tag, the elements inside, and a
/// closing tag with the same name.
pub fn parent_element<'a>(input: &'a str) -> (r: ParseResult<'a, Element>)
    ensures
        agrees(r, spec_parent(input@)),
    decreases input@.len(), 0nat
{
    match open_element().parse(input) {
        Ok((s1, el)) => {
            proof {
                lemma_tag_shrinks(input@, seq!['>']);
            }
            let (s2, kids) = children(s1);
            match close_element(el.name.clone()).parse(s2) {
                Ok((s3, _)) => {
                    let mut el = el;
                    el.children = kids;
                    assert(el.deep_view().children =~= kids.deep_view());
                    Ok((s3, el))
                },
                Err(e) => Err(e),
            }
        },
        Err(e) => Err(e),
    }
}

/// [`element`] as a parser value.
pub struct ElementParser;

impl Parser<Element> for ElementParser {
    open spec fn wf(&self) -> bool {
        true
    }

    open spec fn spec_parse(&self, input: Seq<char>) -> SpecResult<ElementModel> {
        spec_element(input)
    }

    fn parse<'a>(&self, input: &'a str) -> (r: ParseResult<'a, Element>) {
        element(input)
    }
}

/// After the whitespace at the start of a text, none is left to take.
proof fn lemma_space_after_space(s: Seq<char>)
    ensures
        run_len(s.skip(run_len(s, space_test()) as int), space_test()) == 0,
{
    let k = run_len(s, space_test());
    lemma_run_len_bound(s, space_test());
    if k < s.len() {
        assert(s.skip(k as int)[0] == s[k as int]);
    }
}

/// An element takes the whitespace around it, so wrapping it in more
/// whitespace changes nothing.
proof fn lemma_wrapped_element(s: Seq<char>)
    ensures
        spec_wrapped(ElementParser, s) == spec_element(s),
{
    let s1 = s.skip(run_len(s, space_test()) as int);
    lemma_space_after_space(s);
    assert(s1.skip(0) =~= s1);
    let inner = match spec_single(s1) {
        Ok(x) => SpecResult::<ElementModel>::Ok(x),
        Err(_) => spec_parent(s1),
    };
    if let Ok((s2, _)) = inner {
        lemma_space_after_space(s2);
        let s3 = s2.skip(run_len(s2, space_test()) as int);
        assert(s3.skip(0) =~= s3);
    }
}

/// Repeating the wrapped element parser gives [`spec_children`].
proof fn lemma_many_elements(p: WhitespaceWrap<ElementParser>, s: Seq<char>)
    requires
        forall|t: Seq<char>| #[trigger] p.spec_parse(t) == spec_element(t),
    ensures
        spec_many(p, s) == spec_children(s),
    decreases s.len(),
{
    if let Ok((rest, _)) = spec_element(s) {
        if rest.len() < s.len() {
            lemma_many_elements(p, rest);
        }
    }
}

/// A command line: one element or more, each with whitespace around it.
pub fn cli_words() -> (r: OneOrMore<WhitespaceWrap<ElementParser>, Element>)
    ensures
        r.wf(),
        forall|s: Seq<char>| #[trigger] r.spec_parse(s) == spec_cli_words(s),
{
    let w = whitespace_wrap(ElementParser);
    assert forall|t: Seq<char>| #[trigger] w.spec_parse(t) == spec_element(t) by {
        lemma_wrapped_element(t);
    }
    let r = one_or_more(w);
    assert forall|s: Seq<char>| #[trigger] r.spec_parse(s) == spec_cli_words(s) by {
        if let Ok((rest, _)) = spec_element(s) {
            lemma_many_elements(w, rest);
        }
    }
    r
}

} // verus!
