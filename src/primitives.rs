use crate::combinators::{
    mapper, one_or_more, pred, right, left, spec_many, zero_or_more, Left, Mapper, Mapping, OneOrMore,
    agrees, ParseResult, Parser, Pred, Predicate, Right, SpecResult, ZeroOrMore,
};
use vstd::prelude::*;
use vstd::string::StrSliceExecFns;

verus! {

/// The number of leading characters of `s` that satisfy `ok`.
pub open spec fn run_len(s: Seq<char>, ok: spec_fn(char) -> bool) -> nat
    decreases s.len(),
{
    if s.len() > 0 && ok(s[0]) {
        1 + run_len(s.skip(1), ok)
    } else {
        0
    }
}

pub proof fn lemma_run_len_bound(s: Seq<char>, ok: spec_fn(char) -> bool)
    ensures
        run_len(s, ok) <= s.len(),
        forall|j: int| 0 <= j < run_len(s, ok) ==> ok(#[trigger] s[j]),
        run_len(s, ok) < s.len() ==> !ok(s[run_len(s, ok) as int]),
    decreases s.len(),
{
    if s.len() > 0 && ok(s[0]) {
        lemma_run_len_bound(s.skip(1), ok);
        assert forall|j: int| 0 <= j < run_len(s, ok) implies ok(#[trigger] s[j]) by {
            if j > 0 {
                assert(s[j] == s.skip(1)[j - 1]);
            }
        }
        if run_len(s, ok) < s.len() {
            assert(s[run_len(s, ok) as int] == s.skip(1)[run_len(s.skip(1), ok) as int]);
        }
    }
}

/// Unicode's White_Space property.
pub open spec fn white_space(c: char) -> bool {
    let n = c as u32;
    (0x09 <= n <= 0x0d) || n == 0x20 || n == 0x85 || n == 0xa0 || n == 0x1680 || (0x2000 <= n
        <= 0x200a) || n == 0x2028 || n == 0x2029 || n == 0x202f || n == 0x205f || n == 0x3000
}

/// Whether `char::is_alphanumeric` holds of `c`.
pub uninterp spec fn alphanumeric_of(c: char) -> bool;

/// Relies on `char::is_whitespace`: true exactly of the characters with the
/// White_Space property.
#[verifier::external_body]
fn is_whitespace(c: char) -> (r: bool)
    ensures
        r == white_space(c),
{
    c.is_whitespace()
}

/// Letters and digits: among ASCII characters the letters and the digits,
/// elsewhere what `char::is_alphanumeric` says.
pub open spec fn alphanumeric(c: char) -> bool {
    let n = c as u32;
    if n < 128 {
        (0x61 <= n <= 0x7a) || (0x41 <= n <= 0x5a) || (0x30 <= n <= 0x39)
    } else {
        alphanumeric_of(c)
    }
}

/// Relies on `char::is_alphanumeric` (alphabetic or numeric); among ASCII
/// characters that is the letters and the digits.
#[verifier::external_body]
fn is_alphanumeric(c: char) -> (r: bool)
    ensures
        r == alphanumeric(c),
        128 <= (c as u32) ==> r == alphanumeric_of(c),
{
    c.is_alphanumeric()
}

/// Relies on collecting characters into a `String`: the same characters in order.
#[verifier::external_body]
fn chars_to_string(chars: Vec<char>) -> (r: String)
    ensures
        r@ == chars@,
{
    chars.into_iter().collect()
}

/// Whether `s` starts with `prefix`.
fn starts_with(s: &str, prefix: &str) -> (r: bool)
    ensures
        r == prefix@.is_prefix_of(s@),
{
    let n = prefix.unicode_len();
    let m = s.unicode_len();
    if n > m {
        return false;
    }
    let mut i: usize = 0;
    while i < n
        invariant
            n == prefix@.len(),
            m == s@.len(),
            n <= m,
            i <= n,
            forall|j: int| 0 <= j < i ==> prefix@[j] == s@[j],
        decreases n - i,
    {
        if prefix.get_char(i) != s.get_char(i) {
            assert(prefix@[i as int] != s@.subrange(0, n as int)[i as int]);
            return false;
        }
        i += 1;
    }
    assert(prefix@ =~= s@.subrange(0, n as int));
    true
}

/// Matches a fixed text at the start of the input.
pub struct LiteralMatch {
    pub expected: &'static str,
}

pub fn literal_match(expected: &'static str) -> (r: LiteralMatch)
    ensures
        r.expected == expected,
{
    LiteralMatch { expected }
}

pub open spec fn spec_literal(expected: Seq<char>, input: Seq<char>) -> SpecResult<()> {
    if expected.is_prefix_of(input) {
        Ok((input.skip(expected.len() as int), ()))
    } else {
        Err(input)
    }
}

impl Parser<()> for LiteralMatch {
    open spec fn wf(&self) -> bool {
        true
    }

    open spec fn spec_parse(&self, input: Seq<char>) -> SpecResult<()> {
        spec_literal(self.expected@, input)
    }

    fn parse<'a>(&self, input: &'a str) -> (r: ParseResult<'a, ()>) {
        if starts_with(input, self.expected) {
            let n = self.expected.unicode_len();
            let len = input.unicode_len();
            Ok((input.substring_char(n, len), ()))
        } else {
            Err(input)
        }
    }
}

pub open spec fn spec_any_char(input: Seq<char>) -> SpecResult<char> {
    if input.len() > 0 {
        Ok((input.skip(1), input[0]))
    } else {
        Err(input)
    }
}

/// Takes one character, whatever its encoded width.
pub fn any_char<'a>(input: &'a str) -> (r: ParseResult<'a, char>)
    ensures
        agrees(r, spec_any_char(input@)),
{
    let len = input.unicode_len();
    if len == 0 {
        Err(input)
    } else {
        let c = input.get_char(0);
        Ok((input.substring_char(1, len), c))
    }
}

/// [`any_char`] as a parser value.
pub struct AnyChar;

impl Parser<char> for AnyChar {
    open spec fn wf(&self) -> bool {
        true
    }

    open spec fn spec_parse(&self, input: Seq<char>) -> SpecResult<char> {
        spec_any_char(input)
    }

    fn parse<'a>(&self, input: &'a str) -> (r: ParseResult<'a, char>) {
        any_char(input)
    }
}

/// The characters a token is made of.
pub open spec fn is_token_char(c: char) -> bool {
    alphanumeric(c) || c == '-' || c == '&' || c == '.'
}

pub open spec fn spec_non_literal(input: Seq<char>) -> SpecResult<Seq<char>> {
    let k = run_len(input, token_test());
    if k == 0 {
        Err(input)
    } else {
        Ok((input.skip(k as int), input.take(k as int)))
    }
}

/// The test that a token character passes.
pub open spec fn token_test() -> spec_fn(char) -> bool {
    |c: char| is_token_char(c)
}

/// Takes the longest non-empty run of token characters.
pub fn non_literal<'a>(input: &'a str) -> (r: ParseResult<'a, String>)
    ensures
        agrees(r, spec_non_literal(input@)),
{
    let ghost ok = token_test();
    let len = input.unicode_len();
    let mut i: usize = 0;
    assert(input@.skip(0) =~= input@);
    while i < len
        invariant
            len == input@.len(),
            i <= len,
            ok == token_test(),
            run_len(input@, ok) == i + run_len(input@.skip(i as int), ok),
        ensures
            run_len(input@, ok) == i,
        decreases len - i,
    {
        let c = input.get_char(i);
        if is_alphanumeric(c) || c == '-' || c == '&' || c == '.' {
            assert(ok(c));
            assert(input@.skip(i as int)[0] == c);
            assert(input@.skip(i as int).skip(1) =~= input@.skip(i + 1));
            i += 1;
        } else {
            assert(!ok(c));
            assert(input@.skip(i as int)[0] == c);
            break;
        }
    }
    if i == 0 {
        return Err(input);
    }
    let matched = String::from_str(input.substring_char(0, i));
    Ok((input.substring_char(i, len), matched))
}

/// [`non_literal`] as a parser value.
pub struct NonLiteral;

impl Parser<String> for NonLiteral {
    open spec fn wf(&self) -> bool {
        true
    }

    open spec fn spec_parse(&self, input: Seq<char>) -> SpecResult<Seq<char>> {
        spec_non_literal(input)
    }

    fn parse<'a>(&self, input: &'a str) -> (r: ParseResult<'a, String>) {
        non_literal(input)
    }
}


/// Accepts whitespace characters.
pub struct IsWhitespace;

impl Predicate<char> for IsWhitespace {
    open spec fn spec_test(&self, c: char) -> bool {
        white_space(c)
    }

    fn test(&self, c: &char) -> (r: bool) {
        is_whitespace(*c)
    }
}

/// Accepts every character but the quote.
pub struct NotQuote;

impl Predicate<char> for NotQuote {
    open spec fn spec_test(&self, c: char) -> bool {
        c != '"'
    }

    fn test(&self, c: &char) -> (r: bool) {
        *c != '"'
    }
}

/// Turns collected characters into a `String`.
pub struct CollectChars;

impl Mapping<Vec<char>, String> for CollectChars {
    open spec fn spec_apply(&self, a: Seq<char>) -> Seq<char> {
        a
    }

    fn apply(&self, a: Vec<char>) -> (b: String) {
        assert(a.deep_view() =~= a@);
        chars_to_string(a)
    }
}

/// Repeating a single-character parser that accepts the characters `ok`
/// accepts takes exactly the leading run of such characters.
pub proof fn lemma_many_chars<F: Predicate<char>>(
    p: Pred<AnyChar, F>,
    ok: spec_fn(char) -> bool,
    s: Seq<char>,
)
    requires
        forall|c: char| #[trigger] p.predicate.spec_test(c) == ok(c),
    ensures
        spec_many(p, s) == (s.skip(run_len(s, ok) as int), s.take(run_len(s, ok) as int)),
    decreases s.len(),
{
    if s.len() > 0 && ok(s[0]) {
        let t = s.skip(1);
        lemma_many_chars(p, ok, t);
        let k = run_len(t, ok);
        lemma_run_len_bound(t, ok);
        assert(t.skip(k as int) =~= s.skip(1 + k as int));
        assert(seq![s[0]] + t.take(k as int) =~= s.take(1 + k as int));
    } else {
        assert(s.skip(0) =~= s);
        assert(s.take(0) =~= Seq::<char>::empty());
    }
}

/// The test that a whitespace character passes.
pub open spec fn space_test() -> spec_fn(char) -> bool {
    |c: char| white_space(c)
}

/// The test that a character inside quotes passes.
pub open spec fn quote_free_test() -> spec_fn(char) -> bool {
    |c: char| c != '"'
}

pub type WhitespaceChar = Pred<AnyChar, IsWhitespace>;

pub type Space0 = ZeroOrMore<WhitespaceChar, char>;

pub type Space1 = OneOrMore<WhitespaceChar, char>;

pub type QuotedString = Mapper<
    Right<LiteralMatch, Left<ZeroOrMore<Pred<AnyChar, NotQuote>, char>, LiteralMatch, ()>, ()>,
    CollectChars,
    Vec<char>,
>;

pub open spec fn spec_space0(input: Seq<char>) -> SpecResult<Seq<char>> {
    let k = run_len(input, space_test());
    Ok((input.skip(k as int), input.take(k as int)))
}

pub open spec fn spec_space1(input: Seq<char>) -> SpecResult<Seq<char>> {
    let k = run_len(input, space_test());
    if k == 0 {
        Err(input)
    } else {
        Ok((input.skip(k as int), input.take(k as int)))
    }
}

/// A quote, the characters up to the next quote, and that quote: the
/// characters between the quotes. Fails where the text ends before a
/// closing quote, at that end.
pub open spec fn spec_quoted_string(input: Seq<char>) -> SpecResult<Seq<char>> {
    if input.len() > 0 && input[0] == '"' {
        let body = input.skip(1);
        let k = run_len(body, quote_free_test());
        if k < body.len() {
            Ok((body.skip(k as int + 1), body.take(k as int)))
        } else {
            Err(body.skip(k as int))
        }
    } else {
        Err(input)
    }
}

/// One whitespace character.
pub fn whitespace_char() -> (r: WhitespaceChar)
    ensures
        r.wf(),
        forall|s: Seq<char>|
            #[trigger] r.spec_parse(s) == (if s.len() > 0 && white_space(s[0]) {
                SpecResult::<char>::Ok((s.skip(1), s[0]))
            } else {
                SpecResult::<char>::Err(s)
            }),
{
    pred(AnyChar, IsWhitespace)
}

/// Any amount of whitespace, none included.
pub fn space0() -> (r: Space0)
    ensures
        r.wf(),
        forall|s: Seq<char>| #[trigger] r.spec_parse(s) == spec_space0(s),
{
    let r = zero_or_more(whitespace_char());
    assert forall|s: Seq<char>| #[trigger] r.spec_parse(s) == spec_space0(s) by {
        lemma_many_chars(r.parser, space_test(), s);
    }
    r
}

/// At least one whitespace character.
pub fn space1() -> (r: Space1)
    ensures
        r.wf(),
        forall|s: Seq<char>| #[trigger] r.spec_parse(s) == spec_space1(s),
{
    let r = one_or_more(whitespace_char());
    assert forall|s: Seq<char>| #[trigger] r.spec_parse(s) == spec_space1(s) by {
        if s.len() > 0 && white_space(s[0]) {
            let t = s.skip(1);
            assert(r.parser.spec_parse(s) == SpecResult::<char>::Ok((t, s[0])));
            lemma_many_chars(r.parser, space_test(), t);
            let k = run_len(t, space_test());
            lemma_run_len_bound(t, space_test());
            assert(space_test()(s[0]));
            assert(t.skip(k as int) =~= s.skip(1 + k as int));
            assert(seq![s[0]] + t.take(k as int) =~= s.take(1 + k as int));
        }
    }
    r
}

/// A quoted attribute value, without escapes.
pub fn quoted_string() -> (r: QuotedString)
    ensures
        r.wf(),
        forall|s: Seq<char>| #[trigger] r.spec_parse(s) == spec_quoted_string(s),
{
    let r = mapper(
        right(literal_match("\""), left(zero_or_more(pred(AnyChar, NotQuote)), literal_match("\""))),
        CollectChars,
    );
    assert forall|s: Seq<char>| #[trigger] r.spec_parse(s) == spec_quoted_string(s) by {
        reveal_strlit("\"");
        assert("\""@ =~= seq!['"']);
        if s.len() > 0 && s[0] == '"' {
            assert(seq!['"'].is_prefix_of(s)) by {
                assert(s.subrange(0, 1) =~= seq!['"']);
            }
            let body = s.skip(1);
            lemma_many_chars(r.parser.p2.p1.parser, quote_free_test(), body);
            lemma_run_len_bound(body, quote_free_test());
            let k = run_len(body, quote_free_test());
            if k < body.len() {
                let after = body.skip(k as int);
                assert(after[0] == '"');
                assert(after.subrange(0, 1) =~= seq!['"']);
                assert(after.skip(1) =~= body.skip(k as int + 1));
            } else {
                assert(body.skip(k as int).len() == 0);
            }
        } else if s.len() > 0 {
            assert(s.subrange(0, 1)[0] != seq!['"'][0]);
        }
    }
    r
}

} // verus!
