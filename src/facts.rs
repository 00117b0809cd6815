use crate::element::ElementModel;
use crate::grammar::{
    spec_attribute_item, spec_attribute_pair, spec_attributes, spec_children, spec_cli_words,
    spec_close, spec_element, spec_element_start, spec_open, spec_single, spec_tag,
};
use crate::primitives::{
    is_token_char, lemma_run_len_bound, quote_free_test, run_len, space_test, spec_non_literal,
    spec_quoted_string, spec_space1, token_test, white_space,
};
use crate::combinators::SpecResult;
use vstd::prelude::*;

verus! {

/// A non-empty run of token characters.
pub open spec fn is_token(s: Seq<char>) -> bool {
    s.len() > 0 && forall|i: int| 0 <= i < s.len() ==> is_token_char(#[trigger] s[i])
}

/// Text without the quote character.
pub open spec fn quote_free(s: Seq<char>) -> bool {
    forall|i: int| 0 <= i < s.len() ==> #[trigger] s[i] != '"'
}

/// Text made of whitespace only.
pub open spec fn all_space(s: Seq<char>) -> bool {
    forall|i: int| 0 <= i < s.len() ==> white_space(#[trigger] s[i])
}

/// Attributes that can be written out and read back: token keys that do not
/// start with whitespace, and values without quotes.
pub open spec fn writable_attrs(attrs: Seq<(Seq<char>, Seq<char>)>) -> bool {
    forall|i: int|
        0 <= i < attrs.len() ==> is_token(#[trigger] attrs[i].0) && !white_space(attrs[i].0[0])
            && quote_free(attrs[i].1)
}

/// ` k1="v1" k2="v2"...`: the attributes as they are written in a tag.
pub open spec fn render_attrs(attrs: Seq<(Seq<char>, Seq<char>)>) -> Seq<char>
    decreases attrs.len(),
{
    if attrs.len() == 0 {
        seq![]
    } else {
        seq![' '] + attrs[0].0 + seq!['=', '"'] + attrs[0].1 + seq!['"'] + render_attrs(
            attrs.skip(1),
        )
    }
}

proof fn lemma_run_len_all(w: Seq<char>, t: Seq<char>, ok: spec_fn(char) -> bool)
    requires
        forall|i: int| 0 <= i < w.len() ==> ok(#[trigger] w[i]),
    ensures
        run_len(w + t, ok) == w.len() + run_len(t, ok),
    decreases w.len(),
{
    if w.len() > 0 {
        assert((w + t)[0] == w[0]);
        assert((w + t).skip(1) =~= w.skip(1) + t);
        lemma_run_len_all(w.skip(1), t, ok);
    } else {
        assert(w + t =~= t);
    }
}

proof fn lemma_token(name: Seq<char>, t: Seq<char>)
    requires
        is_token(name),
        t.len() > 0 ==> !is_token_char(t[0]),
    ensures
        spec_non_literal(name + t) == SpecResult::<Seq<char>>::Ok((t, name)),
{
    lemma_run_len_all(name, t, token_test());
    assert((name + t).skip(name.len() as int) =~= t);
    assert((name + t).take(name.len() as int) =~= name);
}

/// A quoted value without quotes inside reads back intact, whatever its
/// characters, and the input after the closing quote is left.
pub proof fn lemma_quoted_value(v: Seq<char>, rest: Seq<char>)
    requires
        quote_free(v),
    ensures
        spec_quoted_string(seq!['"'] + v + seq!['"'] + rest) == SpecResult::<Seq<char>>::Ok(
            (rest, v),
        ),
{
    let s = seq!['"'] + v + seq!['"'] + rest;
    let body = s.skip(1);
    assert(body =~= v + (seq!['"'] + rest));
    lemma_run_len_all(v, seq!['"'] + rest, quote_free_test());
    assert(!quote_free_test()((seq!['"'] + rest)[0]));
    let k = run_len(body, quote_free_test());
    assert(k == v.len());
    assert(body.skip(k as int + 1) =~= rest);
    assert(body.take(k as int) =~= v);
}

proof fn lemma_attributes_written(attrs: Seq<(Seq<char>, Seq<char>)>, tail: Seq<char>)
    requires
        writable_attrs(attrs),
        tail.len() > 0 ==> !white_space(tail[0]),
    ensures
        spec_attributes(render_attrs(attrs) + tail) == (tail, attrs),
    decreases attrs.len(),
{
    let s = render_attrs(attrs) + tail;
    if attrs.len() == 0 {
        assert(s =~= tail);
        assert(run_len(tail, space_test()) == 0);
        assert(attrs =~= Seq::<(Seq<char>, Seq<char>)>::empty());
    } else {
        let k = attrs[0].0;
        let v = attrs[0].1;
        let more = attrs.skip(1);
        assert(writable_attrs(more)) by {
            assert forall|i: int| 0 <= i < more.len() implies is_token(#[trigger] more[i].0)
                && !white_space(more[i].0[0]) && quote_free(more[i].1) by {
                assert(more[i] == attrs[i + 1]);
            }
        }
        let after = render_attrs(more) + tail;
        assert(is_token(k) && !white_space(k[0]) && quote_free(v)) by {
            assert(attrs[0] == attrs[0]);
        }
        let m = k + (seq!['=', '"'] + v + seq!['"'] + after);
        assert(s =~= seq![' '] + m);
        lemma_run_len_all(seq![' '], m, space_test());
        assert(run_len(m, space_test()) == 0) by {
            assert(m[0] == k[0]);
        }
        assert(s.skip(1) =~= m);
        assert(spec_space1(s) == SpecResult::<Seq<char>>::Ok((m, s.take(1))));
        lemma_token(k, seq!['=', '"'] + v + seq!['"'] + after);
        let m2 = seq!['=', '"'] + v + seq!['"'] + after;
        assert(seq!['='].is_prefix_of(m2)) by {
            assert(m2.subrange(0, 1) =~= seq!['=']);
        }
        assert(m2.skip(1) =~= seq!['"'] + v + seq!['"'] + after);
        lemma_quoted_value(v, after);
        assert(spec_attribute_pair(m) == SpecResult::<(Seq<char>, Seq<char>)>::Ok((after, (k, v))));
        assert(spec_attribute_item(s) == SpecResult::<(Seq<char>, Seq<char>)>::Ok(
            (after, (k, v)),
        ));
        lemma_attributes_written(more, tail);
        assert(seq![(k, v)] + more =~= attrs);
    }
}

proof fn lemma_start_written(
    name: Seq<char>,
    attrs: Seq<(Seq<char>, Seq<char>)>,
    tail: Seq<char>,
)
    requires
        is_token(name),
        writable_attrs(attrs),
        tail.len() > 0,
        !white_space(tail[0]),
        !is_token_char(tail[0]),
    ensures
        spec_element_start(seq!['<'] + name + render_attrs(attrs) + tail)
            == SpecResult::<(Seq<char>, Seq<(Seq<char>, Seq<char>)>)>::Ok((tail, (name, attrs))),
{
    let s = seq!['<'] + name + render_attrs(attrs) + tail;
    let after_name = render_attrs(attrs) + tail;
    assert(seq!['<'].is_prefix_of(s)) by {
        assert(s.subrange(0, 1) =~= seq!['<']);
    }
    assert(s.skip(1) =~= name + after_name);
    if attrs.len() > 0 {
        assert(after_name[0] == ' ');
    } else {
        assert(after_name =~= tail);
    }
    lemma_token(name, after_name);
    lemma_attributes_written(attrs, tail);
}

/// A tag written as `<`, a name, attributes and `closing` reads back as an
/// element with that name and those attributes in order, and no children;
/// exactly the tag is taken.
pub proof fn lemma_tag_written(
    name: Seq<char>,
    attrs: Seq<(Seq<char>, Seq<char>)>,
    closing: Seq<char>,
    rest: Seq<char>,
)
    requires
        is_token(name),
        writable_attrs(attrs),
        closing.len() > 0,
        !white_space(closing[0]),
        !is_token_char(closing[0]),
    ensures
        spec_tag(seq!['<'] + name + render_attrs(attrs) + closing + rest, closing)
            == SpecResult::<ElementModel>::Ok(
            (rest, ElementModel { name, attr: attrs, children: seq![] }),
        ),
{
    let s = seq!['<'] + name + render_attrs(attrs) + closing + rest;
    let tail = closing + rest;
    assert(s =~= seq!['<'] + name + render_attrs(attrs) + tail);
    lemma_start_written(name, attrs, tail);
    assert(spec_element_start(s) == SpecResult::<(Seq<char>, Seq<(Seq<char>, Seq<char>)>)>::Ok(
        (tail, (name, attrs)),
    ));
    assert(closing.is_prefix_of(tail)) by {
        assert(tail.subrange(0, closing.len() as int) =~= closing);
    }
    assert(tail.skip(closing.len() as int) =~= rest);
}

/// `<name k1="v1" k2="v2"/>` reads back as an element with that name, those
/// attributes in source order and no children, taking exactly the tag.
pub proof fn lemma_self_closing(
    name: Seq<char>,
    attrs: Seq<(Seq<char>, Seq<char>)>,
    rest: Seq<char>,
)
    requires
        is_token(name),
        writable_attrs(attrs),
    ensures
        spec_single(seq!['<'] + name + render_attrs(attrs) + seq!['/', '>'] + rest)
            == SpecResult::<ElementModel>::Ok(
            (rest, ElementModel { name, attr: attrs, children: seq![] }),
        ),
{
    lemma_tag_written(name, attrs, seq!['/', '>'], rest);
}


/// No element starts with a closing tag.
proof fn lemma_no_element_at_close(x: Seq<char>)
    ensures
        spec_element(seq!['<', '/'] + x) is Err,
{
    let s = seq!['<', '/'] + x;
    assert(run_len(s, space_test()) == 0);
    assert(s.skip(0) =~= s);
    assert(seq!['<'].is_prefix_of(s)) by {
        assert(s.subrange(0, 1) =~= seq!['<']);
    }
    assert(s.skip(1)[0] == '/');
    assert(run_len(s.skip(1), token_test()) == 0);
}

proof fn lemma_no_space(s: Seq<char>)
    requires
        s.len() > 0 ==> !white_space(s[0]),
    ensures
        s.skip(run_len(s, space_test()) as int) == s,
{
    assert(s.skip(0) =~= s);
}

/// `<a></a>`-style closing of an element with no attributes: what is left
/// after `<a>` is parsed.
proof fn lemma_open_plain(a: Seq<char>, rest: Seq<char>)
    requires
        is_token(a),
    ensures
        spec_open(seq!['<'] + a + seq!['>'] + rest) == SpecResult::<ElementModel>::Ok(
            (rest, ElementModel { name: a, attr: seq![], children: seq![] }),
        ),
        spec_single(seq!['<'] + a + seq!['>'] + rest) is Err,
{
    let none = Seq::<(Seq<char>, Seq<char>)>::empty();
    assert(render_attrs(none) =~= Seq::<char>::empty());
    assert(writable_attrs(none));
    let s = seq!['<'] + a + seq!['>'] + rest;
    assert(s =~= seq!['<'] + a + render_attrs(none) + seq!['>'] + rest);
    lemma_tag_written(a, none, seq!['>'], rest);
    assert(s =~= seq!['<'] + a + render_attrs(none) + (seq!['>'] + rest));
    lemma_start_written(a, none, seq!['>'] + rest);
    assert((seq!['>'] + rest)[0] == '>');
}

/// `</a>` for the name `a` takes the closing tag; for another name it fails
/// where the closing tag starts.
proof fn lemma_close_written(a: Seq<char>, b: Seq<char>, rest: Seq<char>)
    requires
        is_token(b),
    ensures
        spec_close(a, seq!['<', '/'] + b + seq!['>'] + rest) == if a == b {
            SpecResult::<Seq<char>>::Ok((rest, b))
        } else {
            SpecResult::<Seq<char>>::Err(seq!['<', '/'] + b + seq!['>'] + rest)
        },
{
    let s = seq!['<', '/'] + b + seq!['>'] + rest;
    assert(seq!['<', '/'].is_prefix_of(s)) by {
        assert(s.subrange(0, 2) =~= seq!['<', '/']);
    }
    assert(s.skip(2) =~= b + (seq!['>'] + rest));
    lemma_token(b, seq!['>'] + rest);
    assert(seq!['>'].is_prefix_of(seq!['>'] + rest)) by {
        assert((seq!['>'] + rest).subrange(0, 1) =~= seq!['>']);
    }
    assert((seq!['>'] + rest).skip(1) =~= rest);
}

/// `<a><b/></a>` reads as an element named `a` whose one child is an element
/// named `b`, and the whole text is taken.
pub proof fn lemma_nested(a: Seq<char>, b: Seq<char>)
    requires
        is_token(a),
        is_token(b),
    ensures
        spec_element(
            seq!['<'] + a + seq!['>'] + seq!['<'] + b + seq!['/', '>'] + seq!['<', '/'] + a
                + seq!['>'],
        ) == SpecResult::<ElementModel>::Ok(
            (
                seq![],
                ElementModel {
                    name: a,
                    attr: seq![],
                    children: seq![ElementModel { name: b, attr: seq![], children: seq![] }],
                },
            ),
        ),
{
    let close = seq!['<', '/'] + a + seq!['>'];
    let inner = seq!['<'] + b + seq!['/', '>'] + close;
    let s = seq!['<'] + a + seq!['>'] + inner;
    assert(s =~= seq!['<'] + a + seq!['>'] + seq!['<'] + b + seq!['/', '>'] + seq!['<', '/'] + a
        + seq!['>']);
    let bm = ElementModel { name: b, attr: seq![], children: seq![] };
    let none = Seq::<(Seq<char>, Seq<char>)>::empty();
    lemma_no_space(s);
    lemma_open_plain(a, inner);
    // the child
    assert(render_attrs(none) =~= Seq::<char>::empty());
    assert(writable_attrs(none));
    assert(inner =~= seq!['<'] + b + render_attrs(none) + seq!['/', '>'] + close);
    lemma_self_closing(b, none, close);
    lemma_no_space(inner);
    lemma_no_space(close);
    assert(spec_element(inner) == SpecResult::<ElementModel>::Ok((close, bm)));
    assert(close =~= seq!['<', '/'] + (a + seq!['>']));
    lemma_no_element_at_close(a + seq!['>']);
    assert(spec_children(close) == (close, Seq::<ElementModel>::empty()));
    assert(spec_children(inner) == (close, seq![bm] + Seq::<ElementModel>::empty()));
    assert(seq![bm] + Seq::<ElementModel>::empty() =~= seq![bm]);
    assert(close =~= seq!['<', '/'] + a + seq!['>'] + Seq::<char>::empty());
    lemma_close_written(a, a, Seq::<char>::empty());
    lemma_no_space(Seq::<char>::empty());
}

/// `<a></b>` with different names fails, and the failure points at the
/// closing tag: the input where matching the closing tag was tried.
pub proof fn lemma_mismatched_close(a: Seq<char>, b: Seq<char>)
    requires
        is_token(a),
        is_token(b),
        a != b,
    ensures
        spec_cli_words(seq!['<'] + a + seq!['>'] + seq!['<', '/'] + b + seq!['>'])
            == SpecResult::<Seq<ElementModel>>::Err(seq!['<', '/'] + b + seq!['>']),
{
    let close = seq!['<', '/'] + b + seq!['>'];
    let s = seq!['<'] + a + seq!['>'] + close;
    assert(s =~= seq!['<'] + a + seq!['>'] + seq!['<', '/'] + b + seq!['>']);
    lemma_no_space(s);
    lemma_open_plain(a, close);
    assert(close =~= seq!['<', '/'] + (b + seq!['>']));
    lemma_no_element_at_close(b + seq!['>']);
    assert(spec_children(close) == (close, Seq::<ElementModel>::empty()));
    assert(close =~= seq!['<', '/'] + b + seq!['>'] + Seq::<char>::empty());
    lemma_close_written(a, b, Seq::<char>::empty());
}

/// Whitespace before an element, of any amount, changes nothing: not what
/// the element is, nor where parsing goes on.
pub proof fn lemma_leading_space(w: Seq<char>, s: Seq<char>)
    requires
        all_space(w),
    ensures
        spec_element(w + s) == spec_element(s),
        spec_cli_words(w + s) == spec_cli_words(s),
{
    lemma_run_len_all(w, s, space_test());
    let k = run_len(s, space_test());
    lemma_run_len_bound(s, space_test());
    assert((w + s).skip((w.len() + k) as int) =~= s.skip(k as int));
}


/// The whitespace after a self-closing tag, of any amount, is taken with the
/// tag, so a command line reads the same whatever whitespace separates its
/// first tag from what follows.
pub proof fn lemma_space_between(
    name: Seq<char>,
    attrs: Seq<(Seq<char>, Seq<char>)>,
    w1: Seq<char>,
    w2: Seq<char>,
    t: Seq<char>,
)
    requires
        is_token(name),
        writable_attrs(attrs),
        all_space(w1),
        all_space(w2),
        t.len() > 0 ==> !white_space(t[0]),
    ensures
        spec_cli_words(seq!['<'] + name + render_attrs(attrs) + seq!['/', '>'] + w1 + t)
            == spec_cli_words(seq!['<'] + name + render_attrs(attrs) + seq!['/', '>'] + w2 + t),
{
    lemma_tag_then_space(name, attrs, w1, t);
    lemma_tag_then_space(name, attrs, w2, t);
}

proof fn lemma_tag_then_space(
    name: Seq<char>,
    attrs: Seq<(Seq<char>, Seq<char>)>,
    w: Seq<char>,
    t: Seq<char>,
)
    requires
        is_token(name),
        writable_attrs(attrs),
        all_space(w),
        t.len() > 0 ==> !white_space(t[0]),
    ensures
        spec_element(seq!['<'] + name + render_attrs(attrs) + seq!['/', '>'] + w + t)
            == SpecResult::<ElementModel>::Ok(
            (t, ElementModel { name, attr: attrs, children: seq![] }),
        ),
{
    let s = seq!['<'] + name + render_attrs(attrs) + seq!['/', '>'] + w + t;
    let head = seq!['<'] + name + render_attrs(attrs) + seq!['/', '>'];
    assert(s =~= head + (w + t));
    lemma_self_closing(name, attrs, w + t);
    lemma_no_space(s);
    lemma_run_len_all(w, t, space_test());
    assert(run_len(t, space_test()) == 0);
    assert((w + t).skip(w.len() as int) =~= t);
}

} // verus!
