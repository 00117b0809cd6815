use rusty_parser::combinators::{
    and_then, either, left, one_or_more, pair, pred, right, zero_or_more,
};
use rusty_parser::grammar::{
    attribute_pair, attributes, close_element, element, element_start, open_element,
    parent_element, single_element, whitespace_wrap, ClosingTagFor,
};
use rusty_parser::primitives::{
    any_char, literal_match, non_literal, quoted_string, space0, space1, AnyChar, CollectChars,
    IsWhitespace, NonLiteral, NotQuote,
};
use rusty_parser::{cli_words, elements_to_args, BoxedParser, Element, Parser};

fn names(elements: &[Element]) -> Vec<String> {
    elements.iter().map(|e| e.name.clone()).collect()
}

fn pairs(e: &Element) -> Vec<(String, String)> {
    e.attr.clone()
}

#[test]
fn self_closing_tag_with_attributes() {
    let input = "<div k1=\"v1\" k2=\"v2\"/>rest";
    let (rest, el) = single_element().parse(input).unwrap();
    assert_eq!(rest, "rest");
    assert_eq!(el.name, "div");
    assert_eq!(
        pairs(&el),
        vec![("k1".to_string(), "v1".to_string()), ("k2".to_string(), "v2".to_string())]
    );
    assert!(el.children.is_empty());
}

#[test]
fn duplicate_attribute_keys_are_kept() {
    let (_, el) = single_element().parse("<a k=\"1\" k=\"2\"/>").unwrap();
    assert_eq!(
        pairs(&el),
        vec![("k".to_string(), "1".to_string()), ("k".to_string(), "2".to_string())]
    );
}

#[test]
fn nested_tags() {
    let (rest, el) = element("<a><b/></a>").unwrap();
    assert_eq!(rest, "");
    assert_eq!(el.name, "a");
    assert_eq!(el.children.len(), 1);
    assert_eq!(el.children[0].name, "b");
    assert!(el.children[0].children.is_empty());
}

#[test]
fn deeper_nesting_keeps_order() {
    let (rest, el) = element("<a> <b><c/></b> <d/> </a>").unwrap();
    assert_eq!(rest, "");
    assert_eq!(names(&el.children), vec!["b".to_string(), "d".to_string()]);
    assert_eq!(names(&el.children[0].children), vec!["c".to_string()]);
}

#[test]
fn mismatched_closing_tag_fails_at_the_closing_tag() {
    assert_eq!(cli_words().parse("<a></b>").err(), Some("</b>"));
    assert_eq!(parent_element("<a></b>").err(), Some("</b>"));
}

#[test]
fn closing_tag_names_are_case_sensitive() {
    assert_eq!(close_element("a".to_string()).parse("</A>").err(), Some("</A>"));
    assert_eq!(close_element("a".to_string()).parse("</a>x").ok(), Some(("x", "a".to_string())));
}

#[test]
fn whitespace_amount_does_not_matter() {
    let (r1, e1) = cli_words().parse("<a/>  <b/>").unwrap();
    let (r2, e2) = cli_words().parse("<a/> <b/>").unwrap();
    assert_eq!(r1, r2);
    assert_eq!(e1, e2);
    assert_eq!(names(&e1), vec!["a".to_string(), "b".to_string()]);
}

#[test]
fn repetition_of_a_failing_parser_on_empty_input() {
    assert_eq!(one_or_more(literal_match("x")).parse("").err(), Some(""));
    let (rest, items) = zero_or_more(literal_match("x")).parse("").unwrap();
    assert_eq!(rest, "");
    assert!(items.is_empty());
}

#[test]
fn repetition_counts_matches() {
    let (rest, items) = one_or_more(literal_match("ab")).parse("ababa").unwrap();
    assert_eq!(rest, "a");
    assert_eq!(items.len(), 2);
}

#[test]
fn multibyte_attribute_value_is_preserved() {
    let (rest, el) = single_element().parse("<x k=\"h\u{e9}llo \u{65e5}\u{672c}\"/>").unwrap();
    assert_eq!(rest, "");
    assert_eq!(pairs(&el), vec![("k".to_string(), "h\u{e9}llo \u{65e5}\u{672c}".to_string())]);
}

#[test]
fn ls_la_end_to_end() {
    let (rest, els) = cli_words().parse("<ls/><-la/>").unwrap();
    assert_eq!(rest, "");
    assert_eq!(els.len(), 2);
    assert_eq!(elements_to_args(&els), vec!["ls".to_string(), "-la".to_string()]);
}

#[test]
fn attributes_do_not_reach_the_command() {
    let (rest, els) = cli_words().parse("<ls attr=\"ignored\"/>").unwrap();
    assert_eq!(rest, "");
    assert_eq!(pairs(&els[0]), vec![("attr".to_string(), "ignored".to_string())]);
    assert_eq!(elements_to_args(&els), vec!["ls".to_string()]);
}

#[test]
fn flattening_forgets_attributes_and_children() {
    let (_, a) = cli_words().parse("<ls/>").unwrap();
    let (_, b) = cli_words().parse("<ls k=\"v\"><x/></ls>").unwrap();
    assert_eq!(elements_to_args(&a), elements_to_args(&b));
    assert!(a[0].attr.len() != b[0].attr.len());
}

#[test]
fn text_between_tags_is_refused() {
    assert_eq!(cli_words().parse("hello").err(), Some("hello"));
    let (rest, els) = cli_words().parse("<a/>hello").unwrap();
    assert_eq!(rest, "hello");
    assert_eq!(els.len(), 1);
}

#[test]
fn attribute_needs_leading_whitespace() {
    assert_eq!(single_element().parse("<a k=\"v\"/>").is_ok(), true);
    assert!(single_element().parse("<ak=\"v\"/>").is_err());
}

#[test]
fn unterminated_quote_fails_at_end() {
    assert_eq!(quoted_string().parse("\"abc").err(), Some(""));
    assert_eq!(quoted_string().parse("abc").err(), Some("abc"));
    assert_eq!(quoted_string().parse("\"a b\"c").ok(), Some(("c", "a b".to_string())));
}

#[test]
fn token_characters() {
    assert_eq!(non_literal("my-tag&x.y2 rest").ok(), Some((" rest", "my-tag&x.y2".to_string())));
    assert_eq!(non_literal("\u{e9}t\u{e9}!").ok(), Some(("!", "\u{e9}t\u{e9}".to_string())));
    assert_eq!(non_literal(" x").err(), Some(" x"));
    assert_eq!(non_literal("").err(), Some(""));
}

#[test]
fn any_char_takes_whole_characters() {
    assert_eq!(any_char("\u{65e5}x").ok(), Some(("x", '\u{65e5}')));
    assert_eq!(any_char("").err(), Some(""));
}

#[test]
fn whitespace_parsers() {
    assert_eq!(space0().parse(" \t\nx").ok(), Some(("x", vec![' ', '\t', '\n'])));
    assert_eq!(space0().parse("x").ok(), Some(("x", vec![])));
    assert_eq!(space1().parse("x").err(), Some("x"));
    assert_eq!(space1().parse("\u{3000}x").ok(), Some(("x", vec!['\u{3000}'])));
}

#[test]
fn literal_match_is_exact_prefix() {
    assert_eq!(literal_match("<").parse("<a").ok(), Some(("a", ())));
    assert_eq!(literal_match("</").parse("<a").err(), Some("<a"));
    assert_eq!(literal_match("ab").parse("a").err(), Some("a"));
}

#[test]
fn boxed_parser_behaves_like_its_parser() {
    let boxed = BoxedParser::new(literal_match("ab"));
    assert_eq!(boxed.parse("abc").ok(), Some(("c", ())));
    assert_eq!(boxed.parse("xbc").err(), Some("xbc"));
}

#[test]
fn empty_input_is_refused() {
    assert_eq!(cli_words().parse("").err(), Some(""));
    assert_eq!(cli_words().parse("   ").err(), Some(""));
}

#[test]
fn and_then_threads_the_opened_name_into_the_closing_tag() {
    let p = and_then(open_element(), ClosingTagFor);
    assert_eq!(p.parse("<a k=\"v\"></a>x").ok(), Some(("x", "a".to_string())));
    assert_eq!(p.parse("<a></b>").err(), Some("</b>"));
    assert_eq!(p.parse("a").err(), Some("a"));
}

#[test]
fn trait_methods_build_boxed_parsers() {
    let word = zero_or_more(pred(AnyChar, NotQuote)).mapper(CollectChars);
    assert_eq!(word.parse("ab\"c").ok(), Some(("\"c", "ab".to_string())));
    let blank = AnyChar.pred(IsWhitespace);
    assert_eq!(blank.parse(" x").ok(), Some(("x", ' ')));
    assert_eq!(blank.parse("x").err(), Some("x"));
    let tag = open_element().and_then(ClosingTagFor);
    assert_eq!(tag.parse("<b></b>").ok(), Some(("", "b".to_string())));
}

#[test]
fn sequencing_combinators() {
    let p = pair(literal_match("<"), NonLiteral);
    assert_eq!(p.parse("<tag123>").ok(), Some((">", ((), "tag123".to_string()))));
    assert_eq!(p.parse("<>").err(), Some(">"));
    assert_eq!(left(NonLiteral, literal_match("=")).parse("k=v").ok(), Some(("v", "k".to_string())));
    assert_eq!(right(literal_match("="), NonLiteral).parse("=v!").ok(), Some(("!", "v".to_string())));
    assert_eq!(right(literal_match("="), NonLiteral).parse("v").err(), Some("v"));
}

#[test]
fn either_retries_on_the_same_input() {
    let p = either(literal_match("ab"), literal_match("ac"));
    assert_eq!(p.parse("acd").ok(), Some(("d", ())));
    assert_eq!(p.parse("ad").err(), Some("ad"));
    let q = either(literal_match("a"), literal_match("b"));
    assert_eq!(q.parse("ab").ok(), Some(("b", ())));
}

#[test]
fn pred_rejection_gives_back_the_input() {
    let p = pred(AnyChar, IsWhitespace);
    assert_eq!(p.parse("ab").err(), Some("ab"));
    assert_eq!(p.parse("").err(), Some(""));
}

#[test]
fn attribute_parsers() {
    assert_eq!(
        attribute_pair().parse("k=\"v w\" rest").ok(),
        Some((" rest", ("k".to_string(), "v w".to_string())))
    );
    assert_eq!(attribute_pair().parse("k\"v\"").err(), Some("\"v\""));
    let (rest, attrs) = attributes().parse(" a=\"1\"  b=\"2\"/>").unwrap();
    assert_eq!(rest, "/>");
    assert_eq!(attrs, vec![("a".to_string(), "1".to_string()), ("b".to_string(), "2".to_string())]);
    let (rest, (name, attrs)) = element_start().parse("<x y=\"z\">").unwrap();
    assert_eq!((rest, name.as_str()), (">", "x"));
    assert_eq!(attrs.len(), 1);
}

#[test]
fn wrapped_parser_takes_surrounding_whitespace() {
    let p = whitespace_wrap(literal_match("x"));
    assert_eq!(p.parse("  x \ty").ok(), Some(("y", ())));
    assert_eq!(p.parse("  y").err(), Some("y"));
}

fn leaf(name: &str) -> Element {
    Element { name: name.to_string(), attr: vec![], children: vec![] }
}

#[test]
fn nested_tag_is_the_expected_tree() {
    let (_, el) = element("<a><b/></a>").unwrap();
    let expected = Element { name: "a".to_string(), attr: vec![], children: vec![leaf("b")] };
    assert_eq!(el, expected);
    assert_ne!(el, leaf("a"));
}

#[test]
fn element_equality_looks_at_every_part() {
    let with_attr = Element {
        name: "a".to_string(),
        attr: vec![("k".to_string(), "v".to_string())],
        children: vec![],
    };
    assert_ne!(leaf("a"), with_attr);
    assert_ne!(leaf("a"), leaf("b"));
    let deep1 = Element { name: "p".to_string(), attr: vec![], children: vec![leaf("x")] };
    let deep2 = Element { name: "p".to_string(), attr: vec![], children: vec![leaf("y")] };
    assert_ne!(deep1, deep2);
    assert_eq!(deep1, Element { name: "p".to_string(), attr: vec![], children: vec![leaf("x")] });
}
