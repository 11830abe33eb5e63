//! End-to-end tests of `parse`: at least one scenario per parsing policy
//! and per error kind.

use html_parser::Element;
use html_parser::Node;
use html_parser::ParseError;
use html_parser::ParseErrorKind;
use html_parser::parse;

fn element(tag: &str, attributes: Vec<(String, String)>, children: Vec<Node>) -> Node {
    Node::Element(Element {
        tag: tag.to_string(),
        attributes,
        children,
    })
}

fn attr(key: &str, value: &str) -> (String, String) {
    (key.to_string(), value.to_string())
}

#[test]
fn single_empty_element() {
    let root = parse("<a></a>").unwrap();
    assert_eq!(root, element("a", vec![], vec![]));
}

#[test]
fn element_with_attribute_and_text() {
    let root = parse("<a href='x'>hi</a>").unwrap();
    assert_eq!(
        root,
        element("a", vec![attr("href", "x")], vec![Node::Text("hi".to_string())])
    );
}

#[test]
fn bare_text_is_a_single_root_already() {
    // One top-level node, so it is returned as it stands, a text node: the
    // synthetic root only wraps counts other than one.
    let root = parse("hi").unwrap();
    assert_eq!(root, Node::Text("hi".to_string()));
}

#[test]
fn two_siblings_get_synthetic_root() {
    let root = parse("<a></a><b></b>").unwrap();
    assert_eq!(
        root,
        element(
            "html",
            vec![],
            vec![element("a", vec![], vec![]), element("b", vec![], vec![])]
        )
    );
}

#[test]
fn empty_input_gets_synthetic_root() {
    let root = parse("").unwrap();
    assert_eq!(root, element("html", vec![], vec![]));
}

#[test]
fn mismatched_closing_tag_fails() {
    let err = parse("<a></b>").unwrap_err();
    assert_eq!(
        err,
        ParseError {
            kind: ParseErrorKind::TagMismatch,
            pos: 5,
        }
    );
}

#[test]
fn case_difference_is_a_mismatch() {
    let err = parse("<a></A>").unwrap_err();
    assert_eq!(err.kind, ParseErrorKind::TagMismatch);
}

#[test]
fn unterminated_attribute_value_fails() {
    let err = parse("<a href=\"x>").unwrap_err();
    assert!(
        err.kind == ParseErrorKind::UnexpectedEndOfInput
            || err.kind == ParseErrorKind::UnexpectedCharacter
    );
    assert_eq!(err.kind, ParseErrorKind::UnexpectedEndOfInput);
    assert_eq!(err.pos, 11);
}

#[test]
fn unquoted_attribute_value_fails() {
    let err = parse("<a href=x>").unwrap_err();
    assert_eq!(
        err,
        ParseError {
            kind: ParseErrorKind::UnexpectedCharacter,
            pos: 8,
        }
    );
}

#[test]
fn input_ending_inside_a_tag_fails() {
    let err = parse("<a").unwrap_err();
    assert_eq!(
        err,
        ParseError {
            kind: ParseErrorKind::UnexpectedEndOfInput,
            pos: 2,
        }
    );
}

#[test]
fn repeated_attribute_key_keeps_last_value() {
    let root = parse("<a x='1' x='2'></a>").unwrap();
    assert_eq!(root, element("a", vec![attr("x", "2")], vec![]));
}

#[test]
fn distinct_attributes_keep_source_order() {
    let root = parse("<a x='1' y=\"2\"></a>").unwrap();
    assert_eq!(
        root,
        element("a", vec![attr("x", "1"), attr("y", "2")], vec![])
    );
}

#[test]
fn whitespace_between_siblings_changes_nothing() {
    let spaced = parse("<a></a> \n\t <b></b>").unwrap();
    let tight = parse("<a></a><b></b>").unwrap();
    assert_eq!(spaced, tight);
}

#[test]
fn whitespace_around_attributes_is_skipped() {
    let root = parse("<a  x='1' ></a>").unwrap();
    assert_eq!(root, element("a", vec![attr("x", "1")], vec![]));
}

#[test]
fn nested_elements() {
    let root = parse("<a><b>t</b></a>").unwrap();
    assert_eq!(
        root,
        element(
            "a",
            vec![],
            vec![element("b", vec![], vec![Node::Text("t".to_string())])]
        )
    );
}

#[test]
fn text_keeps_inner_whitespace() {
    let root = parse("<p>hello world</p>").unwrap();
    assert_eq!(
        root,
        element("p", vec![], vec![Node::Text("hello world".to_string())])
    );
}

#[test]
fn top_level_close_marker_ends_the_sibling_list() {
    let root = parse("</x>").unwrap();
    assert_eq!(root, element("html", vec![], vec![]));
}

#[test]
fn double_quoted_value_may_hold_single_quotes() {
    let root = parse("<a x=\"it's\"></a>").unwrap();
    assert_eq!(root, element("a", vec![attr("x", "it's")], vec![]));
}

#[test]
fn empty_tag_name_is_not_rejected() {
    // the grammar validates structure, not names: `<></>` is a matched
    // pair with an empty name
    let root = parse("<></>").unwrap();
    assert_eq!(root, element("", vec![], vec![]));
}

#[test]
fn whitespace_inside_an_element_is_skipped_around_children() {
    let root = parse("<a> <b></b> </a>").unwrap();
    assert_eq!(root, element("a", vec![], vec![element("b", vec![], vec![])]));
}

#[test]
fn mixed_text_and_elements_at_top_level() {
    let root = parse("hi<b></b>").unwrap();
    assert_eq!(
        root,
        element(
            "html",
            vec![],
            vec![Node::Text("hi".to_string()), element("b", vec![], vec![])]
        )
    );
}
