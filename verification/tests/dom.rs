//! Tests of the tree model's constructors and of non-ASCII input: the
//! scanner counts code points, not bytes.

use html_parser::Element;
use html_parser::Node;
use html_parser::create_text_element;
use html_parser::create_text_node;
use html_parser::parse;

#[test]
fn text_node_constructor_wraps_content() {
    let n = create_text_node("some words".to_string());
    assert_eq!(n, Node::Text("some words".to_string()));
}

#[test]
fn element_constructor_wraps_parts() {
    let child = create_text_node("t".to_string());
    let n = create_text_element(
        "a".to_string(),
        vec![("k".to_string(), "v".to_string())],
        vec![child],
    );
    assert_eq!(
        n,
        Node::Element(Element {
            tag: "a".to_string(),
            attributes: vec![("k".to_string(), "v".to_string())],
            children: vec![Node::Text("t".to_string())],
        })
    );
}

#[test]
fn non_ascii_text_is_scanned_by_code_points() {
    let root = parse("<p>héllo wörld</p>").unwrap();
    assert_eq!(
        root,
        Node::Element(Element {
            tag: "p".to_string(),
            attributes: vec![],
            children: vec![Node::Text("héllo wörld".to_string())],
        })
    );
}

#[test]
fn non_ascii_tag_and_attribute() {
    let root = parse("<división título='sí'></división>").unwrap();
    assert_eq!(
        root,
        Node::Element(Element {
            tag: "división".to_string(),
            attributes: vec![("título".to_string(), "sí".to_string())],
            children: vec![],
        })
    );
}
