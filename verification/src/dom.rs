//! The tree model: a document is a tree of `Node` values, each either a text
//! run or an element with a tag name, an attribute list and ordered children.
//!
//! Attributes are held as a list of `(key, value)` pairs in first-occurrence
//! order; the parser keeps the keys unique by overwriting the value of a
//! repeated key in place (last occurrence wins). The model itself accepts any
//! list: no validation happens at this layer.

use vstd::prelude::*;

verus! {

broadcast use
    vstd::seq::axiom_seq_index_decreases,
    vstd::seq::axiom_seq_subrange_decreases,
    vstd::std_specs::vec::axiom_vec_decreases_to_view,
;

/// The mathematical shape of a tree node: strings become character
/// sequences, vectors become sequences. Contracts speak of this form.
#[verifier::ext_equal]
pub ghost enum SpecNode {
    Text(Seq<char>),
    Element { tag: Seq<char>, attributes: Seq<(Seq<char>, Seq<char>)>, children: Seq<SpecNode> },
}

/// A node of the document tree.
#[derive(Debug, PartialEq, Eq)]
pub enum Node {
    Element(Element),
    Text(String),
}

/// An element node: a tag name, its attributes, and its children in
/// document order.
#[derive(Debug, PartialEq, Eq)]
pub struct Element {
    pub tag: String,
    pub attributes: Vec<(String, String)>,
    pub children: Vec<Node>,
}

/// The view of an attribute list: each pair as a pair of character sequences.
pub open spec fn attrs_view(attrs: Seq<(String, String)>) -> Seq<(Seq<char>, Seq<char>)> {
    attrs.map_values(|p: (String, String)| (p.0@, p.1@))
}

impl Node {
    /// The mathematical shape of this node.
    pub open spec fn deep(self) -> SpecNode
        decreases self,
    {
        match self {
            Node::Text(s) => SpecNode::Text(s@),
            Node::Element(e) => SpecNode::Element {
                tag: e.tag@,
                attributes: attrs_view(e.attributes@),
                children: deep_nodes(e.children@),
            },
        }
    }
}

/// The mathematical shape of a node list, in order.
pub open spec fn deep_nodes(ns: Seq<Node>) -> Seq<SpecNode>
    decreases ns,
{
    if ns.len() == 0 {
        Seq::empty()
    } else {
        seq![ns[0].deep()] + deep_nodes(ns.subrange(1, ns.len() as int))
    }
}

/// `deep_nodes` maps the list elementwise: same length, each node's shape
/// at its own index.
pub broadcast proof fn lemma_deep_nodes_index(ns: Seq<Node>)
    ensures
        (#[trigger] deep_nodes(ns)).len() == ns.len(),
        forall|i: int| 0 <= i < ns.len() ==> deep_nodes(ns)[i] == ns[i].deep(),
    decreases ns.len(),
{
    if ns.len() > 0 {
        lemma_deep_nodes_index(ns.subrange(1, ns.len() as int));
    }
}

/// Wraps a string of character data as a text node.
pub fn create_text_node(text: String) -> (n: Node)
    ensures
        n.deep() == SpecNode::Text(text@),
{
    Node::Text(text)
}

/// Wraps a tag name, attribute list and child list as an element node.
/// No validation of any part happens here.
pub fn create_text_element(tag: String, attributes: Vec<(String, String)>, children: Vec<Node>) -> (n: Node)
    ensures
        n.deep() == (SpecNode::Element {
            tag: tag@,
            attributes: attrs_view(attributes@),
            children: deep_nodes(children@),
        }),
{
    Node::Element(Element { tag, attributes, children })
}

} // verus!
