//! The library's laws: properties of the grammar that hold for all inputs,
//! stated and proved here so that a reader sees them rather than having to
//! derive them from the definitions.

use vstd::prelude::*;

use crate::dom::SpecNode;
use crate::grammar::AttrsResult;
use crate::grammar::DocResult;
use crate::grammar::NodeResult;
use crate::grammar::NodesResult;
use crate::grammar::ParseErrorKind;
use crate::grammar::SpecErr;
use crate::grammar::html_tag;
use crate::grammar::is_space;
use crate::grammar::key_index;
use crate::grammar::lemma_key_index;
use crate::grammar::lemma_scan_len_exact;
use crate::grammar::spec_attrs;
use crate::grammar::spec_document;
use crate::grammar::spec_nodes;
use crate::grammar::upsert;
use crate::grammar::ws_len;
use crate::grammar::ws_stop;

verus! {

broadcast use
    vstd::seq::axiom_seq_index_decreases,
;

/// Single-root normalization: when the top-level sibling list has exactly
/// one node, the document is that node as it stands; with any other count
/// (none, or two or more) it is a synthetic `html` element with no
/// attributes and the top-level nodes as children, in order. A failed
/// sibling list is the document's failure.
pub proof fn lemma_single_root_normalization(s: Seq<char>)
    ensures
        match spec_nodes(s, 0, Seq::empty()) {
            NodesResult::Parsed { nodes, end } => {
                if nodes.len() == 1 {
                    spec_document(s) == DocResult::Parsed(nodes[0])
                } else {
                    spec_document(s) == DocResult::Parsed(
                        SpecNode::Element {
                            tag: html_tag(),
                            attributes: Seq::empty(),
                            children: nodes,
                        },
                    )
                }
            },
            NodesResult::Fail(e) => spec_document(s) == DocResult::Fail(e),
        },
{
}

/// The value the attribute list `ps` holds for key `k`: the value of the
/// first pair with that key, or nothing.
pub open spec fn attr_value(ps: Seq<(Seq<char>, Seq<char>)>, k: Seq<char>) -> Option<Seq<char>> {
    if key_index(ps, k) < ps.len() {
        Some(ps[key_index(ps, k)].1)
    } else {
        None
    }
}

/// `key_index` is the one place satisfying the first-occurrence
/// description.
proof fn lemma_key_index_is(ps: Seq<(Seq<char>, Seq<char>)>, k: Seq<char>, m: int)
    requires
        0 <= m <= ps.len(),
        m < ps.len() ==> ps[m].0 == k,
        forall|j: int| 0 <= j < m ==> (#[trigger] ps[j]).0 != k,
        m == ps.len() ==> forall|j: int| 0 <= j < ps.len() ==> (#[trigger] ps[j]).0 != k,
    ensures
        key_index(ps, k) == m,
{
    lemma_key_index(ps, k);
    if key_index(ps, k) < m {
        assert(ps[key_index(ps, k)].0 == k);
    }
    if key_index(ps, k) > m {
        assert(ps[m].0 != k);
    }
}

/// Attribute overwrite: inserting a repeated key leaves one entry for it,
/// holding the value of the later occurrence, and leaves every other key's
/// value alone. Applied once per `key=value` pair in source order by the
/// grammar's `spec_attrs`, this is why the last occurrence wins.
pub proof fn lemma_attribute_overwrite(
    ps: Seq<(Seq<char>, Seq<char>)>,
    k: Seq<char>,
    v: Seq<char>,
)
    ensures
        attr_value(upsert(ps, k, v), k) == Some(v),
        forall|k2: Seq<char>| k2 != k ==> attr_value(upsert(ps, k, v), k2) == attr_value(ps, k2),
{
    lemma_key_index(ps, k);
    let qs = upsert(ps, k, v);
    let ki = key_index(ps, k);
    if ki < ps.len() {
        lemma_key_index_is(qs, k, ki);
    } else {
        lemma_key_index_is(qs, k, ps.len() as int);
    }
    assert forall|k2: Seq<char>| k2 != k implies attr_value(qs, k2) == attr_value(ps, k2) by {
        lemma_key_index(ps, k2);
        let m = key_index(ps, k2);
        if m < ps.len() {
            assert(qs[m].0 == k2 && qs[m].1 == ps[m].1) by {
                if ki < ps.len() {
                    assert(ps[ki].0 == k);
                }
            }
            lemma_key_index_is(qs, k2, m);
        } else {
            lemma_key_index_is(qs, k2, qs.len() as int);
        }
    }
}

/// An attribute list with no two pairs holding the same key.
pub open spec fn keys_unique(ps: Seq<(Seq<char>, Seq<char>)>) -> bool {
    forall|i: int, j: int|
        0 <= i < j < ps.len() ==> (#[trigger] ps[i]).0 != (#[trigger] ps[j]).0
}

/// Overwrite-on-repeat insertion keeps the keys unique.
pub proof fn lemma_upsert_keys_unique(ps: Seq<(Seq<char>, Seq<char>)>, k: Seq<char>, v: Seq<char>)
    requires
        keys_unique(ps),
    ensures
        keys_unique(upsert(ps, k, v)),
{
    lemma_key_index(ps, k);
    let qs = upsert(ps, k, v);
    let ki = key_index(ps, k);
    assert forall|i: int, j: int| 0 <= i < j < qs.len() implies (#[trigger] qs[i]).0 != (
    #[trigger] qs[j]).0 by {
        if ki < ps.len() {
            assert(ps[ki].0 == k);
        }
    }
}

/// The invariant of every element the grammar builds: an attribute list
/// that `spec_attrs` returns has unique keys (given that the list it
/// started from had).
pub proof fn lemma_parsed_attrs_keys_unique(
    s: Seq<char>,
    pos: int,
    acc: Seq<(Seq<char>, Seq<char>)>,
)
    requires
        keys_unique(acc),
    ensures
        match spec_attrs(s, pos, acc) {
            AttrsResult::Parsed { attrs, end } => keys_unique(attrs),
            AttrsResult::Fail(_) => true,
        },
    decreases s.len() - pos,
{
    let p = pos + ws_len(s, pos);
    if p >= s.len() {
    } else if s[p] == '>' {
    } else {
        match crate::grammar::spec_attr(s, p) {
            crate::grammar::AttrResult::Parsed { key, value, end } => {
                let next = if p < end && end <= s.len() {
                    end
                } else {
                    s.len() as int
                };
                lemma_upsert_keys_unique(acc, key, value);
                lemma_parsed_attrs_keys_unique(s, next, upsert(acc, key, value));
            },
            crate::grammar::AttrResult::Fail(_) => {},
        }
    }
}

/// Whether every element in the tree under `n` has unique attribute keys.
pub open spec fn node_attrs_unique(n: SpecNode) -> bool
    decreases n,
{
    match n {
        SpecNode::Text(_) => true,
        SpecNode::Element { tag, attributes, children } => keys_unique(attributes) && forall|
            i: int,
        | 0 <= i < children.len() ==> node_attrs_unique(#[trigger] children[i]),
    }
}

/// Every node a parsed sibling list adds has unique attribute keys
/// throughout, given that what the list started from had.
pub proof fn lemma_parsed_nodes_attrs_unique(s: Seq<char>, pos: int, acc: Seq<SpecNode>)
    requires
        forall|i: int| 0 <= i < acc.len() ==> node_attrs_unique(#[trigger] acc[i]),
    ensures
        match spec_nodes(s, pos, acc) {
            NodesResult::Parsed { nodes, end } => forall|i: int|
                0 <= i < nodes.len() ==> node_attrs_unique(#[trigger] nodes[i]),
            NodesResult::Fail(_) => true,
        },
    decreases s.len() - pos, 2int,
{
    let p = pos + ws_len(s, pos);
    if p >= s.len() || crate::grammar::starts_close(s, p) {
    } else {
        match crate::grammar::spec_node(s, p) {
            NodeResult::Parsed { node, end } => {
                lemma_parsed_node_attrs_unique(s, p);
                let next = if p < end && end <= s.len() {
                    end
                } else {
                    s.len() as int
                };
                assert forall|i: int| 0 <= i < acc.push(node).len() implies node_attrs_unique(
                    #[trigger] acc.push(node)[i],
                ) by {
                    if i < acc.len() {
                        assert(acc.push(node)[i] == acc[i]);
                    }
                }
                lemma_parsed_nodes_attrs_unique(s, next, acc.push(node));
            },
            NodeResult::Fail(_) => {},
        }
    }
}

/// Every parsed node has unique attribute keys throughout.
pub proof fn lemma_parsed_node_attrs_unique(s: Seq<char>, pos: int)
    ensures
        match crate::grammar::spec_node(s, pos) {
            NodeResult::Parsed { node, end } => node_attrs_unique(node),
            NodeResult::Fail(_) => true,
        },
    decreases s.len() - pos, 1int,
{
    if 0 <= pos && pos < s.len() && s[pos] == '<' {
        lemma_parsed_element_attrs_unique(s, pos);
    }
}

/// Every parsed element has unique attribute keys throughout: its own list
/// is built by overwrite-on-repeat, and its children are parsed nodes.
pub proof fn lemma_parsed_element_attrs_unique(s: Seq<char>, pos: int)
    ensures
        match crate::grammar::spec_element(s, pos) {
            NodeResult::Parsed { node, end } => node_attrs_unique(node),
            NodeResult::Fail(_) => true,
        },
    decreases s.len() - pos, 0int,
{
    match crate::grammar::spec_expect(s, pos, '<') {
        crate::grammar::StepResult::Fail(_) => {},
        crate::grammar::StepResult::Parsed(t0) => {
            let tlen = crate::grammar::name_len(s, t0);
            lemma_parsed_attrs_keys_unique(s, t0 + tlen, Seq::empty());
            match spec_attrs(s, t0 + tlen, Seq::empty()) {
                AttrsResult::Fail(_) => {},
                AttrsResult::Parsed { attrs, end: a_end } => {
                    match crate::grammar::spec_expect(s, a_end, '>') {
                        crate::grammar::StepResult::Fail(_) => {},
                        crate::grammar::StepResult::Parsed(c0) => {
                            let c1 = if pos < c0 && c0 <= s.len() {
                                c0
                            } else {
                                s.len() as int
                            };
                            lemma_parsed_nodes_attrs_unique(s, c1, Seq::empty());
                        },
                    }
                },
            }
        },
    }
}

/// The tree invariant of the data model: every element of a parsed
/// document, the synthetic root included, has unique attribute keys.
pub proof fn lemma_document_attrs_unique(s: Seq<char>)
    ensures
        match spec_document(s) {
            DocResult::Parsed(node) => node_attrs_unique(node),
            DocResult::Fail(_) => true,
        },
{
    lemma_parsed_nodes_attrs_unique(s, 0, Seq::empty());
}

/// One step of the whitespace-run arithmetic: a run of whitespace from `i`
/// to `j` makes the skips from `i` and from `j` land on the same spot.
proof fn lemma_ws_run_skipped(s: Seq<char>, i: int, j: int)
    requires
        0 <= i <= j <= s.len(),
        forall|k: int| i <= k < j ==> is_space(#[trigger] s[k]),
    ensures
        i + ws_len(s, i) == j + ws_len(s, j),
    decreases j - i,
{
    if i < j {
        assert(!(ws_stop()(s[i])));
        lemma_ws_run_skipped(s, i + 1, j);
    }
}

/// Whitespace insensitivity between siblings: a sibling list read from
/// just before a whitespace run is the same list, ending at the same spot
/// and failing the same way, as one read from just after it. Since the
/// grammar reads every sibling this way (at the top level and inside every
/// element), lengthening or shortening the whitespace between sibling
/// boundaries never changes the resulting tree.
pub proof fn lemma_whitespace_between_siblings(
    s: Seq<char>,
    i: int,
    j: int,
    acc: Seq<SpecNode>,
)
    requires
        0 <= i <= j <= s.len(),
        forall|k: int| i <= k < j ==> is_space(#[trigger] s[k]),
    ensures
        spec_nodes(s, i, acc) == spec_nodes(s, j, acc),
{
    lemma_ws_run_skipped(s, i, j);
}

/// Exact tag matching: whatever opening tag name the document has, a
/// closing tag name that differs from it in any way (a case difference
/// included) fails the parse with `TagMismatch`, reported where the
/// closing name starts. Stated over every document of the shape
/// `<t1></t2>` with two well-formed names.
pub proof fn lemma_exact_tag_matching(t1: Seq<char>, t2: Seq<char>)
    requires
        forall|i: int| 0 <= i < t1.len() ==> !is_space(#[trigger] t1[i]) && t1[i] != '>',
        forall|i: int| 0 <= i < t2.len() ==> !is_space(#[trigger] t2[i]) && t2[i] != '>',
        t1 != t2,
        t1.len() > 0 ==> t1[0] != '/',
    ensures
        spec_document(seq!['<'] + t1 + seq!['>', '<', '/'] + t2 + seq!['>']) == DocResult::Fail(
            SpecErr { kind: ParseErrorKind::TagMismatch, pos: t1.len() + 4int },
        ),
{
    let s = seq!['<'] + t1 + seq!['>', '<', '/'] + t2 + seq!['>'];
    let n1 = t1.len() as int;
    let n2 = t2.len() as int;
    let len = s.len() as int;
    assert(len == n1 + n2 + 5);
    assert(s[0] == '<');
    assert forall|i: int| 0 <= i < n1 implies s[1 + i] == t1[i] by {}
    assert(s[n1 + 1] == '>');
    assert(s[n1 + 2] == '<');
    assert(s[n1 + 3] == '/');
    assert forall|i: int| 0 <= i < n2 implies s[n1 + 4 + i] == t2[i] by {}
    assert(s[n1 + 4 + n2] == '>');
    // the opening tag name
    lemma_scan_len_exact(s, 1, 1 + n1, crate::grammar::name_stop());
    assert(s.subrange(1, 1 + n1) =~= t1);
    // no attributes: the next significant character is the `>`
    lemma_scan_len_exact(s, 1 + n1, 1 + n1, ws_stop());
    assert(spec_attrs(s, 1 + n1, Seq::empty()) == (AttrsResult::Parsed {
        attrs: Seq::<(Seq<char>, Seq<char>)>::empty(),
        end: 1 + n1,
    }));
    // no children: the closing-tag marker stands right after the `>`
    lemma_scan_len_exact(s, n1 + 2, n1 + 2, ws_stop());
    assert(crate::grammar::starts_close(s, n1 + 2));
    assert(spec_nodes(s, n1 + 2, Seq::empty()) == (NodesResult::Parsed {
        nodes: Seq::<SpecNode>::empty(),
        end: n1 + 2,
    }));
    // the closing tag name
    lemma_scan_len_exact(s, n1 + 4, n1 + 4 + n2, crate::grammar::name_stop());
    assert(s.subrange(n1 + 4, n1 + 4 + n2) =~= t2);
    // the element fails on the name comparison
    assert(crate::grammar::spec_element(s, 0) == NodeResult::Fail(
        SpecErr { kind: ParseErrorKind::TagMismatch, pos: n1 + 4 },
    ));
    // and the failure is the document's failure
    lemma_scan_len_exact(s, 0, 0, ws_stop());
    assert(!crate::grammar::starts_close(s, 0));
    assert(crate::grammar::spec_node(s, 0) == NodeResult::Fail(
        SpecErr { kind: ParseErrorKind::TagMismatch, pos: n1 + 4 },
    ));
    assert(spec_nodes(s, 0, Seq::empty()) == NodesResult::Fail(
        SpecErr { kind: ParseErrorKind::TagMismatch, pos: n1 + 4 },
    ));
}

/// The companion of exact tag matching: a matched pair `<t></t>` never
/// fails. It parses to exactly the element with tag `t`, no attributes and
/// no children, whatever well-formed name `t` is.
pub proof fn lemma_matched_tags_parse(t: Seq<char>)
    requires
        forall|i: int| 0 <= i < t.len() ==> !is_space(#[trigger] t[i]) && t[i] != '>',
        t.len() > 0 ==> t[0] != '/',
    ensures
        spec_document(seq!['<'] + t + seq!['>', '<', '/'] + t + seq!['>']) == DocResult::Parsed(
            SpecNode::Element { tag: t, attributes: Seq::empty(), children: Seq::empty() },
        ),
{
    let s = seq!['<'] + t + seq!['>', '<', '/'] + t + seq!['>'];
    let n = t.len() as int;
    let len = s.len() as int;
    assert(len == 2 * n + 5);
    assert(s[0] == '<');
    assert forall|i: int| 0 <= i < n implies s[1 + i] == t[i] by {}
    assert(s[n + 1] == '>');
    assert(s[n + 2] == '<');
    assert(s[n + 3] == '/');
    assert forall|i: int| 0 <= i < n implies s[n + 4 + i] == t[i] by {}
    assert(s[n + 4 + n] == '>');
    // the opening tag name
    lemma_scan_len_exact(s, 1, 1 + n, crate::grammar::name_stop());
    assert(s.subrange(1, 1 + n) =~= t);
    // no attributes: the next significant character is the `>`
    lemma_scan_len_exact(s, 1 + n, 1 + n, ws_stop());
    assert(spec_attrs(s, 1 + n, Seq::empty()) == (AttrsResult::Parsed {
        attrs: Seq::<(Seq<char>, Seq<char>)>::empty(),
        end: 1 + n,
    }));
    // no children: the closing-tag marker stands right after the `>`
    lemma_scan_len_exact(s, n + 2, n + 2, ws_stop());
    assert(crate::grammar::starts_close(s, n + 2));
    assert(spec_nodes(s, n + 2, Seq::empty()) == (NodesResult::Parsed {
        nodes: Seq::<SpecNode>::empty(),
        end: n + 2,
    }));
    // the closing tag name equals the opening one
    lemma_scan_len_exact(s, n + 4, n + 4 + n, crate::grammar::name_stop());
    assert(s.subrange(n + 4, n + 4 + n) =~= t);
    let node = SpecNode::Element { tag: t, attributes: Seq::empty(), children: Seq::empty() };
    assert(crate::grammar::spec_element(s, 0) == (NodeResult::Parsed { node, end: len }));
    // the element is the whole top-level sibling list
    lemma_scan_len_exact(s, 0, 0, ws_stop());
    assert(!crate::grammar::starts_close(s, 0));
    assert(crate::grammar::spec_node(s, 0) == (NodeResult::Parsed { node, end: len }));
    lemma_scan_len_exact(s, len, len, ws_stop());
    assert(spec_nodes(s, len, Seq::empty().push(node)) == (NodesResult::Parsed {
        nodes: Seq::empty().push(node),
        end: len,
    }));
    assert(spec_nodes(s, 0, Seq::empty()) == (NodesResult::Parsed {
        nodes: Seq::empty().push(node),
        end: len,
    }));
    assert(Seq::empty().push(node)[0] == node);
}

} // verus!
