//! The grammar, stated mathematically. Every function here is a ghost mirror
//! of one step of the scanner: given the input as a sequence of code points
//! and a cursor position, it says exactly which value that step produces,
//! where the cursor ends up, and which error is reported otherwise. The
//! executable parser's contracts equate its behaviour with these functions.
//!
//! Positions are `int`: the functions are total, and a caller outside the
//! input's range gets a well-defined (if never reached) answer. The scanner
//! itself only ever stands at positions `0 ..= len`.

use vstd::prelude::*;

use crate::dom::SpecNode;

verus! {

/// What went wrong, without the position.
#[derive(Debug, Clone, Copy, PartialEq, Eq)]
pub enum ParseErrorKind {
    /// The input ended while a character, a closing tag or a quote was
    /// still required.
    UnexpectedEndOfInput,
    /// The next character did not match a required literal.
    UnexpectedCharacter,
    /// The closing tag name does not equal the opening tag name.
    TagMismatch,
}

/// A parse failure as the contracts speak of it: the kind, and the cursor
/// position at which it was detected.
pub ghost struct SpecErr {
    pub kind: ParseErrorKind,
    pub pos: int,
}

/// End of input at `p`.
pub open spec fn eoi(p: int) -> SpecErr {
    SpecErr { kind: ParseErrorKind::UnexpectedEndOfInput, pos: p }
}

/// A required literal was not at `p`.
pub open spec fn unexpected(p: int) -> SpecErr {
    SpecErr { kind: ParseErrorKind::UnexpectedCharacter, pos: p }
}

/// Whitespace, as Unicode and `char::is_whitespace` define it.
pub open spec fn is_space(c: char) -> bool {
    c == ' ' || c == '\t' || c == '\n' || c == '\u{0B}' || c == '\u{0C}' || c == '\r'
        || c == '\u{85}' || c == '\u{A0}' || c == '\u{1680}'
        || (0x2000 <= c as u32 && c as u32 <= 0x200A)
        || c == '\u{2028}' || c == '\u{2029}' || c == '\u{202F}' || c == '\u{205F}'
        || c == '\u{3000}'
}

/// How many characters a maximal run starting at `p` has, where the run
/// ends at the first character satisfying `stop` (or at end of input).
pub open spec fn scan_len(s: Seq<char>, p: int, stop: spec_fn(char) -> bool) -> nat
    decreases s.len() - p,
{
    if 0 <= p && p < s.len() && !stop(s[p]) {
        1 + scan_len(s, p + 1, stop)
    } else {
        0
    }
}

/// What stops a whitespace run: any character that is not whitespace.
pub open spec fn ws_stop() -> spec_fn(char) -> bool {
    |c: char| !is_space(c)
}

/// What stops a text run: the next `<`.
pub open spec fn text_stop() -> spec_fn(char) -> bool {
    |c: char| c == '<'
}

/// What stops a tag or key name: whitespace or `>`.
pub open spec fn name_stop() -> spec_fn(char) -> bool {
    |c: char| is_space(c) || c == '>'
}

/// What stops an attribute key: the `=`.
pub open spec fn key_stop() -> spec_fn(char) -> bool {
    |c: char| c == '='
}

/// What stops a quoted value: its own quote character `q`.
pub open spec fn quote_stop(q: char) -> spec_fn(char) -> bool {
    |c: char| c == q
}

/// Length of the whitespace run at `p`.
pub open spec fn ws_len(s: Seq<char>, p: int) -> nat {
    scan_len(s, p, ws_stop())
}

/// Length of the text run at `p` (everything up to the next `<`).
pub open spec fn text_len(s: Seq<char>, p: int) -> nat {
    scan_len(s, p, text_stop())
}

/// Length of the tag name at `p`.
pub open spec fn name_len(s: Seq<char>, p: int) -> nat {
    scan_len(s, p, name_stop())
}

/// Length of the attribute key at `p` (everything up to `=`).
pub open spec fn key_len(s: Seq<char>, p: int) -> nat {
    scan_len(s, p, key_stop())
}

/// Length of the quoted value at `p`, for the quote character `q`.
pub open spec fn quoted_len(s: Seq<char>, p: int, q: char) -> nat {
    scan_len(s, p, quote_stop(q))
}

/// The scan length is exactly the distance to the first stopping character
/// (or to the end of input when no character stops the run).
pub proof fn lemma_scan_len_exact(s: Seq<char>, p: int, q: int, stop: spec_fn(char) -> bool)
    requires
        0 <= p <= q <= s.len(),
        forall|i: int| p <= i < q ==> !stop(#[trigger] s[i]),
        q == s.len() || stop(s[q]),
    ensures
        scan_len(s, p, stop) == q - p,
    decreases q - p,
{
    if p < q {
        lemma_scan_len_exact(s, p + 1, q, stop);
    }
}

/// Where a scan ends: within the input, with no stopping character inside
/// the run, and on a stopping character (unless it ends the input).
pub proof fn lemma_scan_len_bounds(s: Seq<char>, p: int, stop: spec_fn(char) -> bool)
    requires
        0 <= p <= s.len(),
    ensures
        p + scan_len(s, p, stop) <= s.len(),
        forall|i: int| p <= i < p + scan_len(s, p, stop) ==> !stop(#[trigger] s[i]),
        p + scan_len(s, p, stop) < s.len() ==> stop(s[p + scan_len(s, p, stop)]),
    decreases s.len() - p,
{
    if p < s.len() && !stop(s[p]) {
        lemma_scan_len_bounds(s, p + 1, stop);
    }
}

/// Whether the characters at `p` are the closing-tag marker `</`.
pub open spec fn starts_close(s: Seq<char>, p: int) -> bool {
    0 <= p && p + 1 < s.len() && s[p] == '<' && s[p + 1] == '/'
}

/// Consuming one required literal character: the position after it, or the
/// error naming the position where it was missed.
pub ghost enum StepResult {
    Parsed(int),
    Fail(SpecErr),
}

/// One required literal `c` at `pos`.
pub open spec fn spec_expect(s: Seq<char>, pos: int, c: char) -> StepResult {
    if !(0 <= pos && pos < s.len()) {
        StepResult::Fail(eoi(pos))
    } else if s[pos] != c {
        StepResult::Fail(unexpected(pos))
    } else {
        StepResult::Parsed(pos + 1)
    }
}

/// A quoted attribute value, or the first error on the way.
#[verifier::ext_equal]
pub ghost enum ValueResult {
    Parsed { value: Seq<char>, end: int },
    Fail(SpecErr),
}

/// A quoted value: one quote character (`'` or `"`), a maximal run up to the
/// matching quote, then that same quote again.
pub open spec fn spec_value(s: Seq<char>, pos: int) -> ValueResult {
    if !(0 <= pos && pos < s.len()) {
        ValueResult::Fail(eoi(pos))
    } else if s[pos] != '\'' && s[pos] != '"' {
        ValueResult::Fail(unexpected(pos))
    } else {
        let q = s[pos];
        let vlen = quoted_len(s, pos + 1, q);
        match spec_expect(s, pos + 1 + vlen, q) {
            StepResult::Parsed(end) => ValueResult::Parsed {
                value: s.subrange(pos + 1, pos + 1 + vlen),
                end,
            },
            StepResult::Fail(e) => ValueResult::Fail(e),
        }
    }
}

/// One `key=value` pair, or the first error on the way.
#[verifier::ext_equal]
pub ghost enum AttrResult {
    Parsed { key: Seq<char>, value: Seq<char>, end: int },
    Fail(SpecErr),
}

/// One attribute: a key (everything up to `=`), the literal `=`, then a
/// quoted value.
pub open spec fn spec_attr(s: Seq<char>, pos: int) -> AttrResult {
    let klen = key_len(s, pos);
    let key = s.subrange(pos, pos + klen);
    match spec_expect(s, pos + klen, '=') {
        StepResult::Parsed(p) => match spec_value(s, p) {
            ValueResult::Parsed { value, end } => AttrResult::Parsed { key, value, end },
            ValueResult::Fail(e) => AttrResult::Fail(e),
        },
        StepResult::Fail(e) => AttrResult::Fail(e),
    }
}

/// The first index in `ps` holding key `k`, or `ps.len()` when none does.
pub open spec fn key_index(ps: Seq<(Seq<char>, Seq<char>)>, k: Seq<char>) -> int
    decreases ps.len(),
{
    if ps.len() == 0 {
        0
    } else if ps[0].0 == k {
        0
    } else {
        1 + key_index(ps.subrange(1, ps.len() as int), k)
    }
}

/// `key_index` points at the first pair holding `k`, and at `ps.len()` when
/// no pair does.
pub proof fn lemma_key_index(ps: Seq<(Seq<char>, Seq<char>)>, k: Seq<char>)
    ensures
        0 <= key_index(ps, k) <= ps.len(),
        key_index(ps, k) < ps.len() ==> ps[key_index(ps, k)].0 == k,
        forall|j: int| 0 <= j < key_index(ps, k) ==> (#[trigger] ps[j]).0 != k,
    decreases ps.len(),
{
    if ps.len() > 0 && ps[0].0 != k {
        let rest = ps.subrange(1, ps.len() as int);
        lemma_key_index(rest, k);
        assert forall|j: int| 0 <= j < key_index(ps, k) implies (#[trigger] ps[j]).0 != k by {
            if j > 0 {
                assert(rest[j - 1] == ps[j]);
            }
        }
    }
}

/// Inserting into the attribute list with overwrite-on-repeat: a repeated
/// key keeps its place and takes the new value; a new key goes to the end.
pub open spec fn upsert(
    ps: Seq<(Seq<char>, Seq<char>)>,
    k: Seq<char>,
    v: Seq<char>,
) -> Seq<(Seq<char>, Seq<char>)> {
    if key_index(ps, k) < ps.len() {
        ps.update(key_index(ps, k), (k, v))
    } else {
        ps.push((k, v))
    }
}

/// A finished attribute list, standing just before `>`, or the first error.
#[verifier::ext_equal]
pub ghost enum AttrsResult {
    Parsed { attrs: Seq<(Seq<char>, Seq<char>)>, end: int },
    Fail(SpecErr),
}

/// An attribute list: while the next significant character is not `>`, skip
/// whitespace, parse one pair, and insert it (overwriting a repeated key).
/// `acc` carries the pairs gathered so far. On success the cursor stands on
/// the `>` itself.
pub open spec fn spec_attrs(
    s: Seq<char>,
    pos: int,
    acc: Seq<(Seq<char>, Seq<char>)>,
) -> AttrsResult
    decreases s.len() - pos,
{
    let p = pos + ws_len(s, pos);
    if p >= s.len() {
        AttrsResult::Fail(eoi(p))
    } else if s[p] == '>' {
        AttrsResult::Parsed { attrs: acc, end: p }
    } else {
        match spec_attr(s, p) {
            AttrResult::Parsed { key, value, end } => {
                let next = if p < end && end <= s.len() {
                    end
                } else {
                    s.len() as int
                };
                spec_attrs(s, next, upsert(acc, key, value))
            },
            AttrResult::Fail(e) => AttrsResult::Fail(e),
        }
    }
}

/// A text run: the maximal run up to the next `<`, as a text node,
/// and the position after it. Never fails.
pub open spec fn spec_text(s: Seq<char>, pos: int) -> (SpecNode, int) {
    let tlen = text_len(s, pos);
    (SpecNode::Text(s.subrange(pos, pos + tlen)), pos + tlen)
}

/// One parsed node, or the first error on the way.
#[verifier::ext_equal]
pub ghost enum NodeResult {
    Parsed { node: SpecNode, end: int },
    Fail(SpecErr),
}

/// A parsed sibling list, or the first error on the way.
#[verifier::ext_equal]
pub ghost enum NodesResult {
    Parsed { nodes: Seq<SpecNode>, end: int },
    Fail(SpecErr),
}

/// A sibling list: repeatedly skip whitespace and parse one node, until end
/// of input or the closing-tag marker `</`. `acc` carries the siblings
/// gathered so far, in document order.
pub open spec fn spec_nodes(s: Seq<char>, pos: int, acc: Seq<SpecNode>) -> NodesResult
    decreases s.len() - pos, 2int,
{
    let p = pos + ws_len(s, pos);
    if p >= s.len() || starts_close(s, p) {
        NodesResult::Parsed { nodes: acc, end: p }
    } else {
        match spec_node(s, p) {
            NodeResult::Parsed { node, end } => {
                let next = if p < end && end <= s.len() {
                    end
                } else {
                    s.len() as int
                };
                spec_nodes(s, next, acc.push(node))
            },
            NodeResult::Fail(e) => NodesResult::Fail(e),
        }
    }
}

/// One node: `<` begins an element, anything else begins a text run.
pub open spec fn spec_node(s: Seq<char>, pos: int) -> NodeResult
    decreases s.len() - pos, 1int,
{
    if !(0 <= pos && pos < s.len()) {
        NodeResult::Fail(eoi(pos))
    } else if s[pos] == '<' {
        spec_element(s, pos)
    } else {
        let (node, end) = spec_text(s, pos);
        NodeResult::Parsed { node, end }
    }
}

/// One element: `< tagname attributes* > nodes* </ tagname >`.
/// The closing name must equal the opening name exactly; otherwise the
/// failure is `TagMismatch` at the position where the closing name starts.
pub open spec fn spec_element(s: Seq<char>, pos: int) -> NodeResult
    decreases s.len() - pos, 0int,
{
    match spec_expect(s, pos, '<') {
        StepResult::Fail(e) => NodeResult::Fail(e),
        StepResult::Parsed(t0) => {
            let tlen = name_len(s, t0);
            let tag = s.subrange(t0, t0 + tlen);
            match spec_attrs(s, t0 + tlen, Seq::empty()) {
                AttrsResult::Fail(e) => NodeResult::Fail(e),
                AttrsResult::Parsed { attrs, end: a_end } => match spec_expect(s, a_end, '>') {
                    StepResult::Fail(e) => NodeResult::Fail(e),
                    StepResult::Parsed(c0) => {
                        let c1 = if pos < c0 && c0 <= s.len() {
                            c0
                        } else {
                            s.len() as int
                        };
                        match spec_nodes(s, c1, Seq::empty()) {
                            NodesResult::Fail(e) => NodeResult::Fail(e),
                            NodesResult::Parsed { nodes: children, end: k0 } => match spec_expect(
                                s,
                                k0,
                                '<',
                            ) {
                                StepResult::Fail(e) => NodeResult::Fail(e),
                                StepResult::Parsed(k1) => match spec_expect(s, k1, '/') {
                                    StepResult::Fail(e) => NodeResult::Fail(e),
                                    StepResult::Parsed(k2) => {
                                        let clen = name_len(s, k2);
                                        let close = s.subrange(k2, k2 + clen);
                                        if close != tag {
                                            NodeResult::Fail(
                                                SpecErr {
                                                    kind: ParseErrorKind::TagMismatch,
                                                    pos: k2,
                                                },
                                            )
                                        } else {
                                            match spec_expect(s, k2 + clen, '>') {
                                                StepResult::Fail(e) => NodeResult::Fail(e),
                                                StepResult::Parsed(fin) => NodeResult::Parsed {
                                                    node: SpecNode::Element {
                                                        tag,
                                                        attributes: attrs,
                                                        children,
                                                    },
                                                    end: fin,
                                                },
                                            }
                                        }
                                    },
                                },
                            },
                        }
                    },
                },
            }
        },
    }
}

/// The synthetic root's tag.
pub open spec fn html_tag() -> Seq<char> {
    seq!['h', 't', 'm', 'l']
}

/// The whole document, or the first error.
#[verifier::ext_equal]
pub ghost enum DocResult {
    Parsed(SpecNode),
    Fail(SpecErr),
}

/// The document: the top-level sibling list; a single node is the root as it
/// stands, any other count is wrapped in a synthetic `html` element with no
/// attributes.
pub open spec fn spec_document(s: Seq<char>) -> DocResult {
    match spec_nodes(s, 0, Seq::empty()) {
        NodesResult::Parsed { nodes, end } => {
            if nodes.len() == 1 {
                DocResult::Parsed(nodes[0])
            } else {
                DocResult::Parsed(
                    SpecNode::Element {
                        tag: html_tag(),
                        attributes: Seq::empty(),
                        children: nodes,
                    },
                )
            }
        },
        NodesResult::Fail(e) => DocResult::Fail(e),
    }
}

} // verus!
