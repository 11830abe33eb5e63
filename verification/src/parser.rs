//! The scanner/parser. It walks the input once, cursor advancing
//! monotonically, and builds one tree per call. Every function's contract
//! equates what it does with the corresponding function of `grammar`.

use vstd::prelude::*;
use vstd::string::StrSliceExecFns;
use vstd::string::StringExecFns;

use crate::dom::Node;
use crate::dom::attrs_view;
use crate::dom::create_text_element;
use crate::dom::create_text_node;
use crate::dom::deep_nodes;
use crate::dom::lemma_deep_nodes_index;
use crate::dom::SpecNode;
use crate::grammar::AttrResult;
use crate::grammar::AttrsResult;
use crate::grammar::DocResult;
use crate::grammar::NodeResult;
use crate::grammar::NodesResult;
use crate::grammar::ParseErrorKind;
use crate::grammar::SpecErr;
use crate::grammar::StepResult;
use crate::grammar::ValueResult;
use crate::grammar::html_tag;
use crate::grammar::is_space;
use crate::grammar::key_len;
use crate::grammar::key_stop;
use crate::grammar::key_index;
use crate::grammar::lemma_key_index;
use crate::grammar::lemma_scan_len_exact;
use crate::grammar::name_len;
use crate::grammar::name_stop;
use crate::grammar::quote_stop;
use crate::grammar::spec_attr;
use crate::grammar::spec_attrs;
use crate::grammar::spec_document;
use crate::grammar::spec_element;
use crate::grammar::spec_expect;
use crate::grammar::spec_node;
use crate::grammar::spec_nodes;
use crate::grammar::spec_text;
use crate::grammar::spec_value;
use crate::grammar::starts_close;
use crate::grammar::text_stop;
use crate::grammar::upsert;
use crate::grammar::ws_len;
use crate::grammar::ws_stop;

verus! {

/// A parse failure: the kind, and the cursor position (a character index
/// into the input) at which it was detected.
#[derive(Debug, Clone, Copy, PartialEq, Eq)]
pub struct ParseError {
    pub kind: ParseErrorKind,
    pub pos: usize,
}

impl View for ParseError {
    type V = SpecErr;

    open spec fn view(&self) -> SpecErr {
        SpecErr { kind: self.kind, pos: self.pos as int }
    }
}

/// Whether `c` is whitespace. Mirrors `is_space` of the grammar, which in
/// turn lists the code points `char::is_whitespace` accepts.
fn is_space_char(c: char) -> (r: bool)
    ensures
        r == is_space(c),
{
    c == ' ' || c == '\t' || c == '\n' || c == '\u{0B}' || c == '\u{0C}' || c == '\r'
        || c == '\u{85}' || c == '\u{A0}' || c == '\u{1680}'
        || (0x2000 <= c as u32 && c as u32 <= 0x200A)
        || c == '\u{2028}' || c == '\u{2029}' || c == '\u{202F}' || c == '\u{205F}'
        || c == '\u{3000}'
}

/// The scanner state: an immutable input and a cursor that only moves
/// forward, counted in characters.
struct HtmlParser {
    pos: usize,
    source: String,
}

impl HtmlParser {
    /// The cursor stays within `0 ..= len`; the character count fits the
    /// machine (established once, when the scanner is made).
    spec fn wf(self) -> bool {
        self.pos <= self.source@.len() && self.source@.len() <= usize::MAX
    }

    /// Whether the whole input has been consumed.
    fn eof(&self) -> (r: bool)
        ensures
            r == (self.pos >= self.source@.len()),
    {
        self.pos >= self.source.as_str().unicode_len()
    }

    /// The character under the cursor.
    fn next_char(&self) -> (c: char)
        requires
            self.wf(),
            self.pos < self.source@.len(),
        ensures
            c == self.source@[self.pos as int],
    {
        self.source.as_str().get_char(self.pos)
    }

    /// The character under the cursor, advancing past it.
    fn consume_char(&mut self) -> (c: char)
        requires
            old(self).wf(),
            old(self).pos < old(self).source@.len(),
        ensures
            final(self).wf(),
            final(self).source == old(self).source,
            final(self).pos == old(self).pos + 1,
            c == old(self).source@[old(self).pos as int],
    {
        let c = self.next_char();
        self.pos = self.pos + 1;
        c
    }

    /// Requires the literal `c` under the cursor and steps over it;
    /// otherwise reports what the grammar's `spec_expect` reports.
    fn expect(&mut self, c: char) -> (r: Result<(), ParseError>)
        requires
            old(self).wf(),
        ensures
            final(self).wf(),
            final(self).source == old(self).source,
            match r {
                Ok(()) => spec_expect(old(self).source@, old(self).pos as int, c)
                    == StepResult::Parsed(final(self).pos as int) && final(self).pos == old(
                    self,
                ).pos + 1,
                Err(e) => spec_expect(old(self).source@, old(self).pos as int, c)
                    == StepResult::Fail(e@) && final(self).pos == old(self).pos,
            },
    {
        if self.eof() {
            return Err(ParseError { kind: ParseErrorKind::UnexpectedEndOfInput, pos: self.pos });
        }
        let got = self.next_char();
        if got != c {
            return Err(ParseError { kind: ParseErrorKind::UnexpectedCharacter, pos: self.pos });
        }
        self.pos = self.pos + 1;
        Ok(())
    }

    /// Steps over the whitespace run under the cursor, if any.
    fn consume_whitespace(&mut self)
        requires
            old(self).wf(),
        ensures
            final(self).wf(),
            final(self).source == old(self).source,
            final(self).pos == old(self).pos + ws_len(old(self).source@, old(self).pos as int),
    {
        let ghost src = self.source;
        let ghost s = self.source@;
        let ghost start = self.pos as int;
        loop
            invariant
                self.wf(),
                self.source == src,
                self.source@ == s,
                start <= self.pos,
                forall|i: int| start <= i < self.pos ==> is_space(#[trigger] s[i]),
            ensures
                self.wf(),
                self.source == src,
                self.source@ == s,
                start <= self.pos,
                forall|i: int| start <= i < self.pos ==> is_space(#[trigger] s[i]),
                self.pos == s.len() || !is_space(s[self.pos as int]),
            decreases s.len() - self.pos,
        {
            if self.eof() {
                break;
            }
            let c = self.next_char();
            if !is_space_char(c) {
                break;
            }
            self.pos = self.pos + 1;
        }
        proof {
            lemma_scan_len_exact(s, start, self.pos as int, ws_stop());
        }
    }

    /// Whether the closing-tag marker `</` stands under the cursor. A
    /// non-destructive peek: the cursor does not move.
    fn starts_with_close(&self) -> (r: bool)
        requires
            self.wf(),
        ensures
            r == starts_close(self.source@, self.pos as int),
    {
        let n = self.source.as_str().unicode_len();
        if self.pos >= n || self.pos + 1 >= n {
            return false;
        }
        self.source.as_str().get_char(self.pos) == '<' && self.source.as_str().get_char(
            self.pos + 1,
        ) == '/'
    }

    /// Reads a tag or key name: the maximal run of non-whitespace,
    /// non-`>` characters under the cursor.
    fn parse_tag_name(&mut self) -> (r: String)
        requires
            old(self).wf(),
        ensures
            final(self).wf(),
            final(self).source == old(self).source,
            final(self).pos == old(self).pos + name_len(old(self).source@, old(self).pos as int),
            r@ == old(self).source@.subrange(old(self).pos as int, final(self).pos as int),
    {
        let ghost src = self.source;
        let ghost s = self.source@;
        let start = self.pos;
        loop
            invariant
                self.wf(),
                self.source == src,
                self.source@ == s,
                start <= self.pos,
                forall|i: int| start <= i < self.pos ==> !(name_stop()(#[trigger] s[i])),
            ensures
                self.wf(),
                self.source == src,
                self.source@ == s,
                start <= self.pos,
                forall|i: int| start <= i < self.pos ==> !(name_stop()(#[trigger] s[i])),
                self.pos == s.len() || name_stop()(s[self.pos as int]),
            decreases s.len() - self.pos,
        {
            if self.eof() {
                break;
            }
            let c = self.next_char();
            if is_space_char(c) || c == '>' {
                break;
            }
            self.pos = self.pos + 1;
        }
        proof {
            lemma_scan_len_exact(s, start as int, self.pos as int, name_stop());
        }
        let sub = self.source.as_str().substring_char(start, self.pos);
        String::from_str(sub)
    }

    /// Reads an attribute key: the maximal run up to the next `=`.
    fn parse_key(&mut self) -> (r: String)
        requires
            old(self).wf(),
        ensures
            final(self).wf(),
            final(self).source == old(self).source,
            final(self).pos == old(self).pos + key_len(old(self).source@, old(self).pos as int),
            r@ == old(self).source@.subrange(old(self).pos as int, final(self).pos as int),
    {
        let ghost src = self.source;
        let ghost s = self.source@;
        let start = self.pos;
        loop
            invariant
                self.wf(),
                self.source == src,
                self.source@ == s,
                start <= self.pos,
                forall|i: int| start <= i < self.pos ==> !(key_stop()(#[trigger] s[i])),
            ensures
                self.wf(),
                self.source == src,
                self.source@ == s,
                start <= self.pos,
                forall|i: int| start <= i < self.pos ==> !(key_stop()(#[trigger] s[i])),
                self.pos == s.len() || key_stop()(s[self.pos as int]),
            decreases s.len() - self.pos,
        {
            if self.eof() {
                break;
            }
            let c = self.next_char();
            if c == '=' {
                break;
            }
            self.pos = self.pos + 1;
        }
        proof {
            lemma_scan_len_exact(s, start as int, self.pos as int, key_stop());
        }
        let sub = self.source.as_str().substring_char(start, self.pos);
        String::from_str(sub)
    }

    /// Reads a text node: the maximal run up to the next `<`, possibly
    /// empty. Never fails.
    fn parse_text_node(&mut self) -> (n: Node)
        requires
            old(self).wf(),
        ensures
            final(self).wf(),
            final(self).source == old(self).source,
            old(self).pos <= final(self).pos,
            ({
                let (sn, end) = spec_text(old(self).source@, old(self).pos as int);
                n.deep() == sn && final(self).pos as int == end
            }),
    {
        let ghost src = self.source;
        let ghost s = self.source@;
        let start = self.pos;
        loop
            invariant
                self.wf(),
                self.source == src,
                self.source@ == s,
                start <= self.pos,
                forall|i: int| start <= i < self.pos ==> !(text_stop()(#[trigger] s[i])),
            ensures
                self.wf(),
                self.source == src,
                self.source@ == s,
                start <= self.pos,
                forall|i: int| start <= i < self.pos ==> !(text_stop()(#[trigger] s[i])),
                self.pos == s.len() || text_stop()(s[self.pos as int]),
            decreases s.len() - self.pos,
        {
            if self.eof() {
                break;
            }
            let c = self.next_char();
            if c == '<' {
                break;
            }
            self.pos = self.pos + 1;
        }
        proof {
            lemma_scan_len_exact(s, start as int, self.pos as int, text_stop());
        }
        let sub = self.source.as_str().substring_char(start, self.pos);
        create_text_node(String::from_str(sub))
    }

    /// Reads a quoted attribute value: a quote character (`'` or `"`), a
    /// maximal run up to the matching quote, then that same quote.
    fn parse_value(&mut self) -> (r: Result<String, ParseError>)
        requires
            old(self).wf(),
        ensures
            final(self).wf(),
            final(self).source == old(self).source,
            old(self).pos <= final(self).pos,
            match r {
                Ok(v) => spec_value(old(self).source@, old(self).pos as int)
                    == (ValueResult::Parsed { value: v@, end: final(self).pos as int }) && old(
                    self,
                ).pos < final(self).pos,
                Err(e) => spec_value(old(self).source@, old(self).pos as int)
                    == ValueResult::Fail(e@),
            },
    {
        let ghost src = self.source;
        let ghost s = self.source@;
        if self.eof() {
            return Err(ParseError { kind: ParseErrorKind::UnexpectedEndOfInput, pos: self.pos });
        }
        let quote = self.next_char();
        if quote != '\'' && quote != '"' {
            return Err(ParseError { kind: ParseErrorKind::UnexpectedCharacter, pos: self.pos });
        }
        self.pos = self.pos + 1;
        let start = self.pos;
        loop
            invariant
                self.wf(),
                self.source == src,
                self.source@ == s,
                start <= self.pos,
                forall|i: int| start <= i < self.pos ==> !(quote_stop(quote)(#[trigger] s[i])),
            ensures
                self.wf(),
                self.source == src,
                self.source@ == s,
                start <= self.pos,
                forall|i: int| start <= i < self.pos ==> !(quote_stop(quote)(#[trigger] s[i])),
                self.pos == s.len() || quote_stop(quote)(s[self.pos as int]),
            decreases s.len() - self.pos,
        {
            if self.eof() {
                break;
            }
            let c = self.next_char();
            if c == quote {
                break;
            }
            self.pos = self.pos + 1;
        }
        proof {
            lemma_scan_len_exact(s, start as int, self.pos as int, quote_stop(quote));
        }
        let sub = self.source.as_str().substring_char(start, self.pos);
        let value = String::from_str(sub);
        match self.expect(quote) {
            Ok(()) => Ok(value),
            Err(e) => Err(e),
        }
    }

    /// Reads one `key=value` attribute.
    fn parse_attribute(&mut self) -> (r: Result<(String, String), ParseError>)
        requires
            old(self).wf(),
        ensures
            final(self).wf(),
            final(self).source == old(self).source,
            old(self).pos <= final(self).pos,
            match r {
                Ok(kv) => spec_attr(old(self).source@, old(self).pos as int) == (AttrResult::Parsed {
                    key: kv.0@,
                    value: kv.1@,
                    end: final(self).pos as int,
                }) && old(self).pos < final(self).pos,
                Err(e) => spec_attr(old(self).source@, old(self).pos as int) == AttrResult::Fail(
                    e@,
                ),
            },
    {
        let key = self.parse_key();
        if let Err(e) = self.expect('=') {
            return Err(e);
        }
        match self.parse_value() {
            Ok(value) => Ok((key, value)),
            Err(e) => Err(e),
        }
    }

    /// Reads the attribute list of an open tag: while the next significant
    /// character is not `>`, skip whitespace, read one pair, and insert it
    /// (a repeated key is overwritten: the last occurrence wins). On
    /// success the cursor stands on the `>` itself.
    #[verifier::loop_isolation(false)]
    fn parse_attributes(&mut self) -> (r: Result<Vec<(String, String)>, ParseError>)
        requires
            old(self).wf(),
        ensures
            final(self).wf(),
            final(self).source == old(self).source,
            old(self).pos <= final(self).pos,
            match r {
                Ok(attrs) => spec_attrs(old(self).source@, old(self).pos as int, Seq::empty())
                    == (AttrsResult::Parsed {
                    attrs: attrs_view(attrs@),
                    end: final(self).pos as int,
                }) && final(self).pos < final(self).source@.len()
                    && final(self).source@[final(self).pos as int] == '>',
                Err(e) => spec_attrs(old(self).source@, old(self).pos as int, Seq::empty())
                    == AttrsResult::Fail(e@),
            },
    {
        let ghost src = self.source;
        let ghost s = self.source@;
        let ghost pos0 = self.pos as int;
        let mut attrs: Vec<(String, String)> = Vec::new();
        proof {
            assert(attrs_view(attrs@) =~= Seq::<(Seq<char>, Seq<char>)>::empty());
        }
        loop
            invariant
                self.wf(),
                self.source == src,
                self.source@ == s,
                pos0 <= self.pos,
                spec_attrs(s, pos0, Seq::empty()) == spec_attrs(
                    s,
                    self.pos as int,
                    attrs_view(attrs@),
                ),
            decreases s.len() - self.pos,
        {
            let ghost cur = self.pos as int;
            self.consume_whitespace();
            if self.eof() {
                return Err(
                    ParseError { kind: ParseErrorKind::UnexpectedEndOfInput, pos: self.pos },
                );
            }
            let c = self.next_char();
            if c == '>' {
                return Ok(attrs);
            }
            let (key, value) = match self.parse_attribute() {
                Ok(kv) => kv,
                Err(e) => return Err(e),
            };
            insert_attr(&mut attrs, key, value);
        }
    }

    /// Reads sibling nodes until end of input or the closing-tag marker
    /// `</`, skipping the whitespace between them.
    #[verifier::loop_isolation(false)]
    fn parse_nodes(&mut self) -> (r: Result<Vec<Node>, ParseError>)
        requires
            old(self).wf(),
        ensures
            final(self).wf(),
            final(self).source == old(self).source,
            old(self).pos <= final(self).pos,
            match r {
                Ok(ns) => spec_nodes(old(self).source@, old(self).pos as int, Seq::empty())
                    == (NodesResult::Parsed {
                    nodes: deep_nodes(ns@),
                    end: final(self).pos as int,
                }),
                Err(e) => spec_nodes(old(self).source@, old(self).pos as int, Seq::empty())
                    == NodesResult::Fail(e@),
            },
        decreases self.source@.len() - self.pos, 2int,
    {
        let ghost src = self.source;
        let ghost s = self.source@;
        let ghost pos0 = self.pos as int;
        let mut nodes: Vec<Node> = Vec::new();
        proof {
            assert(deep_nodes(nodes@) =~= Seq::<SpecNode>::empty());
        }
        loop
            invariant
                self.wf(),
                self.source == src,
                self.source@ == s,
                pos0 <= self.pos,
                spec_nodes(s, pos0, Seq::empty()) == spec_nodes(
                    s,
                    self.pos as int,
                    deep_nodes(nodes@),
                ),
            decreases s.len() - self.pos,
        {
            self.consume_whitespace();
            if self.eof() || self.starts_with_close() {
                return Ok(nodes);
            }
            let node = match self.parse_node() {
                Ok(n) => n,
                Err(e) => return Err(e),
            };
            let ghost before = nodes@;
            let ghost nd = node.deep();
            nodes.push(node);
            proof {
                lemma_deep_nodes_index(before);
                lemma_deep_nodes_index(nodes@);
                assert(deep_nodes(nodes@) =~= deep_nodes(before).push(nd));
            }
        }
    }

    /// Reads one node: `<` begins an element, anything else a text run.
    fn parse_node(&mut self) -> (r: Result<Node, ParseError>)
        requires
            old(self).wf(),
        ensures
            final(self).wf(),
            final(self).source == old(self).source,
            old(self).pos <= final(self).pos,
            match r {
                Ok(n) => spec_node(old(self).source@, old(self).pos as int)
                    == (NodeResult::Parsed { node: n.deep(), end: final(self).pos as int }) && old(
                    self,
                ).pos < final(self).pos,
                Err(e) => spec_node(old(self).source@, old(self).pos as int) == NodeResult::Fail(
                    e@,
                ),
            },
        decreases self.source@.len() - self.pos, 1int,
    {
        if self.eof() {
            return Err(ParseError { kind: ParseErrorKind::UnexpectedEndOfInput, pos: self.pos });
        }
        let c = self.next_char();
        if c == '<' {
            self.parse_element_node()
        } else {
            Ok(self.parse_text_node())
        }
    }

    /// Reads one element: `< tagname attributes* > nodes* </ tagname >`.
    /// A closing name different from the opening name is a `TagMismatch`
    /// at the position where the closing name starts.
    fn parse_element_node(&mut self) -> (r: Result<Node, ParseError>)
        requires
            old(self).wf(),
        ensures
            final(self).wf(),
            final(self).source == old(self).source,
            old(self).pos <= final(self).pos,
            match r {
                Ok(n) => spec_element(old(self).source@, old(self).pos as int)
                    == (NodeResult::Parsed { node: n.deep(), end: final(self).pos as int }) && old(
                    self,
                ).pos < final(self).pos,
                Err(e) => spec_element(old(self).source@, old(self).pos as int)
                    == NodeResult::Fail(e@),
            },
        decreases self.source@.len() - self.pos, 0int,
    {
        if let Err(e) = self.expect('<') {
            return Err(e);
        }
        let tag_name = self.parse_tag_name();
        let attributes = match self.parse_attributes() {
            Ok(a) => a,
            Err(e) => return Err(e),
        };
        if let Err(e) = self.expect('>') {
            return Err(e);
        }
        let children = match self.parse_nodes() {
            Ok(c) => c,
            Err(e) => return Err(e),
        };
        if let Err(e) = self.expect('<') {
            return Err(e);
        }
        if let Err(e) = self.expect('/') {
            return Err(e);
        }
        let close_start = self.pos;
        let closing = self.parse_tag_name();
        if !(closing == tag_name) {
            return Err(ParseError { kind: ParseErrorKind::TagMismatch, pos: close_start });
        }
        if let Err(e) = self.expect('>') {
            return Err(e);
        }
        Ok(create_text_element(tag_name, attributes, children))
    }
}

/// Parses a whole document and returns its root: the single top-level node
/// when there is exactly one, and otherwise a synthetic `html` element
/// (empty attributes) wrapping the top-level nodes in order. Malformed
/// input gives the error the grammar names, with the position at which it
/// was detected.
pub fn parse(source: &str) -> (r: Result<Node, ParseError>)
    ensures
        (match spec_document(source@) {
            DocResult::Parsed(node) => r matches Ok(n) && n.deep() == node,
            DocResult::Fail(e) => r matches Err(pe) && pe@ == e,
        }),
{
    let owned = String::from_str(source);
    // counting the characters once shows that the count fits the machine,
    // which the cursor bound needs
    let _n = owned.as_str().unicode_len();
    let mut parser = HtmlParser { pos: 0, source: owned };
    let mut nodes = match parser.parse_nodes() {
        Ok(ns) => ns,
        Err(e) => return Err(e),
    };
    proof {
        lemma_deep_nodes_index(nodes@);
    }
    if nodes.len() == 1 {
        Ok(nodes.swap_remove(0))
    } else {
        let tag = String::from_str("html");
        let attributes: Vec<(String, String)> = Vec::new();
        proof {
            reveal_strlit("html");
            assert(tag@ =~= html_tag());
            assert(attrs_view(attributes@) =~= Seq::<(Seq<char>, Seq<char>)>::empty());
        }
        Ok(create_text_element(tag, attributes, nodes))
    }
}

/// Puts one pair into the attribute list the way the grammar's `upsert`
/// says: a repeated key keeps its place and takes the new value, a new key
/// goes to the end.
fn insert_attr(attrs: &mut Vec<(String, String)>, key: String, value: String)
    ensures
        attrs_view(final(attrs)@) == upsert(attrs_view(old(attrs)@), key@, value@),
{
    let ghost ps = attrs_view(old(attrs)@);
    let mut i: usize = 0;
    loop
        invariant
            i <= attrs@.len(),
            attrs@ == old(attrs)@,
            forall|j: int| 0 <= j < i ==> (#[trigger] attrs@[j]).0@ != key@,
        ensures
            attrs@ == old(attrs)@,
            i <= attrs@.len(),
            forall|j: int| 0 <= j < i ==> (#[trigger] attrs@[j]).0@ != key@,
            i < attrs@.len() ==> attrs@[i as int].0@ == key@,
            i == attrs@.len() ==> forall|j: int|
                0 <= j < attrs@.len() ==> (#[trigger] attrs@[j]).0@ != key@,
        decreases attrs@.len() - i,
    {
        if i >= attrs.len() {
            break;
        }
        if attrs[i].0 == key {
            break;
        }
        i = i + 1;
    }
    proof {
        lemma_key_index(ps, key@);
        assert forall|j: int| 0 <= j < ps.len() implies ps[j].0 == attrs@[j].0@ by {}
    }
    if i < attrs.len() {
        proof {
            assert(key_index(ps, key@) == i) by {
                if key_index(ps, key@) < i as int {
                    assert(ps[key_index(ps, key@)].0 == key@);
                    assert(attrs@[key_index(ps, key@)].0@ != key@);
                }
                if key_index(ps, key@) > i as int {
                    assert(ps[i as int].0 != key@);
                    assert(attrs@[i as int].0@ == key@);
                }
            }
        }
        attrs[i] = (key, value);
        proof {
            assert(attrs_view(attrs@) =~= upsert(ps, key@, value@));
        }
    } else {
        attrs.push((key, value));
        proof {
            assert(key_index(ps, key@) == ps.len());
            assert(attrs_view(attrs@) =~= upsert(ps, key@, value@));
        }
    }
}

} // verus!

