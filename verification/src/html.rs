//! A parser for a small subset of HTML: elements with attributes, and text.
//!
//! Comments, processing instructions and character entities are not
//! supported, and the only doctype that is recognised is that of HTML.
//!
//! Every function that parses comes in two forms. The form with the plain
//! name is for markup that is well formed: markup that is not is left out by
//! its precondition. The form whose name starts with `try_` takes any input
//! and returns `None`, and no part of a document, for markup that is not well
//! formed. No function panics.

use vstd::prelude::*;
use vstd::string::StrSliceExecFns;
use crate::dom::{
    document_root_of, lemma_node_children, node_views, numbered, AttributeMap, DataView,
    DocumentNode, DocumentTree, NodeView,
};
use crate::scan::{
    alphanumeric, char_at, chars_of, is_alphanumeric, lemma_run_end, push_char, run_end,
    stands_at, CharClass,
};

verus! {

/// Where the nodes start: after white space and after the doctype, where
/// there is one.
pub open spec fn doctype_end(input: Seq<char>, pos: nat) -> nat {
    let start = run_end(input, pos, CharClass::Whitespace);
    if stands_at(input, start, "<!DOCTYPE html>"@) {
        start + "<!DOCTYPE html>"@.len()
    } else {
        start
    }
}

/// A quoted value at `pos`, with the position after it: a quote of either
/// kind, the characters up to the next quote of that kind, and that quote.
pub open spec fn quotation_at(input: Seq<char>, pos: nat) -> Option<(Seq<char>, nat)> {
    if char_at(input, pos, '"') || char_at(input, pos, '\'') {
        let end = run_end(input, pos + 1, CharClass::Except(input[pos as int]));
        if end < input.len() {
            Some((input.subrange((pos + 1) as int, end as int), end + 1))
        } else {
            None
        }
    } else {
        None
    }
}

/// An attribute at `pos`, as its name and its value, with the position after
/// it: a name, an equals sign, and a quoted value.
pub open spec fn attribute_at(input: Seq<char>, pos: nat) -> Option<
    ((Seq<char>, Seq<char>), nat),
> {
    let name_end = run_end(input, pos, CharClass::Name);
    if char_at(input, name_end, '=') {
        match quotation_at(input, name_end + 1) {
            Some((value, end)) => Some(((input.subrange(pos as int, name_end as int), value), end)),
            None => None,
        }
    } else {
        None
    }
}

/// The attributes from `pos` on, added to `found`, with the position after
/// them. Attributes follow each other after white space, as long as a letter
/// or a number comes next; a later value of a name replaces an earlier one.
/// The input may not end with the attributes.
pub open spec fn attributes_at(
    input: Seq<char>,
    pos: nat,
    found: Map<Seq<char>, Seq<char>>,
) -> Option<(Map<Seq<char>, Seq<char>>, nat)>
    decreases input.len() - pos,
    via attributes_at_decreases
{
    let start = run_end(input, pos, CharClass::Whitespace);
    if start >= input.len() {
        None
    } else if !alphanumeric(input[start as int]) {
        Some((found, start))
    } else {
        match attribute_at(input, start) {
            Some(((name, value), end)) => attributes_at(input, end, found.insert(name, value)),
            None => None,
        }
    }
}

#[via_fn]
proof fn attributes_at_decreases(input: Seq<char>, pos: nat, found: Map<Seq<char>, Seq<char>>) {
    let start = run_end(input, pos, CharClass::Whitespace);
    lemma_run_end(input, pos, CharClass::Whitespace);
    if start < input.len() {
        lemma_attribute_at(input, start);
    }
}

/// An attribute ends after its start.
pub proof fn lemma_attribute_at(input: Seq<char>, pos: nat)
    ensures
        match attribute_at(input, pos) {
            Some((_, end)) => pos < end <= input.len(),
            None => true,
        },
{
    let name_end = run_end(input, pos, CharClass::Name);
    lemma_run_end(input, pos, CharClass::Name);
    if char_at(input, name_end, '=') {
        let quote = (name_end + 1) as nat;
        if char_at(input, quote, '"') || char_at(input, quote, '\'') {
            lemma_run_end(input, quote + 1, CharClass::Except(input[quote as int]));
        }
    }
}

/// An element without a number.
pub open spec fn element(
    tag: Seq<char>,
    attributes: Map<Seq<char>, Seq<char>>,
    children: Seq<NodeView>,
) -> NodeView {
    NodeView { index: 0, data: DataView::Element { tag, attributes }, children }
}

/// A run of text without a number.
pub open spec fn text_node(text: Seq<char>) -> NodeView {
    NodeView { index: 0, data: DataView::Text(text), children: Seq::empty() }
}

/// The sibling nodes from `pos` on, with the position after them. Nodes
/// follow each other after white space, up to the end of the input or to the
/// start of a closing tag.
pub open spec fn nodes_at(input: Seq<char>, pos: nat) -> Option<(Seq<NodeView>, nat)>
    decreases input.len() - pos, 2nat,
    via nodes_at_decreases
{
    let start = run_end(input, pos, CharClass::Whitespace);
    if start >= input.len() || stands_at(input, start, "</"@) {
        Some((Seq::empty(), start))
    } else {
        match node_at(input, start) {
            Some((node, end)) => if start < end <= input.len() {
                match nodes_at(input, end) {
                    Some((rest, after)) => Some((seq![node] + rest, after)),
                    None => None,
                }
            } else {
                None
            },
            None => None,
        }
    }
}

#[via_fn]
proof fn nodes_at_decreases(input: Seq<char>, pos: nat) {
    lemma_run_end(input, pos, CharClass::Whitespace);
}

/// The node at `pos`, which is within the input, with the position after it:
/// an element where an opening angle bracket stands there, and else text up
/// to the next opening angle bracket.
pub open spec fn node_at(input: Seq<char>, pos: nat) -> Option<(NodeView, nat)>
    decreases input.len() - pos, 1nat,
{
    if pos >= input.len() {
        None
    } else if input[pos as int] == '<' {
        element_at(input, pos)
    } else {
        let end = run_end(input, pos, CharClass::Except('<'));
        Some((text_node(input.subrange(pos as int, end as int)), end))
    }
}

/// The element at `pos`, where an opening angle bracket stands, with the
/// position after it: the opening tag with a name and attributes, and then
/// either the end of a tag that closes itself, or the nodes inside the
/// element and the closing tag with the same name.
pub open spec fn element_at(input: Seq<char>, pos: nat) -> Option<(NodeView, nat)>
    decreases input.len() - pos, 0nat,
    via element_at_decreases
{
    if !char_at(input, pos, '<') {
        None
    } else {
        let tag_end = run_end(input, pos + 1, CharClass::Name);
        let tag = input.subrange((pos + 1) as int, tag_end as int);
        match attributes_at(input, tag_end, Map::empty()) {
            None => None,
            Some((attributes, close)) => if char_at(input, close, '/') {
                if char_at(input, close + 1, '>') {
                    Some((element(tag, attributes, Seq::empty()), close + 2))
                } else {
                    None
                }
            } else if char_at(input, close, '>') {
                match nodes_at(input, close + 1) {
                    None => None,
                    Some((children, end)) => {
                        let name_end = run_end(input, end + 2, CharClass::Name);
                        if char_at(input, end, '<') && char_at(input, end + 1, '/')
                            && input.subrange((end + 2) as int, name_end as int) == tag && char_at(
                            input,
                            name_end,
                            '>',
                        ) {
                            Some((element(tag, attributes, children), name_end + 1))
                        } else {
                            None
                        }
                    },
                }
            } else {
                None
            },
        }
    }
}

#[via_fn]
proof fn element_at_decreases(input: Seq<char>, pos: nat) {
    if char_at(input, pos, '<') {
        lemma_run_end(input, pos + 1, CharClass::Name);
        let tag_end = run_end(input, pos + 1, CharClass::Name);
        lemma_attributes_at(input, tag_end, Map::empty());
    }
}

/// Attributes end at or after their start, and within the input.
pub proof fn lemma_attributes_at(input: Seq<char>, pos: nat, found: Map<Seq<char>, Seq<char>>)
    ensures
        match attributes_at(input, pos, found) {
            Some((_, end)) => pos <= end < input.len(),
            None => true,
        },
    decreases input.len() - pos,
{
    let start = run_end(input, pos, CharClass::Whitespace);
    lemma_run_end(input, pos, CharClass::Whitespace);
    if start < input.len() && alphanumeric(input[start as int]) {
        lemma_attribute_at(input, start);
        match attribute_at(input, start) {
            Some(((name, value), end)) => {
                lemma_attributes_at(input, end, found.insert(name, value));
            },
            None => {},
        }
    }
}

/// The top nodes of the document that the input holds, if the input is well
/// formed. What follows the nodes is not looked at.
pub open spec fn document_nodes(input: Seq<char>) -> Option<Seq<NodeView>> {
    match nodes_at(input, doctype_end(input, 0)) {
        Some((nodes, _)) => Some(nodes),
        None => None,
    }
}

/// A parser on the characters of its input.
#[derive(Debug)]
pub struct Parser {
    /// The number of characters that are consumed.
    pub pos: usize,
    /// The characters of the input.
    pub input: Vec<char>,
}

/// Parses a document, numbers its nodes in document order and returns the
/// document, where the input is well formed.
///
/// Markup that is not well formed gives `None`, and no document: an element
/// that is not closed, a closing tag whose name differs from the name of the
/// opening tag, an attribute without an equals sign or without a quoted
/// value, and input that ends inside a tag. A caller that takes such markup
/// for a fault of the program tests for `None` and panics itself.
pub fn try_parse_document(source: String) -> (tree: Option<DocumentTree>)
    ensures
        match document_nodes(source@) {
            Some(nodes) => tree.is_some() && tree.unwrap().document_root@ == numbered(
                document_root_of(nodes),
                0,
            ).0,
            None => tree.is_none(),
        },
{
    let mut parser = Parser::new(source);
    match parser.try_parse_document() {
        Some(nodes) => Some(DocumentTree::new(nodes)),
        None => None,
    }
}

/// Parses a document that is well formed, numbers its nodes in document
/// order and returns the document.
///
/// Markup that is not well formed is left out: `try_parse_document` is for
/// input of which that is not known.
pub fn parse_document(source: String) -> (tree: DocumentTree)
    requires
        document_nodes(source@).is_some(),
    ensures
        tree.document_root@ == numbered(
            document_root_of(document_nodes(source@).unwrap()),
            0,
        ).0,
{
    try_parse_document(source).unwrap()
}

impl Parser {
    /// The only doctype that the parser recognises.
    pub const HTML_DOCTYPE: &'static str = "<!DOCTYPE html>";

    /// Whether the position is within the input or at its end.
    pub open spec fn well_formed(&self) -> bool {
        self.pos <= self.input@.len()
    }

    /// A parser at the start of the given input.
    pub fn new(input: String) -> (parser: Parser)
        ensures
            parser.pos == 0,
            parser.input@ == input@,
            parser.well_formed(),
    {
        Parser { pos: 0, input: chars_of(input.as_str()) }
    }

    /// Parses a whole document: the doctype, where there is one, and the
    /// nodes at the top. Markup that is not well formed gives `None`.
    pub fn try_parse_document(&mut self) -> (nodes: Option<Vec<DocumentNode>>)
        requires
            old(self).well_formed(),
        ensures
            final(self).input == old(self).input,
            final(self).well_formed(),
            match nodes_at(
                old(self).input@,
                doctype_end(old(self).input@, old(self).pos as nat),
            ) {
                Some((views, end)) => nodes.is_some() && node_views(nodes.unwrap()@) == views
                    && final(self).pos == end,
                None => nodes.is_none(),
            },
    {
        self.parse_doctype();
        self.try_parse_nodes()
    }

    /// Skips white space and the doctype, where there is one.
    fn parse_doctype(&mut self)
        requires
            old(self).well_formed(),
        ensures
            final(self).input == old(self).input,
            final(self).well_formed(),
            final(self).pos == doctype_end(old(self).input@, old(self).pos as nat),
    {
        self.consume_whitespace();
        let doctype = Parser::HTML_DOCTYPE;
        if self.starts_with(doctype) {
            proof {
                vstd::std_specs::vec::axiom_spec_len(&self.input);
            }
            self.pos = self.pos + doctype.unicode_len();
        }
    }

    /// Parses sibling nodes.
    pub fn try_parse_nodes(&mut self) -> (nodes: Option<Vec<DocumentNode>>)
        requires
            old(self).well_formed(),
        ensures
            final(self).input == old(self).input,
            final(self).well_formed(),
            match nodes_at(old(self).input@, old(self).pos as nat) {
                Some((views, end)) => nodes.is_some() && node_views(nodes.unwrap()@) == views
                    && final(self).pos == end && old(self).pos <= end,
                None => nodes.is_none(),
            },
        decreases old(self).input@.len() - old(self).pos, 2nat,
    {
        let mut nodes: Vec<DocumentNode> = Vec::new();
        proof {
            assert(node_views(nodes@) =~= Seq::<NodeView>::empty());
            match nodes_at(self.input@, self.pos as nat) {
                Some((rest, end)) => {
                    assert(node_views(nodes@) + rest =~= rest);
                },
                None => {},
            }
        }
        loop
            invariant
                self.well_formed(),
                self.input == old(self).input,
                old(self).pos <= self.pos,
                nodes_at(old(self).input@, old(self).pos as nat) == (match nodes_at(
                    self.input@,
                    self.pos as nat,
                ) {
                    Some((rest, end)) => Some((node_views(nodes@) + rest, end)),
                    None => None,
                }),
            decreases self.input@.len() - self.pos,
        {
            let ghost from = self.pos as nat;
            proof {
                lemma_run_end(self.input@, from, CharClass::Whitespace);
            }
            self.consume_whitespace();
            if self.eof() || self.starts_with("</") {
                proof {
                    assert(node_views(nodes@) + Seq::<NodeView>::empty() =~= node_views(nodes@));
                }
                return Some(nodes);
            }
            let ghost done = nodes@;
            match self.try_parse_node() {
                Some(node) => {
                    nodes.push(node);
                    proof {
                        assert(node_views(nodes@) =~= node_views(done) + seq![node@]);
                        match nodes_at(self.input@, self.pos as nat) {
                            Some((rest, end)) => {
                                assert(node_views(done) + (seq![node@] + rest) =~= node_views(
                                    nodes@,
                                ) + rest);
                            },
                            None => {},
                        }
                    }
                },
                None => {
                    return None;
                },
            }
        }
    }

    /// Parses one node.
    pub fn try_parse_node(&mut self) -> (node: Option<DocumentNode>)
        requires
            old(self).well_formed(),
            old(self).pos < old(self).input@.len(),
        ensures
            final(self).input == old(self).input,
            final(self).well_formed(),
            match node_at(old(self).input@, old(self).pos as nat) {
                Some((view, end)) => node.is_some() && node.unwrap()@ == view && final(self).pos
                    == end && old(self).pos < end,
                None => node.is_none(),
            },
        decreases old(self).input@.len() - old(self).pos, 1nat,
    {
        if self.next_char() == '<' {
            self.try_parse_element()
        } else {
            proof {
                lemma_run_end(self.input@, self.pos as nat, CharClass::Except('<'));
            }
            Some(self.parse_text())
        }
    }

    /// Parses one element: its opening tag, what is inside it, and its
    /// closing tag.
    ///
    /// Markup that is not well formed gives `None`, and no element: a tag
    /// that does not end with a closing angle bracket, attributes that are
    /// not well formed, an element whose closing tag is missing, and a
    /// closing tag whose name differs from the name of the opening tag, as
    /// in `<a></b>`.
    pub fn try_parse_element(&mut self) -> (node: Option<DocumentNode>)
        requires
            old(self).well_formed(),
            old(self).pos < old(self).input@.len(),
        ensures
            final(self).input == old(self).input,
            final(self).well_formed(),
            match element_at(old(self).input@, old(self).pos as nat) {
                Some((view, end)) => node.is_some() && node.unwrap()@ == view && final(self).pos
                    == end && old(self).pos < end,
                None => node.is_none(),
            },
        decreases old(self).input@.len() - old(self).pos, 0nat,
    {
        if self.consume_char() != '<' {
            return None;
        }
        proof {
            lemma_run_end(self.input@, self.pos as nat, CharClass::Name);
        }
        let tag_name = self.parse_identifier();
        proof {
            lemma_attributes_at(self.input@, self.pos as nat, Map::empty());
        }
        let attr_map = match self.try_parse_attributes() {
            Some(attributes) => attributes,
            None => {
                return None;
            },
        };
        let children = if self.next_char() == '/' {
            self.consume_char();
            if self.eof() || self.consume_char() != '>' {
                return None;
            }
            let none: Vec<DocumentNode> = Vec::new();
            assert(node_views(none@) =~= Seq::<NodeView>::empty());
            none
        } else {
            if self.consume_char() != '>' {
                return None;
            }
            let nodes = match self.try_parse_nodes() {
                Some(nodes) => nodes,
                None => {
                    return None;
                },
            };
            if self.eof() || self.consume_char() != '<' {
                return None;
            }
            if self.eof() || self.consume_char() != '/' {
                return None;
            }
            proof {
                lemma_run_end(self.input@, self.pos as nat, CharClass::Name);
            }
            let closing = self.parse_identifier();
            if !(closing == tag_name) {
                return None;
            }
            if self.eof() || self.consume_char() != '>' {
                return None;
            }
            nodes
        };
        let node = DocumentNode::new_elem(tag_name, attr_map, children);
        proof {
            lemma_node_children(node);
        }
        Some(node)
    }

    /// Parses a tag name or an attribute name.
    fn parse_identifier(&mut self) -> (name: String)
        requires
            old(self).well_formed(),
        ensures
            final(self).input == old(self).input,
            final(self).well_formed(),
            final(self).pos == run_end(old(self).input@, old(self).pos as nat, CharClass::Name),
            name@ == old(self).input@.subrange(old(self).pos as int, final(self).pos as int),
    {
        self.consume_while(CharClass::Name)
    }

    /// Parses attributes, each a name with a quoted value, after white
    /// space.
    pub fn try_parse_attributes(&mut self) -> (attributes: Option<AttributeMap>)
        requires
            old(self).well_formed(),
        ensures
            final(self).input == old(self).input,
            final(self).well_formed(),
            match attributes_at(old(self).input@, old(self).pos as nat, Map::empty()) {
                Some((entries, end)) => attributes.is_some() && attributes.unwrap().well_formed()
                    && attributes.unwrap().entries() == entries && final(self).pos == end && end
                    < final(self).input@.len(),
                None => attributes.is_none(),
            },
    {
        let mut attributes = AttributeMap::new();
        loop
            invariant
                self.well_formed(),
                self.input == old(self).input,
                attributes.well_formed(),
                attributes_at(old(self).input@, old(self).pos as nat, Map::empty())
                    == attributes_at(self.input@, self.pos as nat, attributes.entries()),
            decreases self.input@.len() - self.pos,
        {
            proof {
                lemma_run_end(self.input@, self.pos as nat, CharClass::Whitespace);
            }
            self.consume_whitespace();
            if self.eof() {
                return None;
            }
            if !is_alphanumeric(self.next_char()) {
                return Some(attributes);
            }
            proof {
                lemma_attribute_at(self.input@, self.pos as nat);
            }
            match self.try_parse_attribute() {
                Some((name, value)) => {
                    attributes.insert(name, value);
                },
                None => {
                    return None;
                },
            }
        }
    }

    /// Parses one attribute: a name, an equals sign and a quoted value.
    pub fn try_parse_attribute(&mut self) -> (attribute: Option<(String, String)>)
        requires
            old(self).well_formed(),
        ensures
            final(self).input == old(self).input,
            final(self).well_formed(),
            match attribute_at(old(self).input@, old(self).pos as nat) {
                Some(((name, value), end)) => attribute.is_some() && attribute.unwrap().0@ == name
                    && attribute.unwrap().1@ == value && final(self).pos == end,
                None => attribute.is_none(),
            },
    {
        proof {
            lemma_run_end(self.input@, self.pos as nat, CharClass::Name);
        }
        let name = self.parse_identifier();
        if self.eof() || self.consume_char() != '=' {
            return None;
        }
        match self.try_parse_quotation() {
            Some(value) => Some((name, value)),
            None => None,
        }
    }

    /// Parses a quoted value.
    pub fn try_parse_quotation(&mut self) -> (value: Option<String>)
        requires
            old(self).well_formed(),
        ensures
            final(self).input == old(self).input,
            final(self).well_formed(),
            match quotation_at(old(self).input@, old(self).pos as nat) {
                Some((text, end)) => value.is_some() && value.unwrap()@ == text && final(self).pos
                    == end,
                None => value.is_none(),
            },
    {
        if self.eof() {
            return None;
        }
        let open_quote = self.consume_char();
        if !(open_quote == '"' || open_quote == '\'') {
            return None;
        }
        proof {
            lemma_run_end(self.input@, self.pos as nat, CharClass::Except(open_quote));
        }
        let value = self.consume_while(CharClass::Except(open_quote));
        if self.eof() {
            return None;
        }
        self.consume_char();
        Some(value)
    }

    /// Parses a run of text.
    fn parse_text(&mut self) -> (node: DocumentNode)
        requires
            old(self).well_formed(),
        ensures
            final(self).input == old(self).input,
            final(self).well_formed(),
            final(self).pos == run_end(
                old(self).input@,
                old(self).pos as nat,
                CharClass::Except('<'),
            ),
            node@ == text_node(
                old(self).input@.subrange(old(self).pos as int, final(self).pos as int),
            ),
    {
        let text = self.consume_while(CharClass::Except('<'));
        let node = DocumentNode::new_text(text);
        proof {
            lemma_node_children(node);
            assert(node@.children =~= Seq::<NodeView>::empty());
        }
        node
    }

    /// Consumes white space.
    fn consume_whitespace(&mut self)
        requires
            old(self).well_formed(),
        ensures
            final(self).input == old(self).input,
            final(self).well_formed(),
            final(self).pos == run_end(
                old(self).input@,
                old(self).pos as nat,
                CharClass::Whitespace,
            ),
    {
        self.consume_while(CharClass::Whitespace);
    }

    /// Consumes characters as long as they belong to the class, and returns
    /// them.
    fn consume_while(&mut self, class: CharClass) -> (text: String)
        requires
            old(self).well_formed(),
        ensures
            final(self).input == old(self).input,
            final(self).well_formed(),
            final(self).pos == run_end(old(self).input@, old(self).pos as nat, class),
            text@ == old(self).input@.subrange(old(self).pos as int, final(self).pos as int),
    {
        let mut result = String::new();
        assert(result@ =~= self.input@.subrange(self.pos as int, self.pos as int));
        while !self.eof() && class.test(self.next_char())
            invariant
                self.well_formed(),
                self.input == old(self).input,
                old(self).pos <= self.pos,
                run_end(old(self).input@, old(self).pos as nat, class) == run_end(
                    self.input@,
                    self.pos as nat,
                    class,
                ),
                result@ == self.input@.subrange(old(self).pos as int, self.pos as int),
            decreases self.input@.len() - self.pos,
        {
            let c = self.consume_char();
            push_char(&mut result, c);
            proof {
                assert(result@ =~= self.input@.subrange(old(self).pos as int, self.pos as int));
            }
        }
        result
    }

    /// Returns the character at the position and moves on to the next.
    fn consume_char(&mut self) -> (c: char)
        requires
            old(self).pos < old(self).input@.len(),
        ensures
            final(self).input == old(self).input,
            final(self).pos == old(self).pos + 1,
            c == old(self).input@[old(self).pos as int],
    {
        proof {
            vstd::std_specs::vec::axiom_spec_len(&self.input);
        }
        let c = self.input[self.pos];
        self.pos = self.pos + 1;
        c
    }

    /// The character at the position.
    fn next_char(&self) -> (c: char)
        requires
            self.pos < self.input@.len(),
        ensures
            c == self.input@[self.pos as int],
    {
        self.input[self.pos]
    }

    /// Does the text stand at the position?
    fn starts_with(&self, text: &str) -> (b: bool)
        requires
            self.well_formed(),
        ensures
            b == stands_at(self.input@, self.pos as nat, text@),
    {
        crate::scan::stands_in(&self.input, self.pos, text)
    }

    /// Is all input consumed?
    fn eof(&self) -> (b: bool)
        ensures
            b == (self.pos >= self.input@.len()),
    {
        self.pos >= self.input.len()
    }

    /// Parses a whole document that is well formed: the doctype, where there
    /// is one, and the nodes at the top.
    pub fn parse_document(&mut self) -> (nodes: Vec<DocumentNode>)
        requires
            old(self).well_formed(),
            nodes_at(
                old(self).input@,
                doctype_end(old(self).input@, old(self).pos as nat),
            ).is_some(),
        ensures
            final(self).input == old(self).input,
            final(self).well_formed(),
            (node_views(nodes@), final(self).pos as nat) == nodes_at(
                old(self).input@,
                doctype_end(old(self).input@, old(self).pos as nat),
            ).unwrap(),
    {
        self.try_parse_document().unwrap()
    }

    /// Parses sibling nodes that are well formed.
    pub fn parse_nodes(&mut self) -> (nodes: Vec<DocumentNode>)
        requires
            old(self).well_formed(),
            nodes_at(old(self).input@, old(self).pos as nat).is_some(),
        ensures
            final(self).input == old(self).input,
            final(self).well_formed(),
            (node_views(nodes@), final(self).pos as nat) == nodes_at(
                old(self).input@,
                old(self).pos as nat,
            ).unwrap(),
    {
        self.try_parse_nodes().unwrap()
    }

    /// Parses one node that is well formed.
    pub fn parse_node(&mut self) -> (node: DocumentNode)
        requires
            old(self).well_formed(),
            old(self).pos < old(self).input@.len(),
            node_at(old(self).input@, old(self).pos as nat).is_some(),
        ensures
            final(self).input == old(self).input,
            final(self).well_formed(),
            (node@, final(self).pos as nat) == node_at(
                old(self).input@,
                old(self).pos as nat,
            ).unwrap(),
            old(self).pos < final(self).pos,
    {
        self.try_parse_node().unwrap()
    }

    /// Parses one element that is well formed: its opening tag, what is
    /// inside it, and its closing tag, which has the name of the opening tag.
    pub fn parse_element(&mut self) -> (node: DocumentNode)
        requires
            old(self).well_formed(),
            old(self).pos < old(self).input@.len(),
            element_at(old(self).input@, old(self).pos as nat).is_some(),
        ensures
            final(self).input == old(self).input,
            final(self).well_formed(),
            (node@, final(self).pos as nat) == element_at(
                old(self).input@,
                old(self).pos as nat,
            ).unwrap(),
            old(self).pos < final(self).pos,
    {
        self.try_parse_element().unwrap()
    }

    /// Parses attributes that are well formed, each a name with a quoted
    /// value, after white space.
    pub fn parse_attributes(&mut self) -> (attributes: AttributeMap)
        requires
            old(self).well_formed(),
            attributes_at(old(self).input@, old(self).pos as nat, Map::empty()).is_some(),
        ensures
            final(self).input == old(self).input,
            final(self).well_formed(),
            attributes.well_formed(),
            (attributes.entries(), final(self).pos as nat) == attributes_at(
                old(self).input@,
                old(self).pos as nat,
                Map::empty(),
            ).unwrap(),
    {
        self.try_parse_attributes().unwrap()
    }

    /// Parses one attribute that is well formed: a name, an equals sign and a
    /// quoted value.
    pub fn parse_attribute(&mut self) -> (attribute: (String, String))
        requires
            old(self).well_formed(),
            attribute_at(old(self).input@, old(self).pos as nat).is_some(),
        ensures
            final(self).input == old(self).input,
            final(self).well_formed(),
            ((attribute.0@, attribute.1@), final(self).pos as nat) == attribute_at(
                old(self).input@,
                old(self).pos as nat,
            ).unwrap(),
    {
        self.try_parse_attribute().unwrap()
    }

    /// Parses a quoted value that is well formed.
    pub fn parse_quotation(&mut self) -> (value: String)
        requires
            old(self).well_formed(),
            quotation_at(old(self).input@, old(self).pos as nat).is_some(),
        ensures
            final(self).input == old(self).input,
            final(self).well_formed(),
            (value@, final(self).pos as nat) == quotation_at(
                old(self).input@,
                old(self).pos as nat,
            ).unwrap(),
    {
        self.try_parse_quotation().unwrap()
    }
}

} // verus!
