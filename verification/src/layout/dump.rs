//! The layout as text: one bracketed header for every box, with the boxes
//! inside it in document order.

use vstd::prelude::*;
use vstd::string::StringExecFns;
use crate::dom::{DocumentNode, NodeData};
use crate::geometry::{Pixels, Rect};
use crate::layout::{box_views, lemma_view_children, BoxView, LayoutClass, LayoutNode, LayoutTree};

verus! {

/// The character of a decimal digit.
pub open spec fn digit(d: nat) -> char {
    if d == 0 {
        '0'
    } else if d == 1 {
        '1'
    } else if d == 2 {
        '2'
    } else if d == 3 {
        '3'
    } else if d == 4 {
        '4'
    } else if d == 5 {
        '5'
    } else if d == 6 {
        '6'
    } else if d == 7 {
        '7'
    } else if d == 8 {
        '8'
    } else {
        '9'
    }
}

/// The decimal digits of a number, without leading zeros.
pub open spec fn decimal_digits(n: nat) -> Seq<char>
    decreases n,
{
    if n < 10 {
        seq![digit(n)]
    } else {
        decimal_digits(n / 10).push(digit(n % 10))
    }
}

/// A whole number in decimal notation, with a minus sign where it is
/// negative.
pub open spec fn decimal(v: int) -> Seq<char> {
    if v < 0 {
        seq!['-'] + decimal_digits((-v) as nat)
    } else {
        decimal_digits(v as nat)
    }
}

fn digit_text(d: u64) -> (text: &'static str)
    requires
        d < 10,
    ensures
        text@ == seq![digit(d as nat)],
{
    proof {
        reveal_strlit("0");
        reveal_strlit("1");
        reveal_strlit("2");
        reveal_strlit("3");
        reveal_strlit("4");
        reveal_strlit("5");
        reveal_strlit("6");
        reveal_strlit("7");
        reveal_strlit("8");
        reveal_strlit("9");
    }
    let text = if d == 0 {
        "0"
    } else if d == 1 {
        "1"
    } else if d == 2 {
        "2"
    } else if d == 3 {
        "3"
    } else if d == 4 {
        "4"
    } else if d == 5 {
        "5"
    } else if d == 6 {
        "6"
    } else if d == 7 {
        "7"
    } else if d == 8 {
        "8"
    } else {
        "9"
    };
    assert(text@ =~= seq![digit(d as nat)]);
    text
}

fn append_digits(out: &mut String, n: u64)
    ensures
        final(out)@ == old(out)@ + decimal_digits(n as nat),
    decreases n,
{
    if n >= 10 {
        append_digits(out, n / 10);
    }
    out.append(digit_text(n % 10));
    proof {
        if n >= 10 {
            assert(old(out)@ + decimal_digits((n / 10) as nat) + seq![digit((n % 10) as nat)]
                =~= old(out)@ + decimal_digits(n as nat));
        }
    }
}

/// Appends a count in decimal notation.
pub fn append_count(out: &mut String, n: usize)
    ensures
        final(out)@ == old(out)@ + decimal(n as int),
{
    append_digits(out, n as u64);
}

/// Appends a length in decimal notation.
pub fn append_pixels(out: &mut String, v: Pixels)
    ensures
        final(out)@ == old(out)@ + decimal(v as int),
{
    if v < 0 {
        proof {
            reveal_strlit("-");
        }
        out.append("-");
        let magnitude: u64 = ((-(v + 1)) as u64) + 1;
        append_digits(out, magnitude);
        proof {
            assert(old(out)@ + "-"@ + decimal_digits(magnitude as nat) =~= old(out)@ + decimal(
                v as int,
            ));
        }
    } else {
        append_digits(out, v as u64);
    }
}

/// The position and size of a rectangle as text.
pub open spec fn geometry_text(r: Rect) -> Seq<char> {
    ":x "@ + decimal(r.x as int) + " :y "@ + decimal(r.y as int) + " :w "@ + decimal(
        r.width as int,
    ) + " :h "@ + decimal(r.height as int)
}

fn append_geometry(out: &mut String, r: &Rect)
    ensures
        final(out)@ == old(out)@ + geometry_text(*r),
{
    out.append(":x ");
    append_pixels(out, r.x);
    out.append(" :y ");
    append_pixels(out, r.y);
    out.append(" :w ");
    append_pixels(out, r.width);
    out.append(" :h ");
    append_pixels(out, r.height);
    proof {
        assert(out@ =~= old(out)@ + geometry_text(*r));
    }
}

/// The number of the node that a box stands for; none for an anonymous box.
pub open spec fn element_index(node: Option<DocumentNode>) -> int {
    match node {
        Some(n) => n.index as int,
        None => 0,
    }
}

/// The text of the node that a box stands for; none where it is no run of
/// text.
pub open spec fn element_text(node: Option<DocumentNode>) -> Seq<char> {
    match node {
        Some(n) => match n.data {
            NodeData::Text(t) => t@,
            NodeData::Element { .. } => Seq::empty(),
        },
        None => Seq::empty(),
    }
}

/// The header of a box.
///
/// An anonymous box is `[LINE]` where it wraps a run of inline-level boxes,
/// and `[ANON]` otherwise. A run of text has its border box and its text, an
/// inline box the number of its element, and a block its border box and the
/// number of its element.
pub open spec fn header(b: BoxView) -> Seq<char> {
    if b.is_anon() && b.class.is_inline_root() {
        "[LINE]"@
    } else if b.is_anon() {
        "[ANON]"@
    } else {
        match b.class {
            LayoutClass::Text => "[TEXT "@ + geometry_text(b.layout.border_box) + " :text \""@
                + element_text(b.document_node) + "\"]"@,
            LayoutClass::Line => "[LINE]"@,
            LayoutClass::Inline | LayoutClass::InlineRoot => "[INLINE :elt "@ + decimal(
                element_index(b.document_node),
            ) + "]"@,
            LayoutClass::InlineBlock => "[INLINE "@ + geometry_text(b.layout.border_box)
                + " :elt "@ + decimal(element_index(b.document_node)) + "]"@,
            LayoutClass::BlockRoot | LayoutClass::Block | LayoutClass::Floated => "[BLOCK "@
                + geometry_text(b.layout.border_box) + " :elt "@ + decimal(
                element_index(b.document_node),
            ) + "]"@,
        }
    }
}

/// The first `n` of `children` as text, each after a space.
pub open spec fn dumped_children(children: Seq<BoxView>, n: nat) -> Seq<char>
    decreases children, 0nat, n,
{
    if n == 0 || n > children.len() {
        Seq::empty()
    } else {
        dumped_children(children, (n - 1) as nat) + " "@ + dumped(children[n - 1])
    }
}

/// A box as text: in round brackets its header and then the boxes inside it.
pub open spec fn dumped(b: BoxView) -> Seq<char>
    decreases b.children, 1nat,
{
    "("@ + header(b) + dumped_children(b.children, b.children.len()) + ")"@
}

/// A laid out tree as text: the parameters, the width of the view, and the
/// root box.
pub open spec fn dumped_tree(tree: LayoutTree) -> Seq<char> {
    "(define-layout (doc-2 :matched true :w "@ + decimal(tree.parameters.viewport_width as int)
        + " :h "@ + decimal(tree.parameters.viewport_height as int) + " :fs "@ + decimal(
        tree.parameters.font_size as int,
    ) + " :scrollw "@ + decimal(tree.parameters.scrollbar_width as int) + ") ([VIEW :w "@
        + decimal(tree.parameters.viewport_width as int) + "] "@ + dumped(tree.layout_root@)
        + "))"@
}

impl<'a> LayoutNode<'a> {
    fn append_header(&self, out: &mut String)
        ensures
            final(out)@ == old(out)@ + header(self@),
    {
        let index: usize = match self.document_node {
            Some(node) => node.index,
            None => 0,
        };
        if self.is_anon() && self.is_inline_root() {
            out.append("[LINE]");
        } else if self.is_anon() {
            out.append("[ANON]");
        } else {
            match self.class {
                LayoutClass::Text => {
                    out.append("[TEXT ");
                    append_geometry(out, &self.layout.border_box);
                    out.append(" :text \"");
                    let ghost before = out@;
                    match self.document_node {
                        Some(node) => match node.as_text() {
                            Some(text) => {
                                out.append(text);
                            },
                            None => {},
                        },
                        None => {},
                    }
                    assert(out@ =~= before + element_text(self@.document_node));
                    out.append("\"]");
                    proof {
                        assert(out@ =~= old(out)@ + header(self@));
                    }
                },
                LayoutClass::Line => {
                    out.append("[LINE]");
                },
                LayoutClass::Inline | LayoutClass::InlineRoot => {
                    out.append("[INLINE :elt ");
                    append_count(out, index);
                    out.append("]");
                    proof {
                        assert(out@ =~= old(out)@ + header(self@));
                    }
                },
                LayoutClass::InlineBlock => {
                    out.append("[INLINE ");
                    append_geometry(out, &self.layout.border_box);
                    out.append(" :elt ");
                    append_count(out, index);
                    out.append("]");
                    proof {
                        assert(out@ =~= old(out)@ + header(self@));
                    }
                },
                LayoutClass::BlockRoot | LayoutClass::Block | LayoutClass::Floated => {
                    out.append("[BLOCK ");
                    append_geometry(out, &self.layout.border_box);
                    out.append(" :elt ");
                    append_count(out, index);
                    out.append("]");
                    proof {
                        assert(out@ =~= old(out)@ + header(self@));
                    }
                },
            }
        }
    }

    /// Appends the box and the boxes inside it as text.
    pub fn append_dump(&self, out: &mut String)
        ensures
            final(out)@ == old(out)@ + dumped(self@),
        decreases self.children, 1nat,
    {
        out.append("(");
        self.append_header(out);
        let ghost head = out@;
        proof {
            lemma_view_children(*self);
            assert(head + dumped_children(self@.children, 0) =~= head);
        }
        let mut i: usize = 0;
        while i < self.children.len()
            invariant
                i <= self.children@.len(),
                self@.children == box_views(self.children@),
                out@ == head + dumped_children(self@.children, i as nat),
            decreases self.children@.len() - i,
        {
            let ghost before = out@;
            out.append(" ");
            self.children[i].append_dump(out);
            i += 1;
            proof {
                assert(self@.children[i - 1] == self.children@[i - 1]@);
                assert(before + " "@ + dumped(self.children@[i - 1]@) =~= head + dumped_children(
                    self@.children,
                    i as nat,
                ));
            }
        }
        out.append(")");
        proof {
            assert(out@ =~= old(out)@ + dumped(self@));
        }
    }

    /// The box and the boxes inside it as text.
    pub fn dump(&self) -> (text: String)
        ensures
            text@ == dumped(self@),
    {
        let mut out = String::new();
        self.append_dump(&mut out);
        assert(out@ =~= dumped(self@));
        out
    }
}

impl<'a> LayoutTree<'a> {
    /// The tree as text.
    pub fn dump(&self) -> (text: String)
        ensures
            text@ == dumped_tree(*self),
    {
        let mut out = String::new();
        out.append("(define-layout (doc-2 :matched true :w ");
        append_count(&mut out, self.parameters.viewport_width);
        out.append(" :h ");
        append_count(&mut out, self.parameters.viewport_height);
        out.append(" :fs ");
        append_count(&mut out, self.parameters.font_size);
        out.append(" :scrollw ");
        append_count(&mut out, self.parameters.scrollbar_width);
        out.append(") ([VIEW :w ");
        append_count(&mut out, self.parameters.viewport_width);
        out.append("] ");
        self.layout_root.append_dump(&mut out);
        out.append("))");
        assert(out@ =~= dumped_tree(*self));
        out
    }
}

} // verus!
