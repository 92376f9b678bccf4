//! The box tree and its layout.
//!
//! A box tree is built from a styled document, its vertical margins are
//! collapsed, and every box is given its geometry. What each step computes is
//! stated over `BoxView`, the mathematical model of a box.

use vstd::prelude::*;
use crate::dom::DocumentNode;
use crate::floats::FloatCursor;
use crate::geometry::{Edge, Pixels, Rect};
use crate::layout::construct::{boxes_of, class_of, supported};
use crate::layout::engine::laid_out;
use crate::layout::laws::boxes_nest_throughout;
use crate::layout::margins::margins_collapsed;
use crate::layout::render::painted;
use crate::paint::DisplayList;
use crate::style::{Positioned, Style, StyledTree};

pub mod construct;
pub mod dump;
pub mod engine;
pub mod flow;
pub mod laws;
pub mod margins;
pub mod render;
pub mod routines;

verus! {

/// The size of the output surface and of what is drawn on it.
#[derive(Clone, Copy, Debug)]
pub struct Parameters {
    pub viewport_width: usize,
    pub viewport_height: usize,
    pub scrollbar_width: usize,
    pub font_size: usize,
}

/// The kind of a box, which decides how it is laid out.
#[derive(Clone, Copy, PartialEq, Eq, Debug, Structural)]
pub enum LayoutClass {
    /// A run of text.
    Text,
    /// A line box.
    Line,
    /// An inline-level inline container.
    Inline,
    /// A block-level inline container, around a run of inline-level boxes.
    InlineRoot,
    /// An inline-level block container.
    InlineBlock,
    /// A block-level block container.
    Block,
    /// A block-level block container with a formatting context of its own.
    BlockRoot,
    /// A floated block container.
    Floated,
}

impl LayoutClass {
    pub open spec fn is_block_level_spec(&self) -> bool {
        match self {
            LayoutClass::Block => true,
            LayoutClass::BlockRoot => true,
            LayoutClass::InlineRoot => true,
            LayoutClass::Floated => true,
            _ => false,
        }
    }

    /// Is this the class of a block-level box?
    #[verifier::when_used_as_spec(is_block_level_spec)]
    pub fn is_block_level(&self) -> (b: bool)
        ensures
            b == self.is_block_level_spec(),
    {
        match self {
            LayoutClass::Block => true,
            LayoutClass::BlockRoot => true,
            LayoutClass::InlineRoot => true,
            LayoutClass::Floated => true,
            _ => false,
        }
    }

    pub open spec fn is_inline_level_spec(&self) -> bool {
        match self {
            LayoutClass::Text => true,
            LayoutClass::Line => true,
            LayoutClass::Inline => true,
            LayoutClass::InlineBlock => true,
            LayoutClass::Floated => true,
            _ => false,
        }
    }

    /// Is this the class of an inline-level box?
    #[verifier::when_used_as_spec(is_inline_level_spec)]
    pub fn is_inline_level(&self) -> (b: bool)
        ensures
            b == self.is_inline_level_spec(),
    {
        match self {
            LayoutClass::Text => true,
            LayoutClass::Line => true,
            LayoutClass::Inline => true,
            LayoutClass::InlineBlock => true,
            LayoutClass::Floated => true,
            _ => false,
        }
    }

    pub open spec fn is_block_container_spec(&self) -> bool {
        match self {
            LayoutClass::Block => true,
            LayoutClass::BlockRoot => true,
            LayoutClass::Floated => true,
            LayoutClass::InlineBlock => true,
            _ => false,
        }
    }

    /// Is this the class of a block container?
    #[verifier::when_used_as_spec(is_block_container_spec)]
    pub fn is_block_container(&self) -> (b: bool)
        ensures
            b == self.is_block_container_spec(),
    {
        match self {
            LayoutClass::Block => true,
            LayoutClass::BlockRoot => true,
            LayoutClass::Floated => true,
            LayoutClass::InlineBlock => true,
            _ => false,
        }
    }

    pub open spec fn is_inline_container_spec(&self) -> bool {
        match self {
            LayoutClass::Line => true,
            LayoutClass::Inline => true,
            LayoutClass::InlineRoot => true,
            _ => false,
        }
    }

    /// Is this the class of an inline container?
    #[verifier::when_used_as_spec(is_inline_container_spec)]
    pub fn is_inline_container(&self) -> (b: bool)
        ensures
            b == self.is_inline_container_spec(),
    {
        match self {
            LayoutClass::Line => true,
            LayoutClass::Inline => true,
            LayoutClass::InlineRoot => true,
            _ => false,
        }
    }

    pub open spec fn is_block_root_spec(&self) -> bool {
        match self {
            LayoutClass::BlockRoot => true,
            LayoutClass::Floated => true,
            LayoutClass::InlineBlock => true,
            _ => false,
        }
    }

    /// Is this the class of a box with a block formatting context of its own?
    #[verifier::when_used_as_spec(is_block_root_spec)]
    pub fn is_block_root(&self) -> (b: bool)
        ensures
            b == self.is_block_root_spec(),
    {
        match self {
            LayoutClass::BlockRoot => true,
            LayoutClass::Floated => true,
            LayoutClass::InlineBlock => true,
            _ => false,
        }
    }

    pub open spec fn is_inline_root_spec(&self) -> bool {
        *self == LayoutClass::InlineRoot
    }

    /// Is this the class of the wrapper around a run of inline-level boxes?
    #[verifier::when_used_as_spec(is_inline_root_spec)]
    pub fn is_inline_root(&self) -> (b: bool)
        ensures
            b == self.is_inline_root_spec(),
    {
        match self {
            LayoutClass::InlineRoot => true,
            _ => false,
        }
    }

    pub open spec fn is_floated_spec(&self) -> bool {
        *self == LayoutClass::Floated
    }

    /// Is this the class of a floated box?
    #[verifier::when_used_as_spec(is_floated_spec)]
    pub fn is_floated(&self) -> (b: bool)
        ensures
            b == self.is_floated_spec(),
    {
        match self {
            LayoutClass::Floated => true,
            _ => false,
        }
    }

    pub open spec fn is_text_run_spec(&self) -> bool {
        *self == LayoutClass::Text
    }

    /// Is this the class of a run of text?
    #[verifier::when_used_as_spec(is_text_run_spec)]
    pub fn is_text_run(&self) -> (b: bool)
        ensures
            b == self.is_text_run_spec(),
    {
        match self {
            LayoutClass::Text => true,
            _ => false,
        }
    }
}

/// The geometry of one box.
#[derive(Clone, Copy, Debug, PartialEq, Eq)]
pub struct Layout {
    /// The containing block.
    pub containing_box: Rect,
    /// The block against which the offsets of this box count, where it is
    /// placed by offsets.
    pub positioning_box: Rect,
    /// The content box, relative to the document origin.
    pub content_box: Rect,
    /// The padding box, relative to the document origin.
    pub padding_box: Rect,
    /// The border box, relative to the document origin.
    pub border_box: Rect,
    /// The margin box, relative to the document origin.
    pub margin_box: Rect,
    /// The thickness of the padding.
    pub padding: Edge<Pixels>,
    /// The thickness of the border.
    pub border: Edge<Pixels>,
    /// The margin that the style asks for, with automatic margins resolved.
    pub margin: Edge<Pixels>,
    /// The margin that is used to place the box: what is left of the margin
    /// after adjoining margins have collapsed.
    pub effective_margin: Edge<Pixels>,
    /// Horizontal space that is left over, or missing.
    pub underflow: Pixels,
    /// The floats placed before and in this box.
    pub float_cursor: FloatCursor,
    /// Position on the block (vertical) axis at which the box starts.
    pub block_pos: Pixels,
    /// Position on the inline (horizontal) axis at which the box starts,
    /// before floats shift it.
    pub inline_pos: Pixels,
    /// The number of the line that the box starts on.
    pub line_pos: usize,
    /// Size on the block axis by which the box moves what follows it.
    pub block_size: Pixels,
    /// How far down the box and everything in it reach, floats included.
    pub block_extent: Pixels,
    /// Size on the inline axis by which the box moves what follows it.
    pub inline_size: Pixels,
    /// Size on the inline axis with what has left the flow.
    pub inline_extent: Pixels,
    /// The padding box of the nearest ancestor that is not statically
    /// positioned.
    pub ns_positioning_box: Rect,
    /// The viewport.
    pub init_positioning_box: Rect,
}

impl Default for Layout {
    fn default() -> (l: Layout)
        ensures
            l == Layout::initial_spec(),
    {
        Layout::initial()
    }
}

impl Layout {
    pub open spec fn initial_spec() -> Layout {
        Layout {
            containing_box: Rect::zero(),
            positioning_box: Rect::zero(),
            content_box: Rect::zero(),
            padding_box: Rect::zero(),
            border_box: Rect::zero(),
            margin_box: Rect::zero(),
            padding: Edge::<Pixels>::zero(),
            border: Edge::<Pixels>::zero(),
            margin: Edge::<Pixels>::zero(),
            effective_margin: Edge::<Pixels>::zero(),
            underflow: 0,
            float_cursor: FloatCursor::empty(),
            block_pos: 0,
            inline_pos: 0,
            line_pos: 0,
            block_size: 0,
            block_extent: 0,
            inline_size: 0,
            inline_extent: 0,
            ns_positioning_box: Rect::zero(),
            init_positioning_box: Rect::zero(),
        }
    }

    /// The geometry of a box that has not been laid out.
    #[verifier::when_used_as_spec(initial_spec)]
    pub fn initial() -> (l: Layout)
        ensures
            l == Self::initial_spec(),
    {
        Layout {
            containing_box: Rect::zero(),
            positioning_box: Rect::zero(),
            content_box: Rect::zero(),
            padding_box: Rect::zero(),
            border_box: Rect::zero(),
            margin_box: Rect::zero(),
            padding: Edge::<Pixels>::zero(),
            border: Edge::<Pixels>::zero(),
            margin: Edge::<Pixels>::zero(),
            effective_margin: Edge::<Pixels>::zero(),
            underflow: 0,
            float_cursor: FloatCursor::empty(),
            block_pos: 0,
            inline_pos: 0,
            line_pos: 0,
            block_size: 0,
            block_extent: 0,
            inline_size: 0,
            inline_extent: 0,
            ns_positioning_box: Rect::zero(),
            init_positioning_box: Rect::zero(),
        }
    }

    /// The box model: the padding box is the content box grown by the
    /// padding, the border box the padding box grown by the border, and the
    /// margin box the border box grown by the effective margin.
    pub open spec fn boxes_nest(&self) -> bool {
        &&& self.padding_box == self.content_box.extend_by(&self.padding)
        &&& self.border_box == self.padding_box.extend_by(&self.border)
        &&& self.margin_box == self.border_box.extend_by(&self.effective_margin)
    }
}

/// What a box is told by the box that contains it.
#[derive(Clone, Copy, Debug, PartialEq, Eq)]
pub struct Context {
    pub containing_box: Rect,
    pub ns_positioning_box: Rect,
    pub init_positioning_box: Rect,
    pub block_pos: Pixels,
    pub inline_pos: Pixels,
    pub line_pos: usize,
    pub float_cursor: FloatCursor,
}

/// A box of the layout tree.
#[derive(Debug)]
pub struct LayoutNode<'a> {
    /// The node of the document that the box stands for; an anonymous box
    /// stands for none.
    pub document_node: Option<&'a DocumentNode>,
    /// The style of the box.
    pub style: Style,
    /// The geometry of the box.
    pub layout: Layout,
    /// The kind of the box.
    pub class: LayoutClass,
    /// The boxes inside the box.
    pub children: Vec<LayoutNode<'a>>,
}

/// The mathematical model of a box.
pub struct BoxView {
    pub document_node: Option<DocumentNode>,
    pub style: Style,
    pub layout: Layout,
    pub class: LayoutClass,
    pub children: Seq<BoxView>,
}

/// The model of a box.
pub open spec fn box_view(node: LayoutNode) -> BoxView
    decreases node,
{
    BoxView {
        document_node: match node.document_node {
            Some(n) => Some(*n),
            None => None,
        },
        style: node.style,
        layout: node.layout,
        class: node.class,
        children: Seq::new(
            node.children@.len(),
            |i: int|
                if 0 <= i < node.children@.len() {
                    box_view(node.children@[i])
                } else {
                    arbitrary()
                },
        ),
    }
}

/// The models of a sequence of boxes.
pub open spec fn box_views(nodes: Seq<LayoutNode>) -> Seq<BoxView> {
    Seq::new(nodes.len(), |i: int| box_view(nodes[i]))
}

impl<'a> View for LayoutNode<'a> {
    type V = BoxView;

    open spec fn view(&self) -> BoxView {
        box_view(*self)
    }
}

/// The model of a box holds the models of the boxes inside it.
pub proof fn lemma_view_children(node: LayoutNode)
    ensures
        node@.children == box_views(node.children@),
{
    assert(node@.children =~= box_views(node.children@));
}

impl BoxView {
    pub open spec fn is_anon(&self) -> bool {
        self.document_node is None
    }

    pub open spec fn is_in_flow(&self) -> bool {
        match self.class {
            LayoutClass::Floated => false,
            LayoutClass::BlockRoot => !self.style.position.is_positioned(),
            _ => true,
        }
    }

    pub open spec fn is_positioned(&self) -> bool {
        self.style.position.is_positioned()
    }
}

impl<'a> LayoutNode<'a> {
    /// Is the box block-level?
    pub fn is_block_level(&self) -> (b: bool)
        ensures
            b == self.class.is_block_level(),
    {
        self.class.is_block_level()
    }

    /// Is the box a block container?
    pub fn is_block_container(&self) -> (b: bool)
        ensures
            b == self.class.is_block_container(),
    {
        self.class.is_block_container()
    }

    /// Has the box a block formatting context of its own?
    pub fn is_block_root(&self) -> (b: bool)
        ensures
            b == self.class.is_block_root(),
    {
        self.class.is_block_root()
    }

    /// Is the box block-level and in the flow of its parent?
    pub fn is_block_flow(&self) -> (b: bool)
        ensures
            b == (self.class.is_block_level() && !self.class.is_floated()),
    {
        self.is_block_level() && !self.is_floated()
    }

    /// Is the box inline-level?
    pub fn is_inline_level(&self) -> (b: bool)
        ensures
            b == self.class.is_inline_level(),
    {
        self.class.is_inline_level()
    }

    /// Is the box an inline container?
    pub fn is_inline_container(&self) -> (b: bool)
        ensures
            b == self.class.is_inline_container(),
    {
        self.class.is_inline_container()
    }

    /// Is the box the wrapper around a run of inline-level boxes?
    pub fn is_inline_root(&self) -> (b: bool)
        ensures
            b == self.class.is_inline_root(),
    {
        self.class.is_inline_root()
    }

    /// Is the box inline-level and not floated?
    pub fn is_inline_flow(&self) -> (b: bool)
        ensures
            b == (self.class.is_inline_level() && !self.class.is_floated()),
    {
        self.is_inline_level() && !self.is_floated()
    }

    /// Is the box floated?
    pub fn is_floated(&self) -> (b: bool)
        ensures
            b == self.class.is_floated(),
    {
        self.class.is_floated()
    }

    /// Is the box floated to the left?
    pub fn is_floated_left(&self) -> (b: bool)
        ensures
            b == (self.class.is_floated() && self.style.float == crate::style::Floated::Left),
    {
        self.is_floated() && self.style.float == crate::style::Floated::Left
    }

    /// Is the box floated to the right?
    pub fn is_floated_right(&self) -> (b: bool)
        ensures
            b == (self.class.is_floated() && self.style.float == crate::style::Floated::Right),
    {
        self.is_floated() && self.style.float == crate::style::Floated::Right
    }

    /// Is the box a run of text?
    pub fn is_text_run(&self) -> (b: bool)
        ensures
            b == self.class.is_text_run(),
    {
        self.class.is_text_run()
    }

    /// Is the box placed by its offsets, out of the flow?
    pub fn is_positioned(&self) -> (b: bool)
        ensures
            b == self@.is_positioned(),
    {
        self.style.position.is_positioned()
    }

    /// Is the box moved by its offsets from its place in the flow?
    pub fn is_relative(&self) -> (b: bool)
        ensures
            b == (self.style.position == Positioned::Relative),
    {
        self.style.position == Positioned::Relative
    }

    /// Has the box an offset on each of its four sides?
    pub fn has_offsets(&self) -> (b: bool)
        ensures
            b == (self.style.left.is_some() && self.style.right.is_some()
                && self.style.top.is_some() && self.style.bottom.is_some()),
    {
        self.style.left.is_some() && self.style.right.is_some() && self.style.top.is_some()
            && self.style.bottom.is_some()
    }

    /// Does the box take part in the flow of its parent?
    pub fn is_in_flow(&self) -> (b: bool)
        ensures
            b == self@.is_in_flow(),
    {
        match self.class {
            LayoutClass::Floated => false,
            LayoutClass::BlockRoot => !self.style.position.is_positioned(),
            _ => true,
        }
    }

    /// Is the box placed outside the flow of its parent?
    pub fn is_out_of_flow(&self) -> (b: bool)
        ensures
            b == !self@.is_in_flow(),
    {
        !self.is_in_flow()
    }

    /// Does the box stand for no node of the document?
    pub fn is_anon(&self) -> (b: bool)
        ensures
            b == self@.is_anon(),
    {
        self.document_node.is_none()
    }
}

/// The box tree of a styled document.
#[derive(Debug)]
pub struct LayoutTree<'a> {
    pub style_tree: &'a StyledTree<'a>,
    pub parameters: Parameters,
    pub layout_root: LayoutNode<'a>,
}

pub open spec fn to_pixels_spec(length: usize) -> Pixels {
    if length > i64::MAX {
        i64::MAX
    } else {
        length as i64
    }
}

/// A length of the output surface as a length of the layout, which is the
/// greatest length where the surface is larger than that.
#[verifier::when_used_as_spec(to_pixels_spec)]
pub fn to_pixels(length: usize) -> (p: Pixels)
    ensures
        p == to_pixels_spec(length),
{
    let wide = length as u64;
    if wide > 0x7fff_ffff_ffff_ffffu64 {
        i64::MAX
    } else {
        wide as i64
    }
}

impl Parameters {
    /// The viewport: the rectangle at the origin with the size of the output
    /// surface.
    pub open spec fn viewport(&self) -> Rect {
        Rect {
            x: 0,
            y: 0,
            width: to_pixels(self.viewport_width),
            height: to_pixels(self.viewport_height),
        }
    }

    /// What the root box is told: the viewport contains it, and it starts at
    /// the origin with no floats placed.
    pub open spec fn root_context_spec(&self) -> Context {
        Context {
            containing_box: self.viewport(),
            ns_positioning_box: self.viewport(),
            init_positioning_box: self.viewport(),
            block_pos: 0,
            inline_pos: 0,
            line_pos: 0,
            float_cursor: FloatCursor::empty(),
        }
    }

    /// What the root box is told: the viewport contains it, and it starts at
    /// the origin with no floats placed.
    #[verifier::when_used_as_spec(root_context_spec)]
    pub fn root_context(&self) -> (c: Context)
        ensures
            c == self.root_context_spec(),
    {
        let block = Rect {
            x: 0,
            y: 0,
            width: to_pixels(self.viewport_width),
            height: to_pixels(self.viewport_height),
        };
        Context {
            containing_box: block,
            ns_positioning_box: block,
            init_positioning_box: block,
            block_pos: 0,
            inline_pos: 0,
            line_pos: 0,
            float_cursor: FloatCursor::empty(),
        }
    }
}

impl<'a> LayoutTree<'a> {
    /// Whether a box tree can be built for the styled document: its root
    /// generates a box, and no node that would generate a box asks for sticky
    /// positioning.
    pub open spec fn accepts_spec(style_tree: &StyledTree) -> bool {
        supported(style_tree.style_root) && class_of(&style_tree.style_root).is_some()
    }

    /// Whether a box tree can be built for the styled document.
    #[verifier::when_used_as_spec(accepts_spec)]
    pub fn accepts(style_tree: &StyledTree) -> (b: bool)
        ensures
            b == Self::accepts_spec(style_tree),
    {
        style_tree.style_root.is_supported() && LayoutClass::of_style_node(
            &style_tree.style_root,
        ).is_some()
    }

    /// The box tree of a styled document, before any layout.
    pub fn new(style_tree: &'a StyledTree<'a>, parameters: Parameters) -> (tree: LayoutTree<'a>)
        requires
            Self::accepts(style_tree),
        ensures
            tree.style_tree == style_tree,
            tree.parameters == parameters,
            tree.layout_root@ == boxes_of(style_tree.style_root).last(),
    {
        LayoutTree { style_tree, parameters, layout_root: LayoutNode::new(&style_tree.style_root) }
    }

    /// Collapses the margins and lays out every box, from the root, which
    /// the viewport contains.
    pub fn layout(&mut self)
        ensures
            final(self).style_tree == old(self).style_tree,
            final(self).parameters == old(self).parameters,
            final(self).layout_root@ == laid_out(
                margins_collapsed(old(self).layout_root@),
                old(self).parameters.root_context(),
            ),
            boxes_nest_throughout(final(self).layout_root@),
    {
        let context = self.parameters.root_context();
        self.layout_root.compute_effective_margin();
        self.layout_root.layout(&context);
    }

    /// The paint commands of the tree, from back to front.
    pub fn render(&self) -> (list: DisplayList)
        ensures
            list@ == painted(self.layout_root@),
    {
        let mut list = DisplayList::new();
        self.layout_root.render(&mut list);
        assert(Seq::<crate::paint::DisplayCommand>::empty() + painted(self.layout_root@)
            =~= painted(self.layout_root@));
        list
    }
}

/// Builds the box tree of a styled document and lays it out in the viewport
/// that the parameters give.
pub fn layout_tree<'a>(style_tree: &'a StyledTree<'a>, parameters: Parameters) -> (tree: LayoutTree<
    'a,
>)
    requires
        LayoutTree::accepts(style_tree),
    ensures
        tree.style_tree == style_tree,
        tree.parameters == parameters,
        tree.layout_root@ == laid_out(
            margins_collapsed(boxes_of(style_tree.style_root).last()),
            parameters.root_context(),
        ),
        boxes_nest_throughout(tree.layout_root@),
{
    let mut layout_tree = LayoutTree::new(style_tree, parameters);
    layout_tree.layout();
    layout_tree
}

/// The paint commands of a box tree, from back to front.
pub fn display_list(layout_tree: &LayoutTree) -> (list: DisplayList)
    ensures
        list@ == painted(layout_tree.layout_root@),
{
    layout_tree.render()
}

} // verus!
