//! The layout of a box tree: every box takes what the containing box tells
//! it, is laid out by the routine of its class, and leaves behind what the
//! containing box reads from it. A box whose class has no routine keeps its
//! content box.

use vstd::prelude::*;
use crate::layout::flow::{block_width, entered, routine_of, with_boxes, Flow, Routine};
use crate::layout::laws::{boxes_nest_throughout, lemma_box_model};
use crate::layout::routines::{
    advanced, begun, block_finished, block_placed, block_sized, child_context, finished,
    float_begun, float_finished, flow_start, inline_begun, inline_finished, inline_root_begun,
    inline_root_finished, made_room,
};
use crate::layout::{box_views, lemma_view_children, BoxView, Context, Layout, LayoutNode};
use crate::style::Style;

verus! {

/// The first `n` of `children` after their layout, and what the box that
/// contains them keeps track of after them. The box makes room for each box
/// before it tells it where it stands, so that a box that does not fit on a
/// line is laid out on the next.
pub open spec fn children_laid_out(
    routine: Routine,
    own: Layout,
    style: Style,
    start: Flow,
    children: Seq<BoxView>,
    n: nat,
) -> (Seq<BoxView>, Flow)
    decreases children, 0nat, n,
{
    if n == 0 || n > children.len() {
        (Seq::empty(), start)
    } else {
        let (done, flow) = children_laid_out(routine, own, style, start, children, (n - 1) as nat);
        let next = children[n - 1];
        let room = made_room(routine, &own, &flow, &next.layout, &next.style, next.class);
        let child = laid_out(next, child_context(routine, &own, &style, &room));
        (done.push(child), advanced(routine, &room, &child.layout, &child.style, child.class))
    }
}

/// The box `b`, which has taken what the containing box tells it, after its
/// layout by `routine`.
pub open spec fn routine_laid_out(routine: Routine, b: BoxView) -> BoxView
    decreases b.children, 1nat,
{
    let own = begun(routine, b.layout, &b.style, b.class);
    let (children, flow) = children_laid_out(
        routine,
        own,
        b.style,
        flow_start(routine, &own),
        b.children,
        b.children.len(),
    );
    BoxView { layout: finished(routine, own, &b.style, b.class, &flow), children, ..b }
}

/// The first `n` of `children`, each after its layout in the context that
/// the box around them was told.
pub open spec fn children_told(children: Seq<BoxView>, n: nat, context: Context) -> Seq<BoxView>
    decreases children, 0nat, n,
{
    if n == 0 || n > children.len() {
        Seq::empty()
    } else {
        children_told(children, (n - 1) as nat, context).push(
            laid_out(children[n - 1], context),
        )
    }
}

/// The box `b` after its layout in the given context.
///
/// A box whose class has no routine takes what the containing box tells it,
/// keeps its content box, and has its padding box, border box and margin box
/// set from it. The boxes inside it, if there are any, are each laid out in
/// the context that the box was told.
pub open spec fn laid_out(b: BoxView, context: Context) -> BoxView
    decreases b.children, 2nat,
{
    let told = BoxView { layout: entered(b.layout, &b.style, &context), ..b };
    match routine_of(b.class, b.is_anon()) {
        Some(routine) => routine_laid_out(routine, told),
        None => BoxView {
            layout: with_boxes(told.layout),
            children: children_told(b.children, b.children.len(), context),
            ..told
        },
    }
}

impl<'a> LayoutNode<'a> {
    /// Lays out the box and the boxes inside it.
    pub fn layout(&mut self, context: &Context)
        ensures
            final(self)@ == laid_out(old(self)@, *context),
            boxes_nest_throughout(final(self)@),
        decreases old(self).children, 2nat,
    {
        self.layout = entered(self.layout, &self.style, context);
        proof {
            lemma_view_children(*self);
            lemma_view_children(*old(self));
            lemma_box_model(old(self)@, *context);
        }
        match routine_of(self.class, self.is_anon()) {
            Some(Routine::Block) => self.layout_block(),
            Some(Routine::Inline) => self.layout_inline(),
            Some(Routine::InlineRoot) => self.layout_inline_root(),
            Some(Routine::Float) => self.layout_float(),
            None => {
                self.layout = with_boxes(self.layout);
                self.tell_children(context);
                proof {
                    lemma_view_children(*self);
                }
            },
        }
    }

    /// Lays out the boxes inside a box whose class has no routine, each in
    /// the context that the box was told.
    fn tell_children(&mut self, context: &Context)
        ensures
            final(self).document_node == old(self).document_node,
            final(self).style == old(self).style,
            final(self).layout == old(self).layout,
            final(self).class == old(self).class,
            final(self)@.children == children_told(
                old(self)@.children,
                old(self)@.children.len(),
                *context,
            ),
        decreases old(self).children, 0nat,
    {
        let mut i: usize = 0;
        proof {
            lemma_view_children(*self);
        }
        while i < self.children.len()
            invariant
                i <= self.children@.len(),
                self.document_node == old(self).document_node,
                self.style == old(self).style,
                self.layout == old(self).layout,
                self.class == old(self).class,
                self.children@.len() == old(self).children@.len(),
                old(self)@.children == box_views(old(self).children@),
                forall|j: int|
                    i <= j < self.children@.len() ==> self.children@[j] == old(self).children@[j],
                box_views(self.children@).take(i as int) == children_told(
                    old(self)@.children,
                    i as nat,
                    *context,
                ),
            decreases self.children@.len() - i,
        {
            let ghost before = box_views(self.children@);
            let child = &mut self.children[i];
            child.layout(context);
            i += 1;
            proof {
                assert(box_views(self.children@).take(i as int) =~= before.take(i - 1).push(
                    box_views(self.children@)[i - 1],
                ));
            }
        }
        proof {
            lemma_view_children(*self);
            assert(box_views(self.children@).take(i as int) =~= box_views(self.children@));
        }
    }

    /// Lays out the boxes inside the box, one after the other.
    fn layout_children(&mut self, routine: Routine, start: Flow) -> (end: Flow)
        ensures
            final(self).document_node == old(self).document_node,
            final(self).style == old(self).style,
            final(self).layout == old(self).layout,
            final(self).class == old(self).class,
            (final(self)@.children, end) == children_laid_out(
                routine,
                old(self).layout,
                old(self).style,
                start,
                old(self)@.children,
                old(self)@.children.len(),
            ),
        decreases old(self).children, 0nat,
    {
        let own = self.layout;
        let style = self.style;
        let mut flow = start;
        let mut i: usize = 0;
        proof {
            lemma_view_children(*self);
        }
        while i < self.children.len()
            invariant
                i <= self.children@.len(),
                self.document_node == old(self).document_node,
                self.style == old(self).style,
                self.layout == old(self).layout,
                self.class == old(self).class,
                own == old(self).layout,
                style == old(self).style,
                self.children@.len() == old(self).children@.len(),
                old(self)@.children == box_views(old(self).children@),
                forall|j: int|
                    i <= j < self.children@.len() ==> self.children@[j] == old(self).children@[j],
                (box_views(self.children@).take(i as int), flow) == children_laid_out(
                    routine,
                    own,
                    style,
                    start,
                    old(self)@.children,
                    i as nat,
                ),
            decreases self.children@.len() - i,
        {
            let ghost before = box_views(self.children@);
            let room = made_room(
                routine,
                &own,
                &flow,
                &self.children[i].layout,
                &self.children[i].style,
                self.children[i].class,
            );
            let context = child_context(routine, &own, &style, &room);
            let child = &mut self.children[i];
            child.layout(&context);
            flow = advanced(routine, &room, &child.layout, &child.style, child.class);
            i += 1;
            proof {
                assert(box_views(self.children@).take(i as int) =~= before.take(i - 1).push(
                    box_views(self.children@)[i - 1],
                ));
            }
        }
        proof {
            lemma_view_children(*self);
            assert(box_views(self.children@).take(i as int) =~= box_views(self.children@));
        }
        flow
    }

    /// Sets the width of the content box and the horizontal margins of a
    /// block from the width equation.
    pub fn calculate_block_width(&mut self)
        ensures
            final(self).layout == block_sized(old(self).layout, &old(self).style),
            final(self).document_node == old(self).document_node,
            final(self).style == old(self).style,
            final(self).class == old(self).class,
            final(self).children == old(self).children,
    {
        let w = block_width(self.layout.containing_box.width, &self.style);
        self.layout.underflow = w.underflow;
        self.layout.content_box.width = w.content_width;
        self.layout.margin.left = w.margin_left;
        self.layout.margin.right = w.margin_right;
    }

    /// Lays out a block and the boxes inside it.
    pub fn layout_block(&mut self)
        ensures
            final(self)@ == routine_laid_out(Routine::Block, old(self)@),
        decreases old(self).children, 1nat,
    {
        self.layout.padding = self.style.padding;
        self.layout.border = self.style.border;
        self.calculate_block_width();
        self.layout = block_placed(self.layout, &self.style, self.class);
        proof {
            lemma_view_children(*self);
            lemma_view_children(*old(self));
        }
        let flow = self.layout_children(Routine::Block, flow_start(Routine::Block, &self.layout));
        let ghost after = *self;
        self.layout = block_finished(self.layout, &self.style, self.class, &flow);
        proof {
            lemma_view_children(*self);
            lemma_view_children(after);
        }
    }

    /// Lays out an inline box and the boxes inside it.
    pub fn layout_inline(&mut self)
        ensures
            final(self)@ == routine_laid_out(Routine::Inline, old(self)@),
        decreases old(self).children, 1nat,
    {
        self.layout = inline_begun(self.layout, &self.style);
        proof {
            lemma_view_children(*self);
            lemma_view_children(*old(self));
        }
        let flow = self.layout_children(Routine::Inline, flow_start(Routine::Inline, &self.layout));
        let ghost after = *self;
        self.layout = inline_finished(self.layout, &self.style, &flow);
        proof {
            lemma_view_children(*self);
            lemma_view_children(after);
        }
    }

    /// Lays out the wrapper around a run of inline-level boxes and the boxes
    /// inside it, line by line.
    pub fn layout_inline_root(&mut self)
        ensures
            final(self)@ == routine_laid_out(Routine::InlineRoot, old(self)@),
        decreases old(self).children, 1nat,
    {
        self.layout = inline_root_begun(self.layout, &self.style);
        proof {
            lemma_view_children(*self);
            lemma_view_children(*old(self));
        }
        let flow = self.layout_children(
            Routine::InlineRoot,
            flow_start(Routine::InlineRoot, &self.layout),
        );
        let ghost after = *self;
        self.layout = inline_root_finished(self.layout, &self.style, self.class, &flow);
        proof {
            lemma_view_children(*self);
            lemma_view_children(after);
        }
    }

    /// Lays out a floated box and the boxes inside it.
    pub fn layout_float(&mut self)
        ensures
            final(self)@ == routine_laid_out(Routine::Float, old(self)@),
        decreases old(self).children, 1nat,
    {
        self.layout = float_begun(self.layout, &self.style, self.class);
        proof {
            lemma_view_children(*self);
            lemma_view_children(*old(self));
        }
        let flow = self.layout_children(Routine::Float, flow_start(Routine::Float, &self.layout));
        let ghost after = *self;
        self.layout = float_finished(self.layout, &self.style, self.class, &flow);
        proof {
            lemma_view_children(*self);
            lemma_view_children(after);
        }
    }
}

} // verus!
