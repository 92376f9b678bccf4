//! What holds of every box tree that is built, and of every tree that is laid
//! out.

use vstd::prelude::*;
use crate::layout::construct::{
    anonymous, block_contents, boxes_of, child_boxes, class_of, generated, inline_splits,
    lemma_run_length, run_length, supported, uses_sticky, RunKind,
};
use crate::layout::engine::{children_laid_out, children_told, laid_out, routine_laid_out};
use crate::floats::FloatCursor;
use crate::geometry::{px_add, Pixels, Rect};
use crate::layout::flow::{block_width, entered, outer_width, routine_of, Flow, Routine};
use crate::layout::margins::{
    collapsed_margin, first_in_flow, last_in_flow, margins_collapsed, siblings_collapsed,
};
use crate::layout::routines::{
    begun, child_context, float_begun, float_finished, float_fitted, float_origin, flow_start,
    made_room, next_context, next_line,
};
use crate::layout::{BoxView, Context, Layout, LayoutClass, LayoutTree};
use crate::style::{Floated, Positioned, Style, StyledNode, StyledTree};

verus! {

/// Whether the boxes inside every block container of the tree are all
/// block-level or all inline-level.
pub open spec fn homogeneous(b: BoxView) -> bool
    decreases b.children,
{
    &&& b.class.is_block_container() ==> {
        ||| forall|i: int|
            0 <= i < b.children.len() ==> (#[trigger] b.children[i].class).is_block_level()
        ||| forall|i: int|
            0 <= i < b.children.len() ==> (#[trigger] b.children[i].class).is_inline_level()
    }
    &&& forall|i: int| 0 <= i < b.children.len() ==> homogeneous(#[trigger] b.children[i])
}

/// Whether every block container of the tree holds block-level boxes only,
/// and every inline container inline-level boxes only.
pub open spec fn levels_kept(b: BoxView) -> bool
    decreases b.children,
{
    &&& b.class.is_block_container() ==> forall|i: int|
        0 <= i < b.children.len() ==> (#[trigger] b.children[i].class).is_block_level()
    &&& b.class.is_inline_container() ==> forall|i: int|
        0 <= i < b.children.len() ==> (#[trigger] b.children[i].class).is_inline_level()
    &&& forall|i: int| 0 <= i < b.children.len() ==> levels_kept(#[trigger] b.children[i])
}

/// A tree in which every container holds boxes of its own level only is
/// homogeneous.
pub proof fn lemma_levels_kept_homogeneous(b: BoxView)
    requires
        levels_kept(b),
    ensures
        homogeneous(b),
    decreases b.children,
{
    assert forall|i: int| 0 <= i < b.children.len() implies homogeneous(
        #[trigger] b.children[i],
    ) by {
        lemma_levels_kept_homogeneous(b.children[i]);
    }
}

proof fn lemma_block_contents_kept(style: &Style, boxes: Seq<BoxView>)
    requires
        forall|i: int| 0 <= i < boxes.len() ==> levels_kept(#[trigger] boxes[i]),
    ensures
        forall|i: int|
            0 <= i < block_contents(style, boxes).len() ==> levels_kept(
                #[trigger] block_contents(style, boxes)[i],
            ) && block_contents(style, boxes)[i].class.is_block_level(),
    decreases boxes.len(),
{
    if boxes.len() == 0 {
    } else if boxes[0].class.is_block_level() {
        let rest = boxes.drop_first();
        assert forall|i: int| 0 <= i < rest.len() implies levels_kept(#[trigger] rest[i]) by {
            assert(rest[i] == boxes[i + 1]);
        }
        lemma_block_contents_kept(style, rest);
    } else {
        lemma_run_length(boxes, RunKind::InlineLevel);
        assert(RunKind::InlineLevel.accepts(boxes[0].class));
        let n = run_length(boxes, RunKind::InlineLevel);
        let run = boxes.take(n as int);
        let rest = boxes.skip(n as int);
        assert forall|i: int| 0 <= i < rest.len() implies levels_kept(#[trigger] rest[i]) by {
            assert(rest[i] == boxes[i + n]);
        }
        lemma_block_contents_kept(style, rest);
        let wrapper = anonymous(LayoutClass::InlineRoot, style, run);
        assert forall|i: int| 0 <= i < run.len() implies levels_kept(#[trigger] run[i]) && (
        #[trigger] run[i].class).is_inline_level() by {
            assert(run[i] == boxes[i]);
            assert(RunKind::InlineLevel.accepts(boxes[i].class));
        }
        assert(levels_kept(wrapper));
    }
}

proof fn lemma_inline_splits_kept(node: &StyledNode, class: LayoutClass, boxes: Seq<BoxView>)
    requires
        !class.is_block_container(),
        forall|i: int| 0 <= i < boxes.len() ==> levels_kept(#[trigger] boxes[i]),
    ensures
        forall|i: int|
            0 <= i < inline_splits(node, class, boxes).len() ==> levels_kept(
                #[trigger] inline_splits(node, class, boxes)[i],
            ),
    decreases boxes.len(),
{
    let n = run_length(boxes, RunKind::InlineLevel);
    lemma_run_length(boxes, RunKind::InlineLevel);
    let run = boxes.take(n as int);
    let head = generated(node, class, run);
    assert forall|i: int| 0 <= i < run.len() implies levels_kept(#[trigger] run[i]) && (
    #[trigger] run[i].class).is_inline_level() by {
        assert(run[i] == boxes[i]);
        assert(RunKind::InlineLevel.accepts(boxes[i].class));
    }
    assert(levels_kept(head));
    if n < boxes.len() {
        let rest = boxes.skip(n as int);
        lemma_run_length(rest, RunKind::BlockFlow);
        assert(rest[0] == boxes[n as int]);
        assert(RunKind::BlockFlow.accepts(rest[0].class));
        let b = run_length(rest, RunKind::BlockFlow);
        let blocks = rest.take(b as int);
        assert forall|i: int| 0 <= i < blocks.len() implies levels_kept(#[trigger] blocks[i]) && (
        #[trigger] blocks[i].class).is_block_level() by {
            assert(blocks[i] == rest[i]);
            assert(rest[i] == boxes[i + n]);
            assert(RunKind::BlockFlow.accepts(rest[i].class));
        }
        let wrapper = anonymous(LayoutClass::Block, &node.specified, blocks);
        assert(levels_kept(wrapper));
        let left = rest.skip(b as int);
        assert forall|i: int| 0 <= i < left.len() implies levels_kept(#[trigger] left[i]) by {
            assert(left[i] == boxes[i + n + b]);
        }
        lemma_inline_splits_kept(node, class, left);
        let first = seq![head, wrapper];
        let more = inline_splits(node, class, left);
        assert forall|i: int| 0 <= i < (first + more).len() implies levels_kept(
            #[trigger] (first + more)[i],
        ) by {
            if i >= 2 {
                assert((first + more)[i] == more[i - 2]);
            }
        }
    }
}

proof fn lemma_child_boxes_kept(children: Seq<StyledNode>, n: nat)
    ensures
        forall|i: int|
            0 <= i < child_boxes(children, n).len() ==> levels_kept(
                #[trigger] child_boxes(children, n)[i],
            ),
    decreases children, n,
{
    if n == 0 || n > children.len() {
    } else {
        lemma_child_boxes_kept(children, (n - 1) as nat);
        lemma_boxes_levels_kept(children[n - 1]);
        let before = child_boxes(children, (n - 1) as nat);
        let more = boxes_of(children[n - 1]);
        assert forall|i: int| 0 <= i < (before + more).len() implies levels_kept(
            #[trigger] (before + more)[i],
        ) by {
            if i < before.len() {
                assert((before + more)[i] == before[i]);
            } else {
                assert((before + more)[i] == more[i - before.len()]);
            }
        }
    }
}

/// In the box tree of any styled document, every block container holds
/// block-level boxes only, and every inline container inline-level boxes
/// only.
pub proof fn lemma_boxes_levels_kept(node: StyledNode)
    ensures
        forall|i: int|
            0 <= i < boxes_of(node).len() ==> levels_kept(#[trigger] boxes_of(node)[i]),
    decreases node, 0nat,
{
    match class_of(&node) {
        None => {},
        Some(class) => {
            let inner = child_boxes(node.children@, node.children@.len());
            lemma_child_boxes_kept(node.children@, node.children@.len());
            if class.is_block_container() {
                lemma_block_contents_kept(&node.specified, inner);
                let contents = block_contents(&node.specified, inner);
                let wrapper = anonymous(LayoutClass::BlockRoot, &node.specified, contents);
                assert(levels_kept(wrapper));
                if class.is_floated() && node.children@.len() > 0 {
                    assert(levels_kept(generated(&node, class, seq![wrapper])));
                } else {
                    assert(levels_kept(generated(&node, class, contents)));
                }
            } else {
                lemma_inline_splits_kept(&node, class, inner);
            }
        },
    }
}

/// In the box tree of any styled document, the boxes inside a block container
/// are all block-level or all inline-level.
pub proof fn lemma_boxes_homogeneous(node: StyledNode)
    ensures
        forall|i: int|
            0 <= i < boxes_of(node).len() ==> homogeneous(#[trigger] boxes_of(node)[i]),
{
    lemma_boxes_levels_kept(node);
    assert forall|i: int| 0 <= i < boxes_of(node).len() implies homogeneous(
        #[trigger] boxes_of(node)[i],
    ) by {
        lemma_levels_kept_homogeneous(boxes_of(node)[i]);
    }
}

/// Whether the box model holds of every box of the tree.
pub open spec fn boxes_nest_throughout(b: BoxView) -> bool
    decreases b.children,
{
    &&& b.layout.boxes_nest()
    &&& forall|i: int|
        0 <= i < b.children.len() ==> boxes_nest_throughout(#[trigger] b.children[i])
}

proof fn lemma_told_children_nest(children: Seq<BoxView>, n: nat, context: Context)
    requires
        n <= children.len(),
    ensures
        children_told(children, n, context).len() == n,
        forall|i: int|
            0 <= i < n ==> boxes_nest_throughout(#[trigger] children_told(children, n, context)[i]),
    decreases children, 0nat, n,
{
    if n > 0 {
        lemma_told_children_nest(children, (n - 1) as nat, context);
        lemma_box_model(children[n - 1], context);
    }
}

proof fn lemma_children_nest(
    routine: Routine,
    own: Layout,
    style: Style,
    start: Flow,
    children: Seq<BoxView>,
    n: nat,
)
    requires
        n <= children.len(),
    ensures
        children_laid_out(routine, own, style, start, children, n).0.len() == n,
        forall|i: int|
            0 <= i < n ==> boxes_nest_throughout(
                #[trigger] children_laid_out(routine, own, style, start, children, n).0[i],
            ),
    decreases children, 0nat, n,
{
    if n > 0 {
        lemma_children_nest(routine, own, style, start, children, (n - 1) as nat);
        let (done, flow) = children_laid_out(routine, own, style, start, children, (n - 1) as nat);
        lemma_box_model(children[n - 1], next_context(
            routine,
            &own,
            &style,
            &flow,
            &children[n - 1].layout,
            &children[n - 1].style,
            children[n - 1].class,
        ));
    }
}

proof fn lemma_routine_nests(routine: Routine, b: BoxView)
    requires
        routine_of(b.class, b.is_anon()) == Some(routine),
    ensures
        boxes_nest_throughout(routine_laid_out(routine, b)),
    decreases b.children, 1nat,
{
    let own = begun(routine, b.layout, &b.style, b.class);
    lemma_children_nest(
        routine,
        own,
        b.style,
        flow_start(routine, &own),
        b.children,
        b.children.len(),
    );
}

/// After the layout, the box model holds of every box of the tree: the
/// padding box is the content box grown by the padding, the border box the
/// padding box grown by the border, and the margin box the border box grown
/// by the effective margin.
pub proof fn lemma_box_model(b: BoxView, context: Context)
    ensures
        boxes_nest_throughout(laid_out(b, context)),
    decreases b.children, 2nat,
{
    let told = BoxView { layout: entered(b.layout, &b.style, &context), ..b };
    match routine_of(b.class, b.is_anon()) {
        Some(routine) => {
            lemma_routine_nests(routine, told);
        },
        None => {
            lemma_told_children_nest(b.children, b.children.len(), context);
        },
    }
}

proof fn lemma_children_floats_grow(
    routine: Routine,
    own: Layout,
    style: Style,
    start: Flow,
    children: Seq<BoxView>,
    n: nat,
)
    requires
        n <= children.len(),
    ensures
        start.float_cursor.grows_to(
            &children_laid_out(routine, own, style, start, children, n).1.float_cursor,
        ),
    decreases children, 0nat, n,
{
    if n > 0 {
        lemma_children_floats_grow(routine, own, style, start, children, (n - 1) as nat);
        let (done, flow) = children_laid_out(routine, own, style, start, children, (n - 1) as nat);
        lemma_floats_only_grow(children[n - 1], next_context(
            routine,
            &own,
            &style,
            &flow,
            &children[n - 1].layout,
            &children[n - 1].style,
            children[n - 1].class,
        ));
    }
}

proof fn lemma_routine_floats_grow(routine: Routine, b: BoxView)
    ensures
        b.layout.float_cursor.grows_to(&routine_laid_out(routine, b).layout.float_cursor),
    decreases b.children, 1nat,
{
    let own = begun(routine, b.layout, &b.style, b.class);
    lemma_children_floats_grow(
        routine,
        own,
        b.style,
        flow_start(routine, &own),
        b.children,
        b.children.len(),
    );
}

/// The layout of a box never takes an exclusion back: the float cursor that a
/// box leaves behind holds every exclusion of the one that it was told.
pub proof fn lemma_floats_only_grow(b: BoxView, context: Context)
    ensures
        context.float_cursor.grows_to(&laid_out(b, context).layout.float_cursor),
    decreases b.children, 2nat,
{
    let told = BoxView { layout: entered(b.layout, &b.style, &context), ..b };
    match routine_of(b.class, b.is_anon()) {
        Some(routine) => {
            lemma_routine_floats_grow(routine, told);
        },
        None => {},
    }
}

/// An exclusion that a float cursor accounts for is accounted for by every
/// cursor that it grows to.
pub proof fn lemma_grown_cursor_keeps_floats(before: FloatCursor, after: FloatCursor, earlier: Rect)
    requires
        before.grows_to(&after),
    ensures
        before.excludes_left(&earlier) ==> after.excludes_left(&earlier),
        before.excludes_right(&earlier) ==> after.excludes_right(&earlier),
{
}

/// Whether a length is so far from the ends of the representable range that
/// a sum of eight such lengths does not saturate.
pub open spec fn in_range(v: Pixels) -> bool {
    -0x0800_0000_0000_0000 <= v <= 0x0800_0000_0000_0000
}

/// Whether the lengths that place a floated box are in range: where its
/// margin box goes, the width of its content, and its padding, border and
/// effective margin.
pub open spec fn float_in_range(b: BoxView, context: Context) -> bool {
    let fitted = float_fitted(entered(b.layout, &b.style, &context), &b.style);
    let origin = float_origin(&fitted, &b.style, b.class);
    &&& in_range(origin.0)
    &&& in_range(origin.1)
    &&& in_range(fitted.content_box.width)
    &&& in_range(fitted.padding.left)
    &&& in_range(fitted.padding.right)
    &&& in_range(fitted.padding.top)
    &&& in_range(fitted.border.left)
    &&& in_range(fitted.border.right)
    &&& in_range(fitted.border.top)
    &&& in_range(fitted.effective_margin.left)
    &&& in_range(fitted.effective_margin.right)
    &&& in_range(fitted.effective_margin.top)
}

/// The margin box of a floated box starts where the float cursor places it
/// and is as wide as the outer width that was placed, as long as the lengths
/// are in range.
pub proof fn lemma_float_margin_box(b: BoxView, context: Context)
    requires
        routine_of(b.class, b.is_anon()) == Some(Routine::Float),
        float_in_range(b, context),
    ensures
        ({
            let fitted = float_fitted(entered(b.layout, &b.style, &context), &b.style);
            let origin = float_origin(&fitted, &b.style, b.class);
            let margin_box = laid_out(b, context).layout.margin_box;
            &&& margin_box.x == origin.0
            &&& margin_box.y == origin.1
            &&& margin_box.width == outer_width(&fitted)
        }),
{
    let told = BoxView { layout: entered(b.layout, &b.style, &context), ..b };
    let fitted = float_fitted(told.layout, &b.style);
    let origin = float_origin(&fitted, &b.style, b.class);
    let own = float_begun(told.layout, &b.style, b.class);
    assert(own == begun(Routine::Float, told.layout, &told.style, told.class));
    let flow = children_laid_out(
        Routine::Float,
        own,
        b.style,
        flow_start(Routine::Float, &own),
        b.children,
        b.children.len(),
    ).1;
    let done = float_finished(own, &b.style, b.class, &flow);
    assert(laid_out(b, context).layout == done);
    assert(own.content_box.x == origin.0 + fitted.padding.left + fitted.border.left
        + fitted.effective_margin.left);
    assert(own.content_box.y == origin.1 + fitted.padding.top + fitted.border.top
        + fitted.effective_margin.top);
    assert(done.padding_box.x == own.content_box.x - fitted.padding.left);
    assert(done.border_box.x == done.padding_box.x - fitted.border.left);
    assert(done.padding_box.y == own.content_box.y - fitted.padding.top);
    assert(done.border_box.y == done.padding_box.y - fitted.border.top);
    assert(done.padding_box.width == fitted.content_box.width + fitted.padding.left
        + fitted.padding.right);
    assert(done.border_box.width == done.padding_box.width + fitted.border.left
        + fitted.border.right);
}

/// Whether the margin box of the floated box `b` keeps to the band in which
/// the float cursor placed it: it does not start above the height at which it
/// was placed, a float on the left does not start before the start of the
/// band that is free there, and a float on the right does not reach past its
/// end. Only a sum of lengths that leaves the representable range can move a
/// float out of its band.
pub open spec fn float_keeps_to_band(b: BoxView, context: Context) -> bool {
    let fitted = float_fitted(entered(b.layout, &b.style, &context), &b.style);
    let origin = float_origin(&fitted, &b.style, b.class);
    let band = fitted.float_cursor.inline_space(
        fitted.containing_box.x,
        fitted.containing_box.right(),
        origin.1,
    );
    let margin_box = laid_out(b, context).layout.margin_box;
    &&& margin_box.y >= origin.1
    &&& b.style.float == Floated::Left ==> margin_box.x >= band.0
    &&& b.style.float == Floated::Right ==> margin_box.right() <= band.1
}

/// A floated box whose lengths are in range keeps to the band in which the
/// float cursor placed it.
pub proof fn lemma_float_in_range_keeps_to_band(b: BoxView, context: Context)
    requires
        b.class == LayoutClass::Floated,
        float_in_range(b, context),
    ensures
        float_keeps_to_band(b, context),
{
    lemma_float_margin_box(b, context);
}

/// A floated box on the left does not overlap an earlier float that the float
/// cursor accounts for, as long as it keeps to the band in which it was
/// placed. Where its border box has a height, the float cursor that it leaves
/// behind accounts for its own margin box too.
pub proof fn lemma_left_float_apart(b: BoxView, context: Context, earlier: Rect)
    requires
        b.class == LayoutClass::Floated,
        b.style.float == Floated::Left,
        context.float_cursor.excludes_left(&earlier),
        float_keeps_to_band(b, context),
    ensures
        !earlier.overlaps(&laid_out(b, context).layout.margin_box),
        laid_out(b, context).layout.float_cursor.excludes_left(&earlier),
        laid_out(b, context).layout.border_box.height > 0 ==> laid_out(
            b,
            context,
        ).layout.float_cursor.excludes_left(&laid_out(b, context).layout.margin_box),
{
    lemma_floats_only_grow(b, context);
}

/// A floated box on the right does not overlap an earlier float that the
/// float cursor accounts for, as long as it keeps to the band in which it was
/// placed. Where its border box has a height, the float cursor that it leaves
/// behind accounts for its own margin box too.
pub proof fn lemma_right_float_apart(b: BoxView, context: Context, earlier: Rect)
    requires
        b.class == LayoutClass::Floated,
        b.style.float == Floated::Right,
        context.float_cursor.excludes_right(&earlier),
        float_keeps_to_band(b, context),
    ensures
        !earlier.overlaps(&laid_out(b, context).layout.margin_box),
        laid_out(b, context).layout.float_cursor.excludes_right(&earlier),
        laid_out(b, context).layout.border_box.height > 0 ==> laid_out(
            b,
            context,
        ).layout.float_cursor.excludes_right(&laid_out(b, context).layout.margin_box),
{
    lemma_floats_only_grow(b, context);
}

/// Whether `after` is `before` with other margins and effective margins:
/// the trees have the same boxes, and every box has kept its node, its style,
/// its class and the rest of its geometry.
pub open spec fn same_but_margins(before: BoxView, after: BoxView) -> bool
    decreases before.children,
{
    &&& after.document_node == before.document_node
    &&& after.style == before.style
    &&& after.class == before.class
    &&& after.layout == (Layout {
        margin: after.layout.margin,
        effective_margin: after.layout.effective_margin,
        ..before.layout
    })
    &&& after.children.len() == before.children.len()
    &&& forall|i: int|
        0 <= i < before.children.len() ==> same_but_margins(
            #[trigger] before.children[i],
            after.children[i],
        )
}

proof fn lemma_margin_change_keeps(before: BoxView, after: BoxView, margin: Pixels)
    requires
        same_but_margins(before, after),
    ensures
        same_but_margins(before, after.with_margin_top(margin)),
        same_but_margins(before, after.with_margin_bottom(margin)),
{
    assert forall|i: int| 0 <= i < before.children.len() implies same_but_margins(
        #[trigger] before.children[i],
        after.with_margin_top(margin).children[i],
    ) by {}
    assert forall|i: int| 0 <= i < before.children.len() implies same_but_margins(
        #[trigger] before.children[i],
        after.with_margin_bottom(margin).children[i],
    ) by {}
}

proof fn lemma_siblings_keep_geometry(children: Seq<BoxView>, n: nat)
    requires
        n <= children.len(),
    ensures
        siblings_collapsed(children, n).len() == n,
        forall|i: int|
            0 <= i < n ==> same_but_margins(
                #[trigger] children[i],
                siblings_collapsed(children, n)[i],
            ),
    decreases children, 0nat, n,
{
    if n > 0 {
        lemma_siblings_keep_geometry(children, (n - 1) as nat);
        lemma_margins_keep_geometry(children[n - 1]);
        let done = siblings_collapsed(children, (n - 1) as nat);
        let child = margins_collapsed(children[n - 1]);
        let out = siblings_collapsed(children, n);
        if n >= 2 && child.adjoins() && done[n - 2].adjoins() {
            lemma_margin_change_keeps(children[n - 2], done[n - 2], 0);
            lemma_margin_change_keeps(
                children[n - 1],
                child,
                collapsed_margin(
                    child.layout.effective_margin.top,
                    done[n - 2].layout.effective_margin.bottom,
                ),
            );
        }
        assert forall|i: int| 0 <= i < n implies same_but_margins(
            #[trigger] children[i],
            out[i],
        ) by {
            if i < n - 2 {
                assert(out[i] == done[i]);
            }
        }
    }
}

/// The collapse of margins changes nothing but margins: every box keeps its
/// node, its style, its class, the boxes inside it, and all of its geometry
/// but the margin and the effective margin.
pub proof fn lemma_margins_keep_geometry(b: BoxView)
    ensures
        same_but_margins(b, margins_collapsed(b)),
    decreases b.children, 1nat,
{
    lemma_siblings_keep_geometry(b.children, b.children.len());
    let children = siblings_collapsed(b.children, b.children.len());
    let out = margins_collapsed(b);
    if b.class.is_block_root() {
        assert(out.children == children);
    } else {
        let first = if b.style.border.top == 0 && b.style.padding.top == 0 {
            first_in_flow(children, 0)
        } else {
            None
        };
        let topped = match first {
            Some(i) => children.update(i, children[i].with_margin_top(0)),
            None => children,
        };
        let last = if b.style.border.bottom == 0 && b.style.padding.bottom == 0 {
            last_in_flow(topped, topped.len())
        } else {
            None
        };
        let bottomed = match last {
            Some(i) => topped.update(i, topped[i].with_margin_bottom(0)),
            None => topped,
        };
        assert(out.children == bottomed);
        lemma_first_in_flow(children, 0);
        lemma_last_in_flow(topped, topped.len());
        assert forall|i: int| 0 <= i < b.children.len() implies same_but_margins(
            #[trigger] b.children[i],
            bottomed[i],
        ) by {
            lemma_margin_change_keeps(b.children[i], children[i], 0);
            lemma_margin_change_keeps(b.children[i], topped[i], 0);
        }
    }
}

/// The first box in the flow is one of the boxes.
proof fn lemma_first_in_flow(children: Seq<BoxView>, from: nat)
    ensures
        match first_in_flow(children, from) {
            Some(i) => from <= i < children.len(),
            None => true,
        },
    decreases children.len() - from,
{
    if from < children.len() && !children[from as int].class.is_floated()
        && !children[from as int].is_in_flow() {
        lemma_first_in_flow(children, from + 1);
    }
}

/// The last box in the flow is one of the boxes.
proof fn lemma_last_in_flow(children: Seq<BoxView>, upto: nat)
    ensures
        match last_in_flow(children, upto) {
            Some(i) => 0 <= i < upto && i < children.len(),
            None => true,
        },
    decreases upto,
{
    if 0 < upto <= children.len() && !children[upto - 1].class.is_floated() && !children[upto
        - 1].is_in_flow() {
        lemma_last_in_flow(children, (upto - 1) as nat);
    }
}

/// Whether `after` is `before` with another geometry but the same effective
/// margins: the trees have the same boxes, and every box has kept its node,
/// its style, its class and its effective margin.
pub open spec fn same_but_geometry(before: BoxView, after: BoxView) -> bool
    decreases before.children,
{
    &&& after.document_node == before.document_node
    &&& after.style == before.style
    &&& after.class == before.class
    &&& after.layout.effective_margin == before.layout.effective_margin
    &&& after.children.len() == before.children.len()
    &&& forall|i: int|
        0 <= i < before.children.len() ==> same_but_geometry(
            #[trigger] before.children[i],
            after.children[i],
        )
}

proof fn lemma_told_children_keep_margins(children: Seq<BoxView>, n: nat, context: Context)
    requires
        n <= children.len(),
    ensures
        children_told(children, n, context).len() == n,
        forall|i: int|
            0 <= i < n ==> same_but_geometry(
                #[trigger] children[i],
                children_told(children, n, context)[i],
            ),
    decreases children, 0nat, n,
{
    if n > 0 {
        lemma_told_children_keep_margins(children, (n - 1) as nat, context);
        lemma_layout_keeps_margins(children[n - 1], context);
    }
}

proof fn lemma_children_keep_margins(
    routine: Routine,
    own: Layout,
    style: Style,
    start: Flow,
    children: Seq<BoxView>,
    n: nat,
)
    requires
        n <= children.len(),
    ensures
        children_laid_out(routine, own, style, start, children, n).0.len() == n,
        forall|i: int|
            0 <= i < n ==> same_but_geometry(
                #[trigger] children[i],
                children_laid_out(routine, own, style, start, children, n).0[i],
            ),
    decreases children, 0nat, n,
{
    if n > 0 {
        lemma_children_keep_margins(routine, own, style, start, children, (n - 1) as nat);
        let (done, flow) = children_laid_out(routine, own, style, start, children, (n - 1) as nat);
        lemma_layout_keeps_margins(children[n - 1], next_context(
            routine,
            &own,
            &style,
            &flow,
            &children[n - 1].layout,
            &children[n - 1].style,
            children[n - 1].class,
        ));
    }
}

proof fn lemma_routine_keeps_margins(routine: Routine, b: BoxView)
    requires
        routine_of(b.class, b.is_anon()) == Some(routine),
    ensures
        same_but_geometry(b, routine_laid_out(routine, b)),
    decreases b.children, 1nat,
{
    let own = begun(routine, b.layout, &b.style, b.class);
    lemma_children_keep_margins(
        routine,
        own,
        b.style,
        flow_start(routine, &own),
        b.children,
        b.children.len(),
    );
}

/// The layout changes nothing but geometry, and leaves the effective margins
/// as the collapse of margins has set them: every box keeps its node, its
/// style, its class and its effective margin.
pub proof fn lemma_layout_keeps_margins(b: BoxView, context: Context)
    ensures
        same_but_geometry(b, laid_out(b, context)),
    decreases b.children, 2nat,
{
    let told = BoxView { layout: entered(b.layout, &b.style, &context), ..b };
    match routine_of(b.class, b.is_anon()) {
        Some(routine) => {
            lemma_routine_keeps_margins(routine, told);
            assert forall|i: int| 0 <= i < b.children.len() implies same_but_geometry(
                #[trigger] b.children[i],
                laid_out(b, context).children[i],
            ) by {
                assert(told.children[i] == b.children[i]);
            }
        },
        None => {
            lemma_told_children_keep_margins(b.children, b.children.len(), context);
        },
    }
}

/// Whether the lengths of the width equation are in range: the width of the
/// containing block, and the margins, borders, paddings and width that the
/// style asks for.
pub open spec fn widths_in_range(containing_width: Pixels, style: &Style) -> bool {
    &&& in_range(containing_width)
    &&& in_range(style.margin.left.value())
    &&& in_range(style.margin.right.value())
    &&& in_range(style.border.left)
    &&& in_range(style.border.right)
    &&& in_range(style.padding.left)
    &&& in_range(style.padding.right)
    &&& in_range(style.width.value())
}

/// The width equation comes out even: where the containing block has room
/// left, an automatic width takes it, and else a single automatic margin
/// takes it, so that margins, borders, paddings and width add up to the width
/// of the containing block. Two automatic margins are equal, and add up to
/// the room that is left or to one pixel less.
pub proof fn lemma_width_equation(containing_width: Pixels, style: &Style)
    requires
        widths_in_range(containing_width, style),
        block_width(containing_width, style).underflow >= 0,
        style.position != Positioned::Fixed,
    ensures
        ({
            let w = block_width(containing_width, style);
            let edges = style.border.left + style.border.right + style.padding.left
                + style.padding.right;
            &&& w.underflow == containing_width - (style.margin.left.value()
                + style.margin.right.value() + edges + style.width.value())
            &&& style.width.is_auto() ==> w.content_width == w.underflow
                && style.margin.left.value() + style.margin.right.value() + edges
                + w.content_width == containing_width
            &&& !style.width.is_auto() && (style.margin.left.is_auto()
                != style.margin.right.is_auto()) ==> w.margin_left + w.margin_right + edges
                + w.content_width == containing_width
            &&& !style.width.is_auto() && style.margin.left.is_auto()
                && style.margin.right.is_auto() ==> w.margin_left == w.margin_right
                && containing_width - 1 <= w.margin_left + w.margin_right + edges
                + w.content_width <= containing_width
            &&& !style.width.is_auto() && !style.margin.left.is_auto()
                && !style.margin.right.is_auto() ==> w.margin_left + w.margin_right + edges
                + w.content_width == containing_width
        }),
{
}

/// Whether the exclusion of the float cursor on the given side accounts for
/// the box.
pub open spec fn accounts_for(cursor: &FloatCursor, side: Floated, float_box: &Rect) -> bool {
    match side {
        Floated::Left => cursor.excludes_left(float_box),
        Floated::Right => cursor.excludes_right(float_box),
        Floated::NoSide => false,
    }
}

/// The margin boxes of the floats on the given side among the first `n` of
/// `children` and in them, in document order.
pub open spec fn floats_among(children: Seq<BoxView>, n: nat, side: Floated) -> Seq<Rect>
    decreases children, 0nat, n,
{
    if n == 0 || n > children.len() {
        Seq::empty()
    } else {
        floats_among(children, (n - 1) as nat, side) + floats_of(children[n - 1], side)
    }
}

/// The margin boxes of the floats on the given side that share the float
/// cursor of the box `b`, in document order: the box itself where it is a
/// float with a border box that has a height, and else the floats in the
/// boxes inside it. What is inside a float has a float cursor of its own.
pub open spec fn floats_of(b: BoxView, side: Floated) -> Seq<Rect>
    decreases b.children, 1nat,
{
    if b.class == LayoutClass::Floated {
        if b.style.float == side && b.layout.border_box.height > 0 {
            seq![b.layout.margin_box]
        } else {
            Seq::empty()
        }
    } else if routine_of(b.class, b.is_anon()).is_some() {
        floats_among(b.children, b.children.len(), side)
    } else {
        Seq::empty()
    }
}

/// Whether the floats among the first `n` of `children` and in them keep to
/// the bands in which they are placed.
pub open spec fn children_keep_to_bands(
    routine: Routine,
    own: Layout,
    style: Style,
    start: Flow,
    children: Seq<BoxView>,
    n: nat,
) -> bool
    decreases children, 0nat, n,
{
    if n == 0 || n > children.len() {
        true
    } else {
        &&& children_keep_to_bands(routine, own, style, start, children, (n - 1) as nat)
        &&& floats_keep_to_bands(
            children[n - 1],
            next_context(
                routine,
                &own,
                &style,
                &children_laid_out(routine, own, style, start, children, (n - 1) as nat).1,
                &children[n - 1].layout,
                &children[n - 1].style,
                children[n - 1].class,
            ),
        )
    }
}

/// Whether the floats that share the float cursor of the box `b` keep to the
/// bands in which they are placed, when `b` is laid out in the given context.
pub open spec fn floats_keep_to_bands(b: BoxView, context: Context) -> bool
    decreases b.children, 2nat,
{
    let told = entered(b.layout, &b.style, &context);
    match routine_of(b.class, b.is_anon()) {
        None => true,
        Some(Routine::Float) => float_keeps_to_band(b, context),
        Some(routine) => {
            let own = begun(routine, told, &b.style, b.class);
            children_keep_to_bands(
                routine,
                own,
                b.style,
                flow_start(routine, &own),
                b.children,
                b.children.len(),
            )
        },
    }
}

/// Whether no box overlaps a box that comes after it.
pub open spec fn pairwise_apart(boxes: Seq<Rect>) -> bool {
    forall|i: int, j: int|
        0 <= i < j < boxes.len() ==> !(#[trigger] boxes[i]).overlaps(#[trigger] &boxes[j])
}

/// What holds of the floats on one side that are placed while a float cursor
/// goes from `before` to `after`: no two of them overlap, none overlaps a box
/// that the cursor accounted for before, and the cursor accounts for all of
/// them after.
pub open spec fn placed_apart(
    before: &FloatCursor,
    after: &FloatCursor,
    side: Floated,
    floats: Seq<Rect>,
) -> bool {
    &&& pairwise_apart(floats)
    &&& before.grows_to(after)
    &&& forall|earlier: Rect, k: int|
        accounts_for(before, side, &earlier) && 0 <= k < floats.len() ==> !(
        #[trigger] earlier.overlaps(&floats[k]))
    &&& forall|k: int| 0 <= k < floats.len() ==> accounts_for(after, side, #[trigger] &floats[k])
}

proof fn lemma_floats_among_prefix(a: Seq<BoxView>, b: Seq<BoxView>, n: nat, side: Floated)
    requires
        n <= a.len(),
        n <= b.len(),
        forall|i: int| 0 <= i < n ==> a[i] == b[i],
    ensures
        floats_among(a, n, side) == floats_among(b, n, side),
    decreases n,
{
    if n > 0 {
        lemma_floats_among_prefix(a, b, (n - 1) as nat, side);
    }
}

proof fn lemma_children_laid_out_prefix(
    routine: Routine,
    own: Layout,
    style: Style,
    start: Flow,
    children: Seq<BoxView>,
    n: nat,
)
    requires
        0 < n <= children.len(),
    ensures
        children_laid_out(routine, own, style, start, children, n).0.len() == n,
        forall|i: int|
            0 <= i < n - 1 ==> children_laid_out(routine, own, style, start, children, n).0[i]
                == children_laid_out(routine, own, style, start, children, (n - 1) as nat).0[i],
{
    lemma_children_nest(routine, own, style, start, children, n);
    lemma_children_nest(routine, own, style, start, children, (n - 1) as nat);
}

proof fn lemma_placed_apart_extends(
    before: FloatCursor,
    between: FloatCursor,
    after: FloatCursor,
    side: Floated,
    first: Seq<Rect>,
    second: Seq<Rect>,
)
    requires
        placed_apart(&before, &between, side, first),
        placed_apart(&between, &after, side, second),
    ensures
        placed_apart(&before, &after, side, first + second),
{
    let all = first + second;
    assert forall|i: int, j: int| 0 <= i < j < all.len() implies !(#[trigger] all[i]).overlaps(
        #[trigger] &all[j],
    ) by {
        if j < first.len() {
            assert(all[i] == first[i] && all[j] == first[j]);
        } else if i >= first.len() {
            assert(all[i] == second[i - first.len()] && all[j] == second[j - first.len()]);
        } else {
            assert(all[i] == first[i] && all[j] == second[j - first.len()]);
            assert(accounts_for(&between, side, &first[i]));
        }
    }
    assert forall|earlier: Rect, k: int|
        accounts_for(&before, side, &earlier) && 0 <= k < all.len() implies !(
    #[trigger] earlier.overlaps(&all[k])) by {
        if k < first.len() {
            assert(all[k] == first[k]);
        } else {
            assert(all[k] == second[k - first.len()]);
            lemma_grown_cursor_keeps_floats(before, between, earlier);
        }
    }
    assert forall|k: int| 0 <= k < all.len() implies accounts_for(
        &after,
        side,
        #[trigger] &all[k],
    ) by {
        if k < first.len() {
            assert(all[k] == first[k]);
            lemma_grown_cursor_keeps_floats(between, after, first[k]);
        } else {
            assert(all[k] == second[k - first.len()]);
        }
    }
}

proof fn lemma_children_floats_apart(
    routine: Routine,
    own: Layout,
    style: Style,
    start: Flow,
    children: Seq<BoxView>,
    n: nat,
    side: Floated,
)
    requires
        n <= children.len(),
        side != Floated::NoSide,
        children_keep_to_bands(routine, own, style, start, children, n),
    ensures
        ({
            let (done, flow) = children_laid_out(routine, own, style, start, children, n);
            placed_apart(&start.float_cursor, &flow.float_cursor, side, floats_among(done, n, side))
        }),
    decreases children, 0nat, n,
{
    if n > 0 {
        let (before, flow) = children_laid_out(
            routine,
            own,
            style,
            start,
            children,
            (n - 1) as nat,
        );
        let (done, after) = children_laid_out(routine, own, style, start, children, n);
        let context = next_context(
            routine,
            &own,
            &style,
            &flow,
            &children[n - 1].layout,
            &children[n - 1].style,
            children[n - 1].class,
        );
        lemma_children_floats_apart(routine, own, style, start, children, (n - 1) as nat, side);
        lemma_floats_apart(children[n - 1], context, side);
        lemma_children_laid_out_prefix(routine, own, style, start, children, n);
        lemma_children_nest(routine, own, style, start, children, (n - 1) as nat);
        lemma_floats_among_prefix(done, before, (n - 1) as nat, side);
        lemma_placed_apart_extends(
            start.float_cursor,
            flow.float_cursor,
            after.float_cursor,
            side,
            floats_among(before, (n - 1) as nat, side),
            floats_of(done[n - 1], side),
        );
    }
}

/// Where the border box of a floated box has a height, the float cursor
/// that the box leaves behind accounts for its margin box on its side.
pub proof fn lemma_float_accounted(b: BoxView, context: Context)
    requires
        b.class == LayoutClass::Floated,
    ensures
        laid_out(b, context).layout.border_box.height > 0 && b.style.float != Floated::NoSide
            ==> accounts_for(
            &laid_out(b, context).layout.float_cursor,
            b.style.float,
            &laid_out(b, context).layout.margin_box,
        ),
{
}

proof fn lemma_float_placed_apart(b: BoxView, context: Context, side: Floated)
    requires
        b.class == LayoutClass::Floated,
        side != Floated::NoSide,
        float_keeps_to_band(b, context),
    ensures
        placed_apart(
            &context.float_cursor,
            &laid_out(b, context).layout.float_cursor,
            side,
            floats_of(laid_out(b, context), side),
        ),
{
    let out = laid_out(b, context);
    let floats = floats_of(out, side);
    lemma_floats_only_grow(b, context);
    lemma_float_accounted(b, context);
    lemma_layout_keeps_margins(b, context);
    assert(out.class == b.class && out.style == b.style);
    if b.style.float == side && out.layout.border_box.height > 0 {
        assert(floats == seq![out.layout.margin_box]);
        assert forall|earlier: Rect, k: int|
            accounts_for(&context.float_cursor, side, &earlier) && 0 <= k < floats.len() implies !(
        #[trigger] earlier.overlaps(&floats[k])) by {
            if side == Floated::Left {
                lemma_left_float_apart(b, context, earlier);
            } else {
                lemma_right_float_apart(b, context, earlier);
            }
        }
    } else {
        assert(floats == Seq::<Rect>::empty());
    }
}

proof fn lemma_routine_floats_apart(routine: Routine, b: BoxView, side: Floated)
    requires
        routine_of(b.class, b.is_anon()) == Some(routine),
        routine != Routine::Float,
        side != Floated::NoSide,
        children_keep_to_bands(
            routine,
            begun(routine, b.layout, &b.style, b.class),
            b.style,
            flow_start(routine, &begun(routine, b.layout, &b.style, b.class)),
            b.children,
            b.children.len(),
        ),
    ensures
        placed_apart(
            &b.layout.float_cursor,
            &routine_laid_out(routine, b).layout.float_cursor,
            side,
            floats_of(routine_laid_out(routine, b), side),
        ),
    decreases b.children, 1nat,
{
    let out = routine_laid_out(routine, b);
    let own = begun(routine, b.layout, &b.style, b.class);
    let start = flow_start(routine, &own);
    lemma_children_floats_apart(routine, own, b.style, start, b.children, b.children.len(), side);
    let (done, flow) = children_laid_out(
        routine,
        own,
        b.style,
        start,
        b.children,
        b.children.len(),
    );
    lemma_children_nest(routine, own, b.style, start, b.children, b.children.len());
    assert(out.children == done);
    let floats = floats_among(done, b.children.len(), side);
    assert(floats_of(out, side) == floats);
    assert(start.float_cursor == b.layout.float_cursor);
    assert(flow.float_cursor.grows_to(&out.layout.float_cursor));
    assert forall|k: int| 0 <= k < floats.len() implies accounts_for(
        &out.layout.float_cursor,
        side,
        #[trigger] &floats[k],
    ) by {
        lemma_grown_cursor_keeps_floats(flow.float_cursor, out.layout.float_cursor, floats[k]);
    }
}

/// No two floats on one side that share a float cursor overlap, as long as
/// each keeps to the band in which it is placed. None of them overlaps a
/// float that the cursor accounted for before the layout, and the cursor
/// accounts for all of them after it.
pub proof fn lemma_floats_apart(b: BoxView, context: Context, side: Floated)
    requires
        side != Floated::NoSide,
        floats_keep_to_bands(b, context),
    ensures
        placed_apart(
            &context.float_cursor,
            &laid_out(b, context).layout.float_cursor,
            side,
            floats_of(laid_out(b, context), side),
        ),
    decreases b.children, 2nat,
{
    let told = BoxView { layout: entered(b.layout, &b.style, &context), ..b };
    match routine_of(b.class, b.is_anon()) {
        None => {},
        Some(Routine::Float) => {
            lemma_float_placed_apart(b, context, side);
        },
        Some(routine) => {
            lemma_routine_floats_apart(routine, told, side);
        },
    }
}

/// Whether box generation comes upon a node that asks for sticky
/// positioning: the node itself, or such a node below a node that generates a
/// box.
pub open spec fn reaches_sticky(node: StyledNode) -> bool
    decreases node,
{
    ||| uses_sticky(&node)
    ||| class_of(&node).is_some() && exists|i: int|
        0 <= i < node.children@.len() && reaches_sticky(#[trigger] node.children@[i])
}

/// A node is refused exactly where box generation comes upon sticky
/// positioning in it or below it.
pub proof fn lemma_sticky_refused(node: StyledNode)
    ensures
        supported(node) == !reaches_sticky(node),
    decreases node,
{
    if !uses_sticky(&node) && class_of(&node).is_some() {
        assert forall|i: int| 0 <= i < node.children@.len() implies supported(
            #[trigger] node.children@[i],
        ) == !reaches_sticky(node.children@[i]) by {
            lemma_sticky_refused(node.children@[i]);
        }
        if reaches_sticky(node) {
            let i = choose|i: int|
                0 <= i < node.children@.len() && reaches_sticky(#[trigger] node.children@[i]);
            assert(!supported(node.children@[i]));
        } else {
            assert forall|i: int| 0 <= i < node.children@.len() implies supported(
                #[trigger] node.children@[i],
            ) by {
                assert(!reaches_sticky(node.children@[i]));
            }
        }
    }
}

/// No box tree is built for a styled document in which box generation comes
/// upon sticky positioning: such a document is not accepted, so that nothing
/// can call the layout on it.
pub proof fn lemma_sticky_document_refused(style_tree: StyledTree)
    requires
        reaches_sticky(style_tree.style_root),
    ensures
        !LayoutTree::accepts(&style_tree),
        !supported(style_tree.style_root),
{
    lemma_sticky_refused(style_tree.style_root);
}

proof fn lemma_siblings_collapse(children: Seq<BoxView>, n: nat, i: int)
    requires
        1 <= i < n <= children.len(),
        children[i].adjoins(),
        children[i - 1].adjoins(),
    ensures
        siblings_collapsed(children, n).len() == n,
        siblings_collapsed(children, n)[i].layout.effective_margin.top == collapsed_margin(
            margins_collapsed(children[i]).layout.effective_margin.top,
            margins_collapsed(children[i - 1]).layout.effective_margin.bottom,
        ),
        siblings_collapsed(children, n)[i - 1].layout.effective_margin.bottom == 0,
    decreases n,
{
    let done = siblings_collapsed(children, (n - 1) as nat);
    let child = margins_collapsed(children[n - 1]);
    lemma_siblings_keep_geometry(children, n);
    lemma_siblings_keep_geometry(children, (n - 1) as nat);
    lemma_margins_keep_geometry(children[n - 1]);
    if n == i + 1 {
        lemma_siblings_keep_geometry(children, (i - 1) as nat);
        lemma_margins_keep_geometry(children[i - 1]);
        assert(done[i - 1].layout.effective_margin.bottom == margins_collapsed(
            children[i - 1],
        ).layout.effective_margin.bottom);
        assert(done[i - 1].adjoins());
        assert(child.adjoins());
    } else {
        lemma_siblings_collapse(children, (n - 1) as nat, i);
    }
}

proof fn lemma_first_in_flow_before(children: Seq<BoxView>, from: nat, j: int)
    requires
        from <= j < children.len(),
        children[j].is_in_flow(),
    ensures
        match first_in_flow(children, from) {
            Some(first) => from <= first <= j,
            None => true,
        },
    decreases children.len() - from,
{
    let here = children[from as int];
    if from < j && !here.class.is_floated() && !here.is_in_flow() {
        lemma_first_in_flow_before(children, from + 1, j);
    }
}

/// Where two boxes that adjoin follow each other inside a box, at any place
/// among the boxes inside it, their margins collapse: after the pass the
/// second has at its top the margin into which its own top margin and the
/// bottom margin of the first collapse, and the first has no margin at its
/// bottom.
pub proof fn lemma_sibling_margins_collapse(b: BoxView, i: int)
    requires
        1 <= i < b.children.len(),
        b.children[i].adjoins(),
        b.children[i - 1].adjoins(),
    ensures
        margins_collapsed(b).children.len() == b.children.len(),
        margins_collapsed(b).children[i].layout.effective_margin.top == collapsed_margin(
            margins_collapsed(b.children[i]).layout.effective_margin.top,
            margins_collapsed(b.children[i - 1]).layout.effective_margin.bottom,
        ),
        margins_collapsed(b).children[i - 1].layout.effective_margin.bottom == 0,
{
    let children = siblings_collapsed(b.children, b.children.len());
    lemma_siblings_collapse(b.children, b.children.len(), i);
    lemma_siblings_keep_geometry(b.children, b.children.len());
    let out = margins_collapsed(b);
    if b.class.is_block_root() {
        assert(out.children == children);
    } else {
        let first = if b.style.border.top == 0 && b.style.padding.top == 0 {
            first_in_flow(children, 0)
        } else {
            None
        };
        let topped = match first {
            Some(k) => children.update(k, children[k].with_margin_top(0)),
            None => children,
        };
        let last = if b.style.border.bottom == 0 && b.style.padding.bottom == 0 {
            last_in_flow(topped, topped.len())
        } else {
            None
        };
        let bottomed = match last {
            Some(k) => topped.update(k, topped[k].with_margin_bottom(0)),
            None => topped,
        };
        assert(out.children == bottomed);
        assert(children[i - 1].is_in_flow());
        lemma_first_in_flow_before(children, 0, i - 1);
        lemma_first_in_flow(children, 0);
        lemma_last_in_flow(topped, topped.len());
    }
}

/// Whether the line that the flow stands on lies beside the floats as it
/// should: below the floats of a side it reaches that side of the containing
/// block, and beside the floats that were placed before the run it starts
/// after those on the left and ends before those on the right.
pub open spec fn line_beside_floats(own: &Layout, flow: &Flow) -> bool {
    &&& flow.block_cursor >= flow.float_cursor.left_clearance() ==> flow.inline_start
        == own.containing_box.x
    &&& flow.block_cursor >= flow.float_cursor.right_clearance() ==> flow.inline_end
        == own.containing_box.right()
    &&& flow.block_cursor < own.float_cursor.left_clearance() ==> flow.inline_start
        >= own.float_cursor.left_inline_end
    &&& flow.block_cursor < own.float_cursor.right_clearance() ==> flow.inline_end
        <= own.float_cursor.right_inline_start
}

/// Whether a box stands in a line of the run around it: it is neither floated
/// nor placed by offsets.
pub open spec fn stands_in_line(b: BoxView) -> bool {
    !b.style.position.is_positioned() && !b.class.is_floated()
}

/// The layout leaves a box where it is told to stand: the box keeps the
/// inline position and the line that the context gives it, and its block
/// position too unless it is laid out as a float, which may move down.
pub proof fn lemma_layout_keeps_place(b: BoxView, context: Context)
    ensures
        laid_out(b, context).layout.inline_pos == context.inline_pos,
        laid_out(b, context).layout.line_pos == context.line_pos,
        routine_of(b.class, b.is_anon()) != Some(Routine::Float) ==> laid_out(
            b,
            context,
        ).layout.block_pos == context.block_pos,
{
}

/// The flow of a run of inline-level boxes after the first `n` of them.
pub open spec fn run_flow(b: BoxView, n: nat) -> Flow {
    let own = begun(Routine::InlineRoot, b.layout, &b.style, b.class);
    children_laid_out(
        Routine::InlineRoot,
        own,
        b.style,
        flow_start(Routine::InlineRoot, &own),
        b.children,
        n,
    ).1
}

/// The flow of a run of inline-level boxes when room is made for the `n`th
/// of them.
pub open spec fn run_room(b: BoxView, n: nat) -> Flow {
    let own = begun(Routine::InlineRoot, b.layout, &b.style, b.class);
    let next = b.children[n - 1];
    made_room(
        Routine::InlineRoot,
        &own,
        &run_flow(b, (n - 1) as nat),
        &next.layout,
        &next.style,
        next.class,
    )
}

/// Every line of a run of inline-level boxes lies beside the floats as it
/// should, whatever the number of boxes that are laid out before it: a line
/// at or below the clearance of a side reaches that side of the containing
/// block, and a line above the clearance that a side had before the run
/// keeps clear of the floats of that side.
pub proof fn lemma_lines_beside_floats(b: BoxView, n: nat)
    requires
        n <= b.children.len(),
    ensures
        line_beside_floats(
            &begun(Routine::InlineRoot, b.layout, &b.style, b.class),
            &run_flow(b, n),
        ),
        begun(Routine::InlineRoot, b.layout, &b.style, b.class).float_cursor.grows_to(
            &run_flow(b, n).float_cursor,
        ),
        n > 0 ==> line_beside_floats(
            &begun(Routine::InlineRoot, b.layout, &b.style, b.class),
            &run_room(b, n),
        ),
    decreases n,
{
    let own = begun(Routine::InlineRoot, b.layout, &b.style, b.class);
    if n > 0 {
        lemma_lines_beside_floats(b, (n - 1) as nat);
        let flow = run_flow(b, (n - 1) as nat);
        let next = b.children[n - 1];
        lemma_floats_only_grow(
            next,
            next_context(
                Routine::InlineRoot,
                &own,
                &b.style,
                &flow,
                &next.layout,
                &next.style,
                next.class,
            ),
        );
    }
}

/// A box that does not fit on its line starts the next line, and the first
/// box of every line stands at the start of the line.
///
/// The `n`th box of a run, where it stands in a line, is laid out on the line
/// for which room was made: it has the number of that line, its block
/// position and the inline cursor as its inline position. Where the line has
/// a box on it already and the cursor with the inline extent of the box
/// reaches past the end of the line, that line is a new one: its number is
/// one more, its block position is lower by the height of the line before,
/// and the box stands at its start. The first box of the run that stands in
/// a line stands at the start of the first line. Every such line lies beside
/// the floats as it should.
pub proof fn lemma_box_starts_its_line(b: BoxView, n: nat)
    requires
        0 < n <= b.children.len(),
        stands_in_line(b.children[n - 1]),
    ensures
        ({
            let own = begun(Routine::InlineRoot, b.layout, &b.style, b.class);
            let before = run_flow(b, (n - 1) as nat);
            let room = run_room(b, n);
            let next = b.children[n - 1];
            let placed = routine_laid_out(Routine::InlineRoot, b).children[n - 1].layout;
            let wraps = before.inline_start < before.inline_cursor && px_add(
                before.inline_cursor,
                next.layout.inline_extent,
            ) > before.inline_end;
            &&& placed.inline_pos == room.inline_cursor
            &&& placed.block_pos == room.block_cursor
            &&& placed.line_pos == room.line_cursor
            &&& line_beside_floats(&own, &room)
            &&& wraps ==> room == next_line(&own, &before) && placed.inline_pos
                == room.inline_start && placed.block_pos == px_add(
                before.block_cursor,
                before.line_height,
            )
            &&& !wraps ==> room == before
            &&& (forall|j: int| 0 <= j < n - 1 ==> !stands_in_line(#[trigger] b.children[j]))
                ==> placed.inline_pos == room.inline_start && placed.line_pos == 0 && !wraps
        }),
{
    let own = begun(Routine::InlineRoot, b.layout, &b.style, b.class);
    let start = flow_start(Routine::InlineRoot, &own);
    let next = b.children[n - 1];
    let room = run_room(b, n);
    let context = child_context(Routine::InlineRoot, &own, &b.style, &room);
    lemma_lines_beside_floats(b, n);
    lemma_layout_keeps_place(next, context);
    lemma_children_laid_out_prefix_all(
        Routine::InlineRoot,
        own,
        b.style,
        start,
        b.children,
        b.children.len(),
        n,
    );
    let all = children_laid_out(
        Routine::InlineRoot,
        own,
        b.style,
        start,
        b.children,
        b.children.len(),
    ).0;
    let first = children_laid_out(Routine::InlineRoot, own, b.style, start, b.children, n).0;
    lemma_children_nest(Routine::InlineRoot, own, b.style, start, b.children, n);
    lemma_children_nest(Routine::InlineRoot, own, b.style, start, b.children, (n - 1) as nat);
    assert(routine_laid_out(Routine::InlineRoot, b).children == all);
    assert(first[n - 1] == laid_out(next, context));
    assert(all[n - 1] == first[n - 1]);
    assert(routine_of(next.class, next.is_anon()) != Some(Routine::Float));
    if forall|j: int| 0 <= j < n - 1 ==> !stands_in_line(#[trigger] b.children[j]) {
        lemma_line_before_first_box(b, (n - 1) as nat);
    }
}

/// As long as no box of a run stands in a line, the cursor stands at the
/// start of the first line.
pub proof fn lemma_line_before_first_box(b: BoxView, k: nat)
    requires
        k <= b.children.len(),
        forall|j: int| 0 <= j < k ==> !stands_in_line(#[trigger] b.children[j]),
    ensures
        run_flow(b, k).inline_cursor == run_flow(b, k).inline_start,
        run_flow(b, k).line_cursor == 0,
    decreases k,
{
    if k > 0 {
        lemma_line_before_first_box(b, (k - 1) as nat);
        let own = begun(Routine::InlineRoot, b.layout, &b.style, b.class);
        let flow = run_flow(b, (k - 1) as nat);
        let next = b.children[k - 1];
        assert(!stands_in_line(next));
        lemma_layout_keeps_margins(
            next,
            next_context(
                Routine::InlineRoot,
                &own,
                &b.style,
                &flow,
                &next.layout,
                &next.style,
                next.class,
            ),
        );
    }
}

/// The boxes that are laid out first stay as they are when more boxes are
/// laid out after them.
pub proof fn lemma_children_laid_out_prefix_all(
    routine: Routine,
    own: Layout,
    style: Style,
    start: Flow,
    children: Seq<BoxView>,
    m: nat,
    n: nat,
)
    requires
        0 < n <= m <= children.len(),
    ensures
        children_laid_out(routine, own, style, start, children, m).0.len() == m,
        children_laid_out(routine, own, style, start, children, m).0[n - 1]
            == children_laid_out(routine, own, style, start, children, n).0[n - 1],
    decreases m,
{
    lemma_children_nest(routine, own, style, start, children, m);
    lemma_children_nest(routine, own, style, start, children, n);
    if n < m {
        lemma_children_laid_out_prefix_all(routine, own, style, start, children, (m - 1) as nat, n);
        lemma_children_nest(routine, own, style, start, children, (m - 1) as nat);
    }
}

} // verus!
