//! The four layout routines, each as three steps on plain values: what a box
//! computes before the boxes inside it are laid out, what it keeps track of
//! from one of them to the next, and what it computes after the last.

use vstd::prelude::*;
use crate::floats::FloatCursor;
use crate::geometry::{px_add, px_max, px_sub, Edge, Pixels, Rect};
use crate::layout::flow::{
    block_width, cleared, content_x, content_y, fitted_width, in_flow, outer_width,
    placed_by_offsets, with_boxes, Flow, Routine,
};
use crate::layout::{Context, Layout, LayoutClass};
use crate::style::{Floated, Overflow, Positioned, Style};

verus! {

/// The geometry of a block with its width and its horizontal margins set from
/// the width equation.
pub open spec fn block_sized(layout: Layout, style: &Style) -> Layout {
    let w = block_width(layout.containing_box.width, style);
    Layout {
        underflow: w.underflow,
        content_box: Rect { width: w.content_width, ..layout.content_box },
        margin: Edge { left: w.margin_left, right: w.margin_right, ..layout.margin },
        ..layout
    }
}

pub open spec fn block_placed_spec(sized: Layout, style: &Style, class: LayoutClass) -> Layout {
    let contained = Layout {
        containing_box: if style.position.is_positioned() {
            sized.positioning_box
        } else {
            sized.containing_box
        },
        ..sized
    };
    let placed = if style.overflow != Overflow::Visible || class == LayoutClass::InlineBlock {
        let fitted = Layout {
            content_box: Rect {
                width: fitted_width(&contained, style),
                height: style.height.value(),
                ..contained.content_box
            },
            ..contained
        };
        let available = Rect { y: fitted.block_pos, ..fitted.containing_box };
        let origin = fitted.float_cursor.place_left(&available, outer_width(&fitted));
        Layout {
            content_box: Rect {
                x: content_x(&fitted, origin.0),
                y: content_y(&fitted, origin.1),
                ..fitted.content_box
            },
            ..fitted
        }
    } else {
        Layout {
            content_box: Rect {
                x: content_x(&contained, contained.inline_pos),
                y: content_y(&contained, contained.block_pos),
                ..contained.content_box
            },
            ..contained
        }
    };
    let y = if style.clear.left || style.clear.right {
        cleared(
            px_sub(placed.content_box.y, placed.effective_margin.top),
            &placed.float_cursor,
            &style.clear,
        )
    } else {
        placed.content_box.y
    };
    placed_by_offsets(
        Layout {
            content_box: Rect { y, height: style.height.value(), ..placed.content_box },
            ..placed
        },
        style,
    )
}

/// The geometry of a block whose width is known, once it is placed.
///
/// A block that is placed by its offsets is contained in its positioning
/// block. A block with a formatting context of its own (one that does not
/// show what overflows it, or an inline block) takes the width that the
/// containing block leaves it and is placed where the floats leave room; any
/// other block stands at the cursor. A block that clears floats gives up its
/// top margin and moves down past them. Last the offsets of the positioning
/// scheme apply.
#[verifier::when_used_as_spec(block_placed_spec)]
pub fn block_placed(sized: Layout, style: &Style, class: LayoutClass) -> (l: Layout)
    ensures
        l == block_placed_spec(sized, style, class),
{
    let contained = Layout {
        containing_box: if style.position.is_positioned() {
            sized.positioning_box
        } else {
            sized.containing_box
        },
        ..sized
    };
    let placed = if style.overflow != Overflow::Visible || class == LayoutClass::InlineBlock {
        let fitted = Layout {
            content_box: Rect {
                width: fitted_width(&contained, style),
                height: style.height.value(),
                ..contained.content_box
            },
            ..contained
        };
        let available = Rect { y: fitted.block_pos, ..fitted.containing_box };
        let origin = fitted.float_cursor.place_left(&available, outer_width(&fitted));
        Layout {
            content_box: Rect {
                x: content_x(&fitted, origin.0),
                y: content_y(&fitted, origin.1),
                ..fitted.content_box
            },
            ..fitted
        }
    } else {
        Layout {
            content_box: Rect {
                x: content_x(&contained, contained.inline_pos),
                y: content_y(&contained, contained.block_pos),
                ..contained.content_box
            },
            ..contained
        }
    };
    let y = if style.clear.left || style.clear.right {
        cleared(
            px_sub(placed.content_box.y, placed.effective_margin.top),
            &placed.float_cursor,
            &style.clear,
        )
    } else {
        placed.content_box.y
    };
    placed_by_offsets(
        Layout {
            content_box: Rect { y, height: style.height.value(), ..placed.content_box },
            ..placed
        },
        style,
    )
}

/// The geometry of a block before the boxes inside it are laid out: padding
/// and border are those of the style, the width comes from the width
/// equation, and the block is placed.
pub open spec fn block_begun(layout: Layout, style: &Style, class: LayoutClass) -> Layout {
    block_placed(
        block_sized(Layout { padding: style.padding, border: style.border, ..layout }, style),
        style,
        class,
    )
}

pub open spec fn inline_begun_spec(layout: Layout, style: &Style) -> Layout {
    Layout {
        padding: style.padding,
        border: style.border,
        content_box: Rect {
            x: layout.inline_pos,
            y: layout.block_pos,
            width: layout.containing_box.width,
            ..layout.content_box
        },
        ..layout
    }
}

/// The geometry of an inline box before the boxes inside it are laid out: it
/// starts at the cursor and is as wide as the containing block.
#[verifier::when_used_as_spec(inline_begun_spec)]
pub fn inline_begun(layout: Layout, style: &Style) -> (l: Layout)
    ensures
        l == inline_begun_spec(layout, style),
{
    Layout {
        padding: style.padding,
        border: style.border,
        content_box: Rect {
            x: layout.inline_pos,
            y: layout.block_pos,
            width: layout.containing_box.width,
            ..layout.content_box
        },
        ..layout
    }
}

pub open spec fn inline_root_begun_spec(layout: Layout, style: &Style) -> Layout {
    Layout {
        padding: Edge::<Pixels>::zero(),
        border: Edge::<Pixels>::zero(),
        content_box: Rect {
            x: layout.inline_pos,
            y: layout.block_pos,
            width: layout.containing_box.width,
            height: style.height.value(),
        },
        ..layout
    }
}

/// The geometry of the wrapper around a run of inline-level boxes before the
/// boxes inside it are laid out: it has no padding and no border, starts at
/// the cursor and is as wide as the containing block.
#[verifier::when_used_as_spec(inline_root_begun_spec)]
pub fn inline_root_begun(layout: Layout, style: &Style) -> (l: Layout)
    ensures
        l == inline_root_begun_spec(layout, style),
{
    Layout {
        padding: Edge::<Pixels>::zero(),
        border: Edge::<Pixels>::zero(),
        content_box: Rect {
            x: layout.inline_pos,
            y: layout.block_pos,
            width: layout.containing_box.width,
            height: style.height.value(),
        },
        ..layout
    }
}

pub open spec fn float_fitted_spec(layout: Layout, style: &Style) -> Layout {
    let block_pos = cleared(layout.block_pos, &layout.float_cursor, &style.clear);
    let edged = Layout { padding: style.padding, border: style.border, block_pos, ..layout };
    Layout {
        content_box: Rect {
            width: fitted_width(&edged, style),
            height: style.height.value(),
            ..edged.content_box
        },
        ..edged
    }
}

/// The geometry of a floated box with its width, before it is placed.
///
/// The box first moves down past the floats that it clears. Its width is the
/// one that the style asks for, or what the containing block leaves it.
#[verifier::when_used_as_spec(float_fitted_spec)]
pub fn float_fitted(layout: Layout, style: &Style) -> (l: Layout)
    ensures
        l == float_fitted_spec(layout, style),
{
    let block_pos = cleared(layout.block_pos, &layout.float_cursor, &style.clear);
    let edged = Layout { padding: style.padding, border: style.border, block_pos, ..layout };
    Layout {
        content_box: Rect {
            width: fitted_width(&edged, style),
            height: style.height.value(),
            ..edged.content_box
        },
        ..edged
    }
}

pub open spec fn float_origin_spec(
    fitted: &Layout,
    style: &Style,
    class: LayoutClass,
) -> (Pixels, Pixels) {
    let available = Rect { y: fitted.block_pos, ..fitted.containing_box };
    if class.is_floated() && style.float == Floated::Left {
        fitted.float_cursor.place_left(&available, outer_width(fitted))
    } else {
        fitted.float_cursor.place_right(&available, outer_width(fitted))
    }
}

/// Where the margin box of a floated box goes: on its side, where the floats
/// before it leave room for its outer width.
#[verifier::when_used_as_spec(float_origin_spec)]
pub fn float_origin(
    fitted: &Layout,
    style: &Style,
    class: LayoutClass,
) -> (origin: (Pixels, Pixels))
    ensures
        origin == float_origin_spec(fitted, style, class),
{
    let available = Rect { y: fitted.block_pos, ..fitted.containing_box };
    if class.is_floated() && style.float == Floated::Left {
        fitted.float_cursor.place_left(&available, outer_width(fitted))
    } else {
        fitted.float_cursor.place_right(&available, outer_width(fitted))
    }
}

pub open spec fn float_begun_spec(layout: Layout, style: &Style, class: LayoutClass) -> Layout {
    let fitted = float_fitted(layout, style);
    let origin = float_origin(&fitted, style, class);
    Layout {
        content_box: Rect {
            x: content_x(&fitted, origin.0),
            y: content_y(&fitted, origin.1),
            ..fitted.content_box
        },
        ..fitted
    }
}

/// The geometry of a floated box before the boxes inside it are laid out:
/// the box has its width and stands where its margin box goes.
#[verifier::when_used_as_spec(float_begun_spec)]
pub fn float_begun(layout: Layout, style: &Style, class: LayoutClass) -> (l: Layout)
    ensures
        l == float_begun_spec(layout, style, class),
{
    let fitted = float_fitted(layout, style);
    let origin = float_origin(&fitted, style, class);
    Layout {
        content_box: Rect {
            x: content_x(&fitted, origin.0),
            y: content_y(&fitted, origin.1),
            ..fitted.content_box
        },
        ..fitted
    }
}

/// The geometry of a box before the boxes inside it are laid out.
pub open spec fn begun(
    routine: Routine,
    layout: Layout,
    style: &Style,
    class: LayoutClass,
) -> Layout {
    match routine {
        Routine::Block => block_begun(layout, style, class),
        Routine::Inline => inline_begun(layout, style),
        Routine::InlineRoot => inline_root_begun(layout, style),
        Routine::Float => float_begun(layout, style, class),
    }
}

pub open spec fn flow_start_spec(routine: Routine, own: &Layout) -> Flow {
    let band = match routine {
        Routine::InlineRoot => own.float_cursor.inline_space(
            own.containing_box.x,
            own.containing_box.right(),
            own.content_box.y,
        ),
        _ => (own.content_box.x, own.content_box.x),
    };
    Flow {
        block_cursor: own.content_box.y,
        inline_cursor: band.0,
        inline_start: band.0,
        inline_end: band.1,
        line_cursor: 0,
        line_height: 0,
        block_extent: own.block_extent,
        float_cursor: match routine {
            Routine::Float => FloatCursor::empty(),
            _ => own.float_cursor,
        },
    }
}

/// What a box keeps track of before the first box inside it is laid out.
///
/// The cursors stand at the corner of the content box. The wrapper around a
/// run of inline-level boxes starts its first line where the floats leave
/// room at that height. A floated box starts with no floats inside it.
#[verifier::when_used_as_spec(flow_start_spec)]
pub fn flow_start(routine: Routine, own: &Layout) -> (f: Flow)
    ensures
        f == flow_start_spec(routine, own),
{
    let band = match routine {
        Routine::InlineRoot => own.float_cursor.inline_space(
            own.containing_box.x,
            own.containing_box.right(),
            own.content_box.y,
        ),
        _ => (own.content_box.x, own.content_box.x),
    };
    Flow {
        block_cursor: own.content_box.y,
        inline_cursor: band.0,
        inline_start: band.0,
        inline_end: band.1,
        line_cursor: 0,
        line_height: 0,
        block_extent: own.block_extent,
        float_cursor: match routine {
            Routine::Float => FloatCursor::empty(),
            _ => own.float_cursor,
        },
    }
}

pub open spec fn child_context_spec(
    routine: Routine,
    own: &Layout,
    style: &Style,
    flow: &Flow,
) -> Context {
    Context {
        containing_box: own.content_box,
        ns_positioning_box: match routine {
            Routine::Block | Routine::Float => if style.position == Positioned::Static {
                own.ns_positioning_box
            } else {
                own.content_box.extend_by(&own.padding)
            },
            Routine::Inline | Routine::InlineRoot => own.ns_positioning_box,
        },
        init_positioning_box: own.init_positioning_box,
        block_pos: flow.block_cursor,
        inline_pos: flow.inline_cursor,
        line_pos: match routine {
            Routine::Inline => own.line_pos,
            Routine::InlineRoot => flow.line_cursor,
            Routine::Block | Routine::Float => 0,
        },
        float_cursor: flow.float_cursor,
    }
}

/// What a box tells the next box inside it.
///
/// The containing block is the content box. Where the box is not statically
/// positioned and is a block or a float, the boxes inside it count their
/// offsets against its padding box. The viewport is handed down unchanged.
#[verifier::when_used_as_spec(child_context_spec)]
pub fn child_context(routine: Routine, own: &Layout, style: &Style, flow: &Flow) -> (c: Context)
    ensures
        c == child_context_spec(routine, own, style, flow),
{
    Context {
        containing_box: own.content_box,
        ns_positioning_box: match routine {
            Routine::Block | Routine::Float => if style.position == Positioned::Static {
                own.ns_positioning_box
            } else {
                own.content_box.extend_by(&own.padding)
            },
            Routine::Inline | Routine::InlineRoot => own.ns_positioning_box,
        },
        init_positioning_box: own.init_positioning_box,
        block_pos: flow.block_cursor,
        inline_pos: flow.inline_cursor,
        line_pos: match routine {
            Routine::Inline => own.line_pos,
            Routine::InlineRoot => flow.line_cursor,
            Routine::Block | Routine::Float => 0,
        },
        float_cursor: flow.float_cursor,
    }
}

pub open spec fn next_line_spec(own: &Layout, flow: &Flow) -> Flow {
    let block_cursor = px_add(flow.block_cursor, flow.line_height);
    let band = flow.float_cursor.inline_space(
        own.containing_box.x,
        own.containing_box.right(),
        block_cursor,
    );
    Flow {
        block_cursor,
        inline_cursor: band.0,
        inline_start: band.0,
        inline_end: band.1,
        line_cursor: if flow.line_cursor < usize::MAX {
            (flow.line_cursor + 1) as usize
        } else {
            flow.line_cursor
        },
        line_height: 0,
        ..*flow
    }
}

/// The start of the line after the current one: the block cursor moves down
/// by the height of the line, and the line starts where the floats leave room
/// at the new height.
#[verifier::when_used_as_spec(next_line_spec)]
pub fn next_line(own: &Layout, flow: &Flow) -> (f: Flow)
    ensures
        f == next_line_spec(own, flow),
{
    let block_cursor = px_add(flow.block_cursor, flow.line_height);
    let band = flow.float_cursor.inline_space(
        own.containing_box.x,
        own.containing_box.right(),
        block_cursor,
    );
    Flow {
        block_cursor,
        inline_cursor: band.0,
        inline_start: band.0,
        inline_end: band.1,
        line_cursor: if flow.line_cursor < usize::MAX {
            flow.line_cursor + 1
        } else {
            flow.line_cursor
        },
        line_height: 0,
        ..*flow
    }
}

pub open spec fn made_room_spec(
    routine: Routine,
    own: &Layout,
    flow: &Flow,
    child: &Layout,
    child_style: &Style,
    child_class: LayoutClass,
) -> Flow {
    match routine {
        Routine::InlineRoot => if !child_style.position.is_positioned() && !child_class.is_floated()
            && flow.inline_start < flow.inline_cursor && px_add(
            flow.inline_cursor,
            child.inline_extent,
        ) > flow.inline_end {
            next_line(own, flow)
        } else {
            *flow
        },
        _ => *flow,
    }
}

/// What a box keeps track of when it has made room for the next box inside
/// it, before that box is laid out.
///
/// The wrapper around a run of inline-level boxes starts a new line for a box
/// that stands in a line, neither floated nor placed by offsets, where the
/// line has a box on it already and the cursor with the inline extent of the
/// new box reaches past the end of the line. The first box on a line stays on
/// it however wide it is. Any other box has room where the cursor stands.
#[verifier::when_used_as_spec(made_room_spec)]
pub fn made_room(
    routine: Routine,
    own: &Layout,
    flow: &Flow,
    child: &Layout,
    child_style: &Style,
    child_class: LayoutClass,
) -> (f: Flow)
    ensures
        f == made_room_spec(routine, own, flow, child, child_style, child_class),
{
    match routine {
        Routine::InlineRoot => if !child_style.position.is_positioned() && !child_class.is_floated()
            && flow.inline_start < flow.inline_cursor && px_add(
            flow.inline_cursor,
            child.inline_extent,
        ) > flow.inline_end {
            next_line(own, flow)
        } else {
            *flow
        },
        _ => *flow,
    }
}

/// What a box tells the next box inside it, once it has made room for it.
pub open spec fn next_context(
    routine: Routine,
    own: &Layout,
    style: &Style,
    flow: &Flow,
    child: &Layout,
    child_style: &Style,
    child_class: LayoutClass,
) -> Context {
    child_context(
        routine,
        own,
        style,
        &made_room(routine, own, flow, child, child_style, child_class),
    )
}

pub open spec fn advanced_spec(
    routine: Routine,
    flow: &Flow,
    child: &Layout,
    child_style: &Style,
    child_class: LayoutClass,
) -> Flow {
    let block_extent = px_max(flow.block_extent, child.block_extent);
    match routine {
        Routine::Block => {
            let moved = if in_flow(child_class, child_style.position) {
                px_add(flow.block_cursor, child.block_size)
            } else {
                flow.block_cursor
            };
            Flow {
                block_cursor: if child_style.clear.left || child_style.clear.right {
                    px_add(
                        px_add(
                            px_add(
                                px_add(child.content_box.y, child.content_box.height),
                                child.padding.bottom,
                            ),
                            child.border.bottom,
                        ),
                        child.effective_margin.bottom,
                    )
                } else {
                    moved
                },
                block_extent,
                float_cursor: child.float_cursor,
                ..*flow
            }
        },
        Routine::Inline => if child_style.position.is_positioned() {
            Flow { block_extent, float_cursor: child.float_cursor, ..*flow }
        } else {
            Flow {
                inline_cursor: px_add(flow.inline_cursor, child.inline_size),
                line_height: px_max(flow.line_height, child.block_size),
                block_extent,
                float_cursor: child.float_cursor,
                ..*flow
            }
        },
        Routine::InlineRoot => {
            if child_style.position.is_positioned() || child_class.is_floated() {
                Flow { block_extent, float_cursor: child.float_cursor, ..*flow }
            } else {
                Flow {
                    inline_cursor: px_add(flow.inline_cursor, child.inline_size),
                    line_height: px_max(flow.line_height, child.block_size),
                    block_extent,
                    float_cursor: child.float_cursor,
                    ..*flow
                }
            }
        },
        Routine::Float => Flow {
            block_cursor: px_add(flow.block_cursor, child.block_size),
            block_extent,
            float_cursor: child.float_cursor,
            ..*flow
        },
    }
}

/// What a box keeps track of after one more box inside it was laid out.
///
/// A block moves its cursor down by the block size of a box in the flow, and
/// to the lower end of a box that clears floats. An inline box moves its
/// cursor right by the inline size of a box that is not placed by offsets,
/// and keeps the block size of the tallest such box.
/// The wrapper around a run of inline-level boxes does so too, but for floats,
/// and keeps the block size of the tallest box on the line. A floated box
/// moves its cursor down by the block size of each box.
#[verifier::when_used_as_spec(advanced_spec)]
pub fn advanced(
    routine: Routine,
    flow: &Flow,
    child: &Layout,
    child_style: &Style,
    child_class: LayoutClass,
) -> (f: Flow)
    ensures
        f == advanced_spec(routine, flow, child, child_style, child_class),
{
    let block_extent = px_max(flow.block_extent, child.block_extent);
    match routine {
        Routine::Block => {
            let moved = if in_flow(child_class, child_style.position) {
                px_add(flow.block_cursor, child.block_size)
            } else {
                flow.block_cursor
            };
            Flow {
                block_cursor: if child_style.clear.left || child_style.clear.right {
                    px_add(
                        px_add(
                            px_add(
                                px_add(child.content_box.y, child.content_box.height),
                                child.padding.bottom,
                            ),
                            child.border.bottom,
                        ),
                        child.effective_margin.bottom,
                    )
                } else {
                    moved
                },
                block_extent,
                float_cursor: child.float_cursor,
                ..*flow
            }
        },
        Routine::Inline => if child_style.position.is_positioned() {
            Flow { block_extent, float_cursor: child.float_cursor, ..*flow }
        } else {
            Flow {
                inline_cursor: px_add(flow.inline_cursor, child.inline_size),
                line_height: px_max(flow.line_height, child.block_size),
                block_extent,
                float_cursor: child.float_cursor,
                ..*flow
            }
        },
        Routine::InlineRoot => {
            if child_style.position.is_positioned() || child_class.is_floated() {
                Flow { block_extent, float_cursor: child.float_cursor, ..*flow }
            } else {
                Flow {
                    inline_cursor: px_add(flow.inline_cursor, child.inline_size),
                    line_height: px_max(flow.line_height, child.block_size),
                    block_extent,
                    float_cursor: child.float_cursor,
                    ..*flow
                }
            }
        },
        Routine::Float => Flow {
            block_cursor: px_add(flow.block_cursor, child.block_size),
            block_extent,
            float_cursor: child.float_cursor,
            ..*flow
        },
    }
}

pub open spec fn block_size_of_spec(
    boxed: &Layout,
    class: LayoutClass,
    position: Positioned,
) -> Pixels {
    if in_flow(class, position) {
        if boxed.border_box.height == 0 && !class.is_floated() {
            px_max(boxed.effective_margin.top, boxed.effective_margin.bottom)
        } else {
            px_max(boxed.margin_box.height, 0)
        }
    } else {
        0
    }
}

/// The size by which a box moves what follows it in the flow: the height of
/// its margin box, or, where its border box has no height and the box does
/// not float, the greater of its top and bottom margins. A box outside the
/// flow moves nothing.
#[verifier::when_used_as_spec(block_size_of_spec)]
pub fn block_size_of(boxed: &Layout, class: LayoutClass, position: Positioned) -> (size: Pixels)
    ensures
        size == block_size_of_spec(boxed, class, position),
{
    if in_flow(class, position) {
        if boxed.border_box.height == 0 && !class.is_floated() {
            px_max(boxed.effective_margin.top, boxed.effective_margin.bottom)
        } else {
            px_max(boxed.margin_box.height, 0)
        }
    } else {
        0
    }
}

pub open spec fn block_finished_spec(
    own: Layout,
    style: &Style,
    class: LayoutClass,
    flow: &Flow,
) -> Layout {
    let reach = if !style.height.is_auto() && style.overflow != Overflow::Visible {
        style.height.value()
    } else {
        flow.block_extent
    };
    let height = if style.height.is_auto() {
        if class.is_block_root() {
            px_sub(px_max(flow.block_cursor, reach), own.content_box.y)
        } else {
            px_sub(flow.block_cursor, own.content_box.y)
        }
    } else {
        style.height.value()
    };
    let boxed = with_boxes(Layout { content_box: Rect { height, ..own.content_box }, ..own });
    let lower_end = px_max(reach, boxed.border_box.bottom());
    Layout {
        block_size: block_size_of(&boxed, class, style.position),
        block_extent: match style.position {
            Positioned::Absolute => 0,
            Positioned::Relative => match style.top {
                Some(top) => px_sub(lower_end, top),
                None => lower_end,
            },
            _ => lower_end,
        },
        float_cursor: match style.float {
            Floated::Left => flow.float_cursor.insert_left(&boxed.margin_box),
            Floated::Right => flow.float_cursor.insert_right(&boxed.margin_box),
            Floated::NoSide => flow.float_cursor,
        },
        ..boxed
    }
}

/// The geometry of a block after the boxes inside it were laid out.
///
/// An automatic height reaches from the top of the content box to the cursor,
/// and in a box with a formatting context of its own also as far down as
/// anything inside it. A box with a float side joins the floats.
#[verifier::when_used_as_spec(block_finished_spec)]
pub fn block_finished(own: Layout, style: &Style, class: LayoutClass, flow: &Flow) -> (l: Layout)
    ensures
        l == block_finished_spec(own, style, class, flow),
        l.boxes_nest(),
{
    let reach = if !style.height.is_auto() && style.overflow != Overflow::Visible {
        style.height.value()
    } else {
        flow.block_extent
    };
    let height = if style.height.is_auto() {
        if class.is_block_root() {
            px_sub(px_max(flow.block_cursor, reach), own.content_box.y)
        } else {
            px_sub(flow.block_cursor, own.content_box.y)
        }
    } else {
        style.height.value()
    };
    let boxed = with_boxes(Layout { content_box: Rect { height, ..own.content_box }, ..own });
    let lower_end = px_max(reach, boxed.border_box.bottom());
    Layout {
        block_size: block_size_of(&boxed, class, style.position),
        block_extent: match style.position {
            Positioned::Absolute => 0,
            Positioned::Relative => match style.top {
                Some(top) => px_sub(lower_end, top),
                None => lower_end,
            },
            _ => lower_end,
        },
        float_cursor: match style.float {
            Floated::Left => flow.float_cursor.insert_left(&boxed.margin_box),
            Floated::Right => flow.float_cursor.insert_right(&boxed.margin_box),
            Floated::NoSide => flow.float_cursor,
        },
        ..boxed
    }
}

pub open spec fn inline_finished_spec(own: Layout, style: &Style, flow: &Flow) -> Layout {
    let height = if style.height.is_auto() {
        px_sub(flow.block_cursor, own.content_box.y)
    } else {
        style.height.value()
    };
    let boxed = with_boxes(Layout { content_box: Rect { height, ..own.content_box }, ..own });
    Layout {
        block_size: flow.line_height,
        block_extent: flow.block_extent,
        float_cursor: flow.float_cursor,
        ..boxed
    }
}

/// The geometry of an inline box after the boxes inside it were laid out: it
/// moves what follows it by the block size of the tallest box inside it.
#[verifier::when_used_as_spec(inline_finished_spec)]
pub fn inline_finished(own: Layout, style: &Style, flow: &Flow) -> (l: Layout)
    ensures
        l == inline_finished_spec(own, style, flow),
        l.boxes_nest(),
{
    let height = if style.height.is_auto() {
        px_sub(flow.block_cursor, own.content_box.y)
    } else {
        style.height.value()
    };
    let boxed = with_boxes(Layout { content_box: Rect { height, ..own.content_box }, ..own });
    Layout {
        block_size: flow.line_height,
        block_extent: flow.block_extent,
        float_cursor: flow.float_cursor,
        ..boxed
    }
}

pub open spec fn inline_root_finished_spec(
    own: Layout,
    style: &Style,
    class: LayoutClass,
    flow: &Flow,
) -> Layout {
    let height = if style.height.is_auto() {
        px_sub(px_add(flow.block_cursor, flow.line_height), own.content_box.y)
    } else {
        style.height.value()
    };
    let boxed = with_boxes(Layout { content_box: Rect { height, ..own.content_box }, ..own });
    Layout {
        block_size: block_size_of(&boxed, class, style.position),
        block_extent: flow.block_extent,
        float_cursor: flow.float_cursor,
        ..boxed
    }
}

/// The geometry of the wrapper around a run of inline-level boxes after the
/// boxes inside it were laid out: an automatic height reaches from the top of
/// the content box to the lower end of the last line.
#[verifier::when_used_as_spec(inline_root_finished_spec)]
pub fn inline_root_finished(
    own: Layout,
    style: &Style,
    class: LayoutClass,
    flow: &Flow,
) -> (l: Layout)
    ensures
        l == inline_root_finished_spec(own, style, class, flow),
        l.boxes_nest(),
{
    let height = if style.height.is_auto() {
        px_sub(px_add(flow.block_cursor, flow.line_height), own.content_box.y)
    } else {
        style.height.value()
    };
    let boxed = with_boxes(Layout { content_box: Rect { height, ..own.content_box }, ..own });
    Layout {
        block_size: block_size_of(&boxed, class, style.position),
        block_extent: flow.block_extent,
        float_cursor: flow.float_cursor,
        ..boxed
    }
}

pub open spec fn float_finished_spec(
    own: Layout,
    style: &Style,
    class: LayoutClass,
    flow: &Flow,
) -> Layout {
    let height = if style.height.is_auto() {
        if class.is_block_root() {
            px_sub(px_max(flow.block_cursor, flow.block_extent), own.content_box.y)
        } else {
            px_sub(flow.block_cursor, own.content_box.y)
        }
    } else {
        style.height.value()
    };
    let boxed = with_boxes(Layout { content_box: Rect { height, ..own.content_box }, ..own });
    let solid = boxed.border_box.height > 0;
    Layout {
        block_size: 0,
        block_extent: px_max(
            flow.block_extent,
            if solid {
                boxed.border_box.bottom()
            } else {
                0
            },
        ),
        float_cursor: match style.float {
            Floated::Left => if solid {
                own.float_cursor.insert_left(&boxed.margin_box)
            } else {
                own.float_cursor
            },
            Floated::Right => if solid {
                own.float_cursor.insert_right(&boxed.margin_box)
            } else {
                own.float_cursor
            },
            Floated::NoSide => own.float_cursor,
        },
        inline_size: boxed.border_box.width,
        ..boxed
    }
}

/// The geometry of a floated box after the boxes inside it were laid out.
///
/// The box takes no room in the flow. Where its border box has a height, it
/// joins the floats that were placed before it; the floats inside it stay
/// inside.
#[verifier::when_used_as_spec(float_finished_spec)]
pub fn float_finished(own: Layout, style: &Style, class: LayoutClass, flow: &Flow) -> (l: Layout)
    ensures
        l == float_finished_spec(own, style, class, flow),
        l.boxes_nest(),
{
    let height = if style.height.is_auto() {
        if class.is_block_root() {
            px_sub(px_max(flow.block_cursor, flow.block_extent), own.content_box.y)
        } else {
            px_sub(flow.block_cursor, own.content_box.y)
        }
    } else {
        style.height.value()
    };
    let boxed = with_boxes(Layout { content_box: Rect { height, ..own.content_box }, ..own });
    let solid = boxed.border_box.height > 0;
    Layout {
        block_size: 0,
        block_extent: px_max(
            flow.block_extent,
            if solid {
                boxed.border_box.bottom()
            } else {
                0
            },
        ),
        float_cursor: match style.float {
            Floated::Left => if solid {
                own.float_cursor.insert_left(&boxed.margin_box)
            } else {
                own.float_cursor
            },
            Floated::Right => if solid {
                own.float_cursor.insert_right(&boxed.margin_box)
            } else {
                own.float_cursor
            },
            Floated::NoSide => own.float_cursor,
        },
        inline_size: boxed.border_box.width,
        ..boxed
    }
}

/// The geometry of a box after the boxes inside it were laid out.
pub open spec fn finished(
    routine: Routine,
    own: Layout,
    style: &Style,
    class: LayoutClass,
    flow: &Flow,
) -> Layout {
    match routine {
        Routine::Block => block_finished(own, style, class, flow),
        Routine::Inline => inline_finished(own, style, flow),
        Routine::InlineRoot => inline_root_finished(own, style, class, flow),
        Routine::Float => float_finished(own, style, class, flow),
    }
}

} // verus!
