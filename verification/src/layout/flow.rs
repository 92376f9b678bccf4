//! The geometry of one box: what each kind of box computes before, between
//! and after the layout of the boxes inside it.

use vstd::prelude::*;
use crate::floats::FloatCursor;
use crate::geometry::{px_add, px_half, px_max, px_sub, Pixels, Rect};
use crate::layout::{Context, Layout, LayoutClass};
use crate::style::{Clear, Positioned, Style};

verus! {

/// The way in which a box is laid out.
#[derive(Clone, Copy, PartialEq, Eq, Debug, Structural)]
pub enum Routine {
    /// A block container in the flow of its parent, or placed by offsets.
    Block,
    /// An inline box.
    Inline,
    /// The wrapper around a run of inline-level boxes, which breaks lines.
    InlineRoot,
    /// A floated box.
    Float,
}

/// What a box keeps track of while the boxes inside it are laid out.
#[derive(Clone, Copy, PartialEq, Eq, Debug)]
pub struct Flow {
    /// Where the next box starts on the block axis.
    pub block_cursor: Pixels,
    /// Where the next box starts on the inline axis.
    pub inline_cursor: Pixels,
    /// Where the current line starts.
    pub inline_start: Pixels,
    /// Where the current line ends.
    pub inline_end: Pixels,
    /// The number of the current line.
    pub line_cursor: usize,
    /// The height of the tallest box on the current line.
    pub line_height: Pixels,
    /// How far down the boxes laid out so far reach.
    pub block_extent: Pixels,
    /// The floats placed so far.
    pub float_cursor: FloatCursor,
}

/// The widths that the width equation of a block gives.
#[derive(Clone, Copy, PartialEq, Eq, Debug)]
pub struct BlockWidth {
    /// The width of the containing block less the widths that the style asks
    /// for.
    pub underflow: Pixels,
    pub content_width: Pixels,
    pub margin_left: Pixels,
    pub margin_right: Pixels,
}

pub open spec fn routine_of_spec(class: LayoutClass, anonymous: bool) -> Option<Routine> {
    match class {
        LayoutClass::InlineRoot => Some(Routine::InlineRoot),
        LayoutClass::Inline => Some(Routine::Inline),
        LayoutClass::InlineBlock => Some(Routine::Block),
        LayoutClass::BlockRoot => Some(Routine::Block),
        LayoutClass::Block => Some(Routine::Block),
        LayoutClass::Floated => Some(Routine::Float),
        LayoutClass::Text => None,
        LayoutClass::Line => None,
    }
}

/// The routine that lays out a box of the given class, whether the box is
/// anonymous or not. Runs of text and line boxes have none.
#[verifier::when_used_as_spec(routine_of_spec)]
pub fn routine_of(class: LayoutClass, anonymous: bool) -> (r: Option<Routine>)
    ensures
        r == routine_of_spec(class, anonymous),
{
    match class {
        LayoutClass::InlineRoot => Some(Routine::InlineRoot),
        LayoutClass::Inline => Some(Routine::Inline),
        LayoutClass::InlineBlock => Some(Routine::Block),
        LayoutClass::BlockRoot => Some(Routine::Block),
        LayoutClass::Block => Some(Routine::Block),
        LayoutClass::Floated => Some(Routine::Float),
        LayoutClass::Text => None,
        LayoutClass::Line => None,
    }
}

pub open spec fn in_flow_spec(class: LayoutClass, position: Positioned) -> bool {
    match class {
        LayoutClass::Floated => false,
        LayoutClass::BlockRoot => !position.is_positioned(),
        _ => true,
    }
}

/// Whether a box of the given class and positioning scheme takes part in the
/// flow of its parent.
#[verifier::when_used_as_spec(in_flow_spec)]
pub fn in_flow(class: LayoutClass, position: Positioned) -> (b: bool)
    ensures
        b == in_flow_spec(class, position),
{
    match class {
        LayoutClass::Floated => false,
        LayoutClass::BlockRoot => !position.is_positioned(),
        _ => true,
    }
}

pub open spec fn entered_spec(layout: Layout, style: &Style, context: &Context) -> Layout {
    Layout {
        containing_box: context.containing_box,
        positioning_box: if style.position == Positioned::Fixed {
            context.init_positioning_box
        } else {
            context.ns_positioning_box
        },
        ns_positioning_box: context.ns_positioning_box,
        init_positioning_box: context.init_positioning_box,
        block_pos: context.block_pos,
        inline_pos: context.inline_pos,
        line_pos: context.line_pos,
        float_cursor: context.float_cursor,
        ..layout
    }
}

/// The geometry of a box once it has taken what the containing box tells it.
/// A box with a fixed position counts its offsets against the viewport, any
/// other against the nearest ancestor that is not statically positioned.
#[verifier::when_used_as_spec(entered_spec)]
pub fn entered(layout: Layout, style: &Style, context: &Context) -> (l: Layout)
    ensures
        l == entered_spec(layout, style, context),
{
    Layout {
        containing_box: context.containing_box,
        positioning_box: if style.position == Positioned::Fixed {
            context.init_positioning_box
        } else {
            context.ns_positioning_box
        },
        ns_positioning_box: context.ns_positioning_box,
        init_positioning_box: context.init_positioning_box,
        block_pos: context.block_pos,
        inline_pos: context.inline_pos,
        line_pos: context.line_pos,
        float_cursor: context.float_cursor,
        ..layout
    }
}

pub open spec fn block_width_spec(containing_width: Pixels, style: &Style) -> BlockWidth {
    let asked = px_add(
        px_add(
            px_add(
                px_add(
                    px_add(
                        px_add(style.margin.left.value(), style.margin.right.value()),
                        style.border.left,
                    ),
                    style.border.right,
                ),
                style.padding.left,
            ),
            style.padding.right,
        ),
        style.width.value(),
    );
    let underflow = px_sub(containing_width, asked);
    BlockWidth {
        underflow,
        content_width: if style.width.is_auto() {
            if style.position == Positioned::Fixed {
                0
            } else {
                px_max(underflow, 0)
            }
        } else {
            style.width.value()
        },
        margin_left: if style.margin.left.is_auto() {
            if style.width.is_auto() || underflow < 0 {
                0
            } else if style.margin.right.is_auto() {
                px_half(underflow)
            } else {
                underflow
            }
        } else {
            style.margin.left.value()
        },
        margin_right: if style.width.is_auto() {
            if underflow < 0 {
                px_add(style.margin.right.value(), underflow)
            } else {
                style.margin.right.value()
            }
        } else if style.margin.right.is_auto() {
            if style.margin.left.is_auto() {
                px_half(underflow)
            } else {
                underflow
            }
        } else if style.margin.left.is_auto() && underflow >= 0 {
            style.margin.right.value()
        } else {
            px_add(style.margin.right.value(), underflow)
        },
    }
}

/// The width of a block in the flow and its horizontal margins.
///
/// The underflow is the width of the containing block less the margins,
/// borders, paddings and width that the style asks for, an automatic one
/// counting as none. An automatic width takes up the underflow where there is
/// any, and automatic margins are none then. Beside a width that is given,
/// two automatic margins share the underflow, and a single one takes it all,
/// but for an automatic left margin where room is missing, which is none.
/// What no automatic length takes, the right margin takes.
#[verifier::when_used_as_spec(block_width_spec)]
pub fn block_width(containing_width: Pixels, style: &Style) -> (w: BlockWidth)
    ensures
        w == block_width_spec(containing_width, style),
{
    let asked = px_add(
        px_add(
            px_add(
                px_add(
                    px_add(
                        px_add(style.margin.left.value(), style.margin.right.value()),
                        style.border.left,
                    ),
                    style.border.right,
                ),
                style.padding.left,
            ),
            style.padding.right,
        ),
        style.width.value(),
    );
    let underflow = px_sub(containing_width, asked);
    BlockWidth {
        underflow,
        content_width: if style.width.is_auto() {
            if style.position == Positioned::Fixed {
                0
            } else {
                px_max(underflow, 0)
            }
        } else {
            style.width.value()
        },
        margin_left: if style.margin.left.is_auto() {
            if style.width.is_auto() || underflow < 0 {
                0
            } else if style.margin.right.is_auto() {
                px_half(underflow)
            } else {
                underflow
            }
        } else {
            style.margin.left.value()
        },
        margin_right: if style.width.is_auto() {
            if underflow < 0 {
                px_add(style.margin.right.value(), underflow)
            } else {
                style.margin.right.value()
            }
        } else if style.margin.right.is_auto() {
            if style.margin.left.is_auto() {
                px_half(underflow)
            } else {
                underflow
            }
        } else if style.margin.left.is_auto() && underflow >= 0 {
            style.margin.right.value()
        } else {
            px_add(style.margin.right.value(), underflow)
        },
    }
}

pub open spec fn fitted_width_spec(layout: &Layout, style: &Style) -> Pixels {
    if style.width.is_auto() {
        px_sub(
            px_sub(
                px_sub(
                    px_sub(
                        px_sub(
                            px_sub(layout.containing_box.width, layout.padding.left),
                            layout.padding.right,
                        ),
                        layout.border.left,
                    ),
                    layout.border.right,
                ),
                layout.effective_margin.left,
            ),
            layout.effective_margin.right,
        )
    } else {
        style.width.value()
    }
}

/// The content width of a box with a formatting context of its own: the
/// width that the style asks for, or what the containing block leaves when
/// padding, border and margin are taken off.
#[verifier::when_used_as_spec(fitted_width_spec)]
pub fn fitted_width(layout: &Layout, style: &Style) -> (w: Pixels)
    ensures
        w == fitted_width_spec(layout, style),
{
    if style.width.is_auto() {
        px_sub(
            px_sub(
                px_sub(
                    px_sub(
                        px_sub(
                            px_sub(layout.containing_box.width, layout.padding.left),
                            layout.padding.right,
                        ),
                        layout.border.left,
                    ),
                    layout.border.right,
                ),
                layout.effective_margin.left,
            ),
            layout.effective_margin.right,
        )
    } else {
        style.width.value()
    }
}

pub open spec fn outer_width_spec(layout: &Layout) -> Pixels {
    px_add(
        px_add(
            px_add(
                px_add(
                    px_add(
                        px_add(layout.content_box.width, layout.padding.left),
                        layout.padding.right,
                    ),
                    layout.border.left,
                ),
                layout.border.right,
            ),
            layout.effective_margin.left,
        ),
        layout.effective_margin.right,
    )
}

/// The width of the margin box that goes with the content width.
#[verifier::when_used_as_spec(outer_width_spec)]
pub fn outer_width(layout: &Layout) -> (w: Pixels)
    ensures
        w == outer_width_spec(layout),
{
    px_add(
        px_add(
            px_add(
                px_add(
                    px_add(
                        px_add(layout.content_box.width, layout.padding.left),
                        layout.padding.right,
                    ),
                    layout.border.left,
                ),
                layout.border.right,
            ),
            layout.effective_margin.left,
        ),
        layout.effective_margin.right,
    )
}

pub open spec fn content_x_spec(layout: &Layout, inline: Pixels) -> Pixels {
    px_add(
        px_add(px_add(inline, layout.padding.left), layout.border.left),
        layout.effective_margin.left,
    )
}

/// The inline coordinate of the content box of a box whose margin box
/// starts at `inline`.
#[verifier::when_used_as_spec(content_x_spec)]
pub fn content_x(layout: &Layout, inline: Pixels) -> (x: Pixels)
    ensures
        x == content_x_spec(layout, inline),
{
    px_add(
        px_add(px_add(inline, layout.padding.left), layout.border.left),
        layout.effective_margin.left,
    )
}

pub open spec fn content_y_spec(layout: &Layout, block: Pixels) -> Pixels {
    px_add(
        px_add(px_add(block, layout.padding.top), layout.border.top),
        layout.effective_margin.top,
    )
}

/// The block coordinate of the content box of a box whose margin box starts
/// at `block`.
#[verifier::when_used_as_spec(content_y_spec)]
pub fn content_y(layout: &Layout, block: Pixels) -> (y: Pixels)
    ensures
        y == content_y_spec(layout, block),
{
    px_add(
        px_add(px_add(block, layout.padding.top), layout.border.top),
        layout.effective_margin.top,
    )
}

pub open spec fn cleared_spec(y: Pixels, floats: &FloatCursor, clear: &Clear) -> Pixels {
    let past_left = if clear.left {
        px_max(y, floats.left_clearance())
    } else {
        y
    };
    if clear.right {
        px_max(past_left, floats.right_clearance())
    } else {
        past_left
    }
}

/// The block coordinate `y`, moved down past the floats on the sides that
/// `clear` names.
#[verifier::when_used_as_spec(cleared_spec)]
pub fn cleared(y: Pixels, floats: &FloatCursor, clear: &Clear) -> (r: Pixels)
    ensures
        r == cleared_spec(y, floats, clear),
        r >= y,
        clear.left ==> r >= floats.left_clearance(),
        clear.right ==> r >= floats.right_clearance(),
{
    let past_left = if clear.left {
        px_max(y, floats.left_clearance())
    } else {
        y
    };
    if clear.right {
        px_max(past_left, floats.right_clearance())
    } else {
        past_left
    }
}

pub open spec fn with_boxes_spec(layout: Layout) -> Layout {
    let padding_box = layout.content_box.extend_by(&layout.padding);
    let border_box = padding_box.extend_by(&layout.border);
    Layout {
        padding_box,
        border_box,
        margin_box: border_box.extend_by(&layout.effective_margin),
        ..layout
    }
}

/// The geometry with the padding box, the border box and the margin box set
/// from the content box.
#[verifier::when_used_as_spec(with_boxes_spec)]
pub fn with_boxes(layout: Layout) -> (l: Layout)
    ensures
        l == with_boxes_spec(layout),
        l.boxes_nest(),
{
    let padding_box = layout.content_box.extend_by(&layout.padding);
    let border_box = padding_box.extend_by(&layout.border);
    Layout {
        padding_box,
        border_box,
        margin_box: border_box.extend_by(&layout.effective_margin),
        ..layout
    }
}

pub open spec fn placed_by_offsets_spec(layout: Layout, style: &Style) -> Layout {
    let x = if style.position.is_positioned() {
        match style.left {
            Some(left) => px_add(
                px_add(
                    px_add(px_add(layout.positioning_box.x, left), layout.padding.left),
                    layout.border.left,
                ),
                layout.margin.left,
            ),
            None => match style.right {
                Some(right) => px_sub(
                    px_sub(
                        px_add(layout.positioning_box.x, layout.positioning_box.width),
                        layout.content_box.width,
                    ),
                    right,
                ),
                None => layout.content_box.x,
            },
        }
    } else {
        layout.content_box.x
    };
    let y = if style.position.is_positioned() {
        match style.top {
            Some(top) => px_add(layout.positioning_box.y, top),
            None => match style.bottom {
                Some(bottom) => px_sub(
                    px_sub(
                        px_add(layout.positioning_box.y, layout.positioning_box.height),
                        layout.content_box.height,
                    ),
                    bottom,
                ),
                None => layout.content_box.y,
            },
        }
    } else {
        layout.content_box.y
    };
    let relative = style.position == Positioned::Relative;
    Layout {
        content_box: Rect {
            x: if relative && style.left.is_some() {
                px_add(x, style.left.unwrap())
            } else {
                x
            },
            y: if relative && style.top.is_some() {
                px_add(y, style.top.unwrap())
            } else {
                y
            },
            ..layout.content_box
        },
        ..layout
    }
}

/// The geometry with the content box moved as the positioning scheme asks.
///
/// A box that is placed by its offsets takes its inline coordinate from its
/// left offset, or else from its right offset, counted from the sides of the
/// positioning block, and its block coordinate from its top offset, or else
/// from its bottom offset. A relatively positioned box is moved by its left
/// and top offsets from where it stands.
#[verifier::when_used_as_spec(placed_by_offsets_spec)]
pub fn placed_by_offsets(layout: Layout, style: &Style) -> (l: Layout)
    ensures
        l == placed_by_offsets_spec(layout, style),
{
    let x = if style.position.is_positioned() {
        match style.left {
            Some(left) => px_add(
                px_add(
                    px_add(px_add(layout.positioning_box.x, left), layout.padding.left),
                    layout.border.left,
                ),
                layout.margin.left,
            ),
            None => match style.right {
                Some(right) => px_sub(
                    px_sub(
                        px_add(layout.positioning_box.x, layout.positioning_box.width),
                        layout.content_box.width,
                    ),
                    right,
                ),
                None => layout.content_box.x,
            },
        }
    } else {
        layout.content_box.x
    };
    let y = if style.position.is_positioned() {
        match style.top {
            Some(top) => px_add(layout.positioning_box.y, top),
            None => match style.bottom {
                Some(bottom) => px_sub(
                    px_sub(
                        px_add(layout.positioning_box.y, layout.positioning_box.height),
                        layout.content_box.height,
                    ),
                    bottom,
                ),
                None => layout.content_box.y,
            },
        }
    } else {
        layout.content_box.y
    };
    let relative = style.position == Positioned::Relative;
    Layout {
        content_box: Rect {
            x: match style.left {
                Some(left) => if relative {
                    px_add(x, left)
                } else {
                    x
                },
                None => x,
            },
            y: match style.top {
                Some(top) => if relative {
                    px_add(y, top)
                } else {
                    y
                },
                None => y,
            },
            ..layout.content_box
        },
        ..layout
    }
}

} // verus!
