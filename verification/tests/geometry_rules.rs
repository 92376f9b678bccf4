use browser::dom::{AttributeMap, DocumentNode};
use browser::floats::FloatCursor;
use browser::geometry::{px_add, px_half, px_max, px_min, px_sub, Color, Edge, Frame, Rect};
use browser::layout::flow::{
    block_width, cleared, content_x, content_y, entered, fitted_width, in_flow, outer_width,
    placed_by_offsets, routine_of, with_boxes, BlockWidth, Flow, Routine,
};
use browser::layout::routines::{
    advanced, block_size_of, child_context, flow_start, made_room, next_line,
};
use browser::layout::{to_pixels, Context, Layout, LayoutClass, LayoutNode, Parameters};
use browser::paint::{DisplayCommand, DisplayList};
use browser::style::{Clear, Dimension, DisplayType, Floated, Overflow, Positioned, Style};

fn block() -> Style {
    let mut style = Style::initial();
    style.display = DisplayType::Block;
    style
}

fn uniform(v: i64) -> Edge<i64> {
    Edge { top: v, right: v, bottom: v, left: v }
}

#[test]
fn lengths_saturate() {
    assert_eq!(px_add(2, 3), 5);
    assert_eq!(px_add(i64::MAX, 1), i64::MAX);
    assert_eq!(px_add(i64::MIN, -1), i64::MIN);
    assert_eq!(px_add(i64::MAX, i64::MIN), -1);
    assert_eq!(px_sub(2, 3), -1);
    assert_eq!(px_sub(i64::MIN, 1), i64::MIN);
    assert_eq!(px_sub(i64::MAX, -1), i64::MAX);
    assert_eq!(px_sub(0, i64::MIN), i64::MAX);
    assert_eq!(px_sub(-1, i64::MIN), i64::MAX);
    assert_eq!(px_max(-3, 2), 2);
    assert_eq!(px_min(-3, 2), -3);
    assert_eq!(px_half(7), 3);
    assert_eq!(px_half(-7), -3);
    assert_eq!(px_half(i64::MIN), i64::MIN / 2);
}

#[test]
fn rectangles_grow_and_shrink_by_edges() {
    let r = Rect { x: 10, y: 20, width: 100, height: 50 };
    let e = Edge { top: 1, right: 2, bottom: 3, left: 4 };
    assert_eq!(r.extend_by(&e), Rect { x: 6, y: 19, width: 106, height: 54 });
    assert_eq!(r.shrink_by(&e), Rect { x: 14, y: 21, width: 94, height: 46 });
    assert_eq!(r.extend_by(&e).shrink_by(&e), r);
    assert_eq!(r.right(), 110);
    assert_eq!(r.bottom(), 70);
    assert_eq!(r.frame_by(&e), Frame { outer: r, inner: Rect { x: 14, y: 21, width: 94, height: 46 } });
    assert_eq!(Rect::zero(), Rect { x: 0, y: 0, width: 0, height: 0 });
    assert_eq!(Edge::<i64>::zero(), uniform(0));
    assert_eq!(Color::transparent(), Color { r: 0, g: 0, b: 0, a: 0 });
}

#[test]
fn width_equation() {
    let mut style = block();
    style.width = Dimension::Length(200);
    style.margin.left = Dimension::Auto;
    style.margin.right = Dimension::Auto;
    style.padding = Edge { top: 0, right: 10, bottom: 0, left: 10 };
    style.border = Edge { top: 0, right: 5, bottom: 0, left: 5 };
    assert_eq!(
        block_width(1000, &style),
        BlockWidth { underflow: 770, content_width: 200, margin_left: 385, margin_right: 385 }
    );
    style.margin.right = Dimension::Length(20);
    assert_eq!(
        block_width(1000, &style),
        BlockWidth { underflow: 750, content_width: 200, margin_left: 750, margin_right: 20 }
    );
    style.margin.left = Dimension::Length(30);
    style.margin.right = Dimension::Auto;
    assert_eq!(
        block_width(1000, &style),
        BlockWidth { underflow: 740, content_width: 200, margin_left: 30, margin_right: 740 }
    );
    style.margin.right = Dimension::Length(20);
    assert_eq!(
        block_width(1000, &style),
        BlockWidth { underflow: 720, content_width: 200, margin_left: 30, margin_right: 740 }
    );
    assert_eq!(
        block_width(100, &style),
        BlockWidth { underflow: -180, content_width: 200, margin_left: 30, margin_right: -160 }
    );
    style.width = Dimension::Auto;
    assert_eq!(
        block_width(1000, &style),
        BlockWidth { underflow: 920, content_width: 920, margin_left: 30, margin_right: 20 }
    );
    assert_eq!(
        block_width(50, &style),
        BlockWidth { underflow: -30, content_width: 0, margin_left: 30, margin_right: -10 }
    );
    style.position = Positioned::Fixed;
    assert_eq!(block_width(1000, &style).content_width, 0);
    style.position = Positioned::Static;
    style.width = Dimension::Length(200);
    style.margin.left = Dimension::Auto;
    style.margin.right = Dimension::Auto;
    assert_eq!(
        block_width(101, &style),
        BlockWidth { underflow: -129, content_width: 200, margin_left: 0, margin_right: -64 }
    );
}

#[test]
fn content_box_from_the_margin_box_corner() {
    let mut layout = Layout::initial();
    layout.containing_box = Rect { x: 0, y: 0, width: 500, height: 0 };
    layout.padding = uniform(3);
    layout.border = uniform(2);
    layout.effective_margin = Edge { top: 7, right: 11, bottom: 13, left: 17 };
    let mut style = block();
    assert_eq!(fitted_width(&layout, &style), 500 - 6 - 4 - 28);
    style.width = Dimension::Length(40);
    assert_eq!(fitted_width(&layout, &style), 40);
    layout.content_box.width = 40;
    assert_eq!(outer_width(&layout), 40 + 6 + 4 + 28);
    assert_eq!(content_x(&layout, 100), 100 + 3 + 2 + 17);
    assert_eq!(content_y(&layout, 100), 100 + 3 + 2 + 7);
    layout.content_box = Rect { x: 122, y: 112, width: 40, height: 10 };
    let boxed = with_boxes(layout);
    assert_eq!(boxed.padding_box, Rect { x: 119, y: 109, width: 46, height: 16 });
    assert_eq!(boxed.border_box, Rect { x: 117, y: 107, width: 50, height: 20 });
    assert_eq!(boxed.margin_box, Rect { x: 100, y: 100, width: 78, height: 40 });
}

#[test]
fn clearance_moves_down_past_the_named_sides() {
    let floats = FloatCursor::empty()
        .insert_left(&Rect { x: 0, y: 0, width: 10, height: 50 })
        .insert_right(&Rect { x: 90, y: 0, width: 10, height: 80 });
    let side = |left, right| Clear { left, right };
    assert_eq!(cleared(20, &floats, &side(false, false)), 20);
    assert_eq!(cleared(20, &floats, &side(true, false)), 50);
    assert_eq!(cleared(20, &floats, &side(false, true)), 80);
    assert_eq!(cleared(20, &floats, &side(true, true)), 80);
    assert_eq!(cleared(100, &floats, &side(true, true)), 100);
    assert_eq!(cleared(-7, &FloatCursor::empty(), &side(true, true)), -7);
}

#[test]
fn offsets_place_a_positioned_box() {
    let mut layout = Layout::initial();
    layout.positioning_box = Rect { x: 100, y: 200, width: 800, height: 600 };
    layout.content_box = Rect { x: 1, y: 2, width: 50, height: 60 };
    layout.padding = uniform(3);
    layout.border = uniform(2);
    layout.margin = uniform(7);
    let mut style = block();
    style.left = Some(10);
    style.right = Some(30);
    style.top = Some(20);
    style.bottom = Some(40);
    assert_eq!(placed_by_offsets(layout, &style).content_box, layout.content_box);
    style.position = Positioned::Absolute;
    assert_eq!(
        placed_by_offsets(layout, &style).content_box,
        Rect { x: 100 + 10 + 3 + 2 + 7, y: 220, width: 50, height: 60 }
    );
    style.left = None;
    style.top = None;
    assert_eq!(
        placed_by_offsets(layout, &style).content_box,
        Rect { x: 100 + 800 - 50 - 30, y: 200 + 600 - 60 - 40, width: 50, height: 60 }
    );
    style.right = None;
    style.bottom = None;
    assert_eq!(placed_by_offsets(layout, &style).content_box, layout.content_box);
    style.position = Positioned::Relative;
    style.left = Some(5);
    style.top = Some(-7);
    style.right = Some(1000);
    assert_eq!(
        placed_by_offsets(layout, &style).content_box,
        Rect { x: 6, y: -5, width: 50, height: 60 }
    );
}

#[test]
fn what_a_box_is_told() {
    let view = Rect { x: 0, y: 0, width: 800, height: 600 };
    let near = Rect { x: 5, y: 5, width: 100, height: 100 };
    let context = Context {
        containing_box: Rect { x: 1, y: 2, width: 3, height: 4 },
        ns_positioning_box: near,
        init_positioning_box: view,
        block_pos: 11,
        inline_pos: 12,
        line_pos: 13,
        float_cursor: FloatCursor::empty().insert_left(&near),
    };
    let mut style = block();
    let told = entered(Layout::initial(), &style, &context);
    assert_eq!(told.containing_box, context.containing_box);
    assert_eq!(told.positioning_box, near);
    assert_eq!((told.block_pos, told.inline_pos, told.line_pos), (11, 12, 13));
    assert_eq!(told.float_cursor, context.float_cursor);
    assert_eq!(told.init_positioning_box, view);
    style.position = Positioned::Absolute;
    assert_eq!(entered(Layout::initial(), &style, &context).positioning_box, near);
    style.position = Positioned::Fixed;
    assert_eq!(entered(Layout::initial(), &style, &context).positioning_box, view);
    let parameters =
        Parameters { viewport_width: 800, viewport_height: 600, scrollbar_width: 0, font_size: 16 };
    let root = parameters.root_context();
    assert_eq!(root.containing_box, view);
    assert_eq!(root.float_cursor, FloatCursor::empty());
    assert_eq!(to_pixels(usize::MAX), i64::MAX);
    assert_eq!(to_pixels(17), 17);
}

#[test]
fn routines_by_class() {
    assert_eq!(routine_of(LayoutClass::Block, false), Some(Routine::Block));
    assert_eq!(routine_of(LayoutClass::Block, true), Some(Routine::Block));
    assert_eq!(routine_of(LayoutClass::BlockRoot, true), Some(Routine::Block));
    assert_eq!(routine_of(LayoutClass::InlineBlock, false), Some(Routine::Block));
    assert_eq!(routine_of(LayoutClass::Inline, false), Some(Routine::Inline));
    assert_eq!(routine_of(LayoutClass::InlineRoot, true), Some(Routine::InlineRoot));
    assert_eq!(routine_of(LayoutClass::Floated, false), Some(Routine::Float));
    assert_eq!(routine_of(LayoutClass::Text, false), None);
    assert_eq!(routine_of(LayoutClass::Line, false), None);
    assert!(in_flow(LayoutClass::Block, Positioned::Absolute));
    assert!(in_flow(LayoutClass::BlockRoot, Positioned::Relative));
    assert!(!in_flow(LayoutClass::BlockRoot, Positioned::Absolute));
    assert!(!in_flow(LayoutClass::BlockRoot, Positioned::Fixed));
    assert!(!in_flow(LayoutClass::Floated, Positioned::Static));
    assert!(LayoutClass::Floated.is_block_level() && LayoutClass::Floated.is_inline_level());
    assert!(LayoutClass::InlineRoot.is_block_level() && !LayoutClass::InlineRoot.is_inline_level());
    assert!(LayoutClass::InlineBlock.is_block_root() && LayoutClass::InlineBlock.is_inline_level());
}

fn word(inline_size: i64, block_size: i64) -> LayoutNode<'static> {
    let mut layout = Layout::initial();
    layout.inline_size = inline_size;
    layout.inline_extent = inline_size;
    layout.block_size = block_size;
    LayoutNode {
        document_node: None,
        style: Style::initial(),
        layout,
        class: LayoutClass::Text,
        children: vec![],
    }
}

#[test]
fn lines_break_where_the_cursor_passes_the_end() {
    let words = vec![word(40, 10), word(40, 12), word(40, 10), word(40, 30), word(200, 5), word(1, 1)];
    let mut line = LayoutNode::into_inline_root(&Style::initial(), words);
    let context = Context {
        containing_box: Rect { x: 0, y: 0, width: 100, height: 0 },
        ns_positioning_box: Rect::zero(),
        init_positioning_box: Rect::zero(),
        block_pos: 0,
        inline_pos: 0,
        line_pos: 0,
        float_cursor: FloatCursor::empty().insert_left(&Rect { x: 0, y: 0, width: 20, height: 12 }),
    };
    line.layout(&context);
    let placed: Vec<(i64, i64, usize)> = line
        .children
        .iter()
        .map(|c| (c.layout.inline_pos, c.layout.block_pos, c.layout.line_pos))
        .collect();
    assert_eq!(
        placed,
        vec![(20, 0, 0), (60, 0, 0), (0, 12, 1), (40, 12, 1), (0, 42, 2), (0, 47, 3)]
    );
    assert_eq!(line.layout.content_box, Rect { x: 0, y: 0, width: 100, height: 48 });
    assert_eq!(line.layout.block_size, 48);
    assert_eq!(line.layout.margin_box, line.layout.content_box);
}

#[test]
fn flow_of_a_block_and_of_a_float() {
    let mut own = Layout::initial();
    own.content_box = Rect { x: 10, y: 20, width: 100, height: 0 };
    own.padding = uniform(4);
    own.ns_positioning_box = Rect { x: 1, y: 1, width: 1, height: 1 };
    own.float_cursor = FloatCursor::empty().insert_left(&Rect { x: 0, y: 0, width: 5, height: 5 });
    own.line_pos = 9;
    let start = flow_start(Routine::Block, &own);
    assert_eq!((start.block_cursor, start.inline_cursor), (20, 10));
    assert_eq!(start.float_cursor, own.float_cursor);
    assert_eq!(flow_start(Routine::Float, &own).float_cursor, FloatCursor::empty());
    let mut style = block();
    let told = child_context(Routine::Block, &own, &style, &start);
    assert_eq!(told.containing_box, own.content_box);
    assert_eq!(told.ns_positioning_box, own.ns_positioning_box);
    assert_eq!((told.block_pos, told.inline_pos, told.line_pos), (20, 10, 0));
    style.position = Positioned::Relative;
    assert_eq!(
        child_context(Routine::Float, &own, &style, &start).ns_positioning_box,
        Rect { x: 6, y: 16, width: 108, height: 8 }
    );
    assert_eq!(
        child_context(Routine::Inline, &own, &style, &start).ns_positioning_box,
        own.ns_positioning_box
    );
    assert_eq!(child_context(Routine::Inline, &own, &style, &start).line_pos, 9);

    let mut child = Layout::initial();
    child.block_size = 30;
    child.block_extent = 77;
    child.inline_size = 8;
    child.content_box = Rect { x: 0, y: 100, width: 0, height: 10 };
    child.padding = uniform(1);
    child.border = uniform(2);
    child.effective_margin = uniform(3);
    let plain = block();
    let after = advanced(Routine::Block, &start, &child, &plain, LayoutClass::Block);
    assert_eq!((after.block_cursor, after.block_extent), (50, 77));
    let floated = advanced(Routine::Block, &start, &child, &plain, LayoutClass::Floated);
    assert_eq!(floated.block_cursor, 20);
    let mut clearing = block();
    clearing.clear = Clear { left: false, right: true };
    let cleared_flow = advanced(Routine::Block, &start, &child, &clearing, LayoutClass::Floated);
    assert_eq!(cleared_flow.block_cursor, 100 + 10 + 1 + 2 + 3);
    let in_float = advanced(Routine::Float, &start, &child, &plain, LayoutClass::Floated);
    assert_eq!(in_float.block_cursor, 50);
    let in_inline = advanced(Routine::Inline, &start, &child, &plain, LayoutClass::Floated);
    assert_eq!((in_inline.inline_cursor, in_inline.block_cursor), (18, 20));
    assert_eq!(in_inline.line_height, 30);
    let mut absolute = block();
    absolute.position = Positioned::Absolute;
    let skipped = advanced(Routine::Inline, &start, &child, &absolute, LayoutClass::BlockRoot);
    assert_eq!(skipped.inline_cursor, 10);
    let in_line = advanced(Routine::InlineRoot, &start, &child, &plain, LayoutClass::Floated);
    assert_eq!((in_line.inline_cursor, in_line.line_height), (10, 0));
    let flow = Flow { line_cursor: usize::MAX, line_height: 6, ..start };
    let next = next_line(&own, &flow);
    assert_eq!((next.line_cursor, next.block_cursor, next.line_height), (usize::MAX, 26, 0));
    let mut wide = Layout::initial();
    wide.inline_extent = 1;
    let on_line = Flow { inline_start: 10, inline_cursor: 10, inline_end: 10, ..start };
    assert_eq!(made_room(Routine::InlineRoot, &own, &on_line, &wide, &plain, LayoutClass::Text), on_line);
    let full = Flow { inline_cursor: 11, line_height: 6, ..on_line };
    let room = made_room(Routine::InlineRoot, &own, &full, &wide, &plain, LayoutClass::Text);
    assert_eq!((room.line_cursor, room.block_cursor, room.line_height), (1, 26, 0));
    assert_eq!(room.inline_cursor, room.inline_start);
    assert_eq!(made_room(Routine::InlineRoot, &own, &full, &wide, &plain, LayoutClass::Floated), full);
    assert_eq!(made_room(Routine::InlineRoot, &own, &full, &wide, &absolute, LayoutClass::Text), full);
    assert_eq!(made_room(Routine::Inline, &own, &full, &wide, &plain, LayoutClass::Text), full);
    assert_eq!(made_room(Routine::Block, &own, &full, &wide, &plain, LayoutClass::Text), full);
}

#[test]
fn an_inline_box_is_as_tall_as_the_tallest_box_inside_it() {
    let inline = LayoutNode {
        document_node: None,
        style: Style::initial(),
        layout: Layout::initial(),
        class: LayoutClass::Inline,
        children: vec![word(40, 10), word(30, 14), word(5, 12)],
    };
    let mut line = LayoutNode::into_inline_root(&Style::initial(), vec![inline, word(7, 9)]);
    let context = Context {
        containing_box: Rect { x: 10, y: 20, width: 100, height: 0 },
        ns_positioning_box: Rect::zero(),
        init_positioning_box: Rect::zero(),
        block_pos: 25,
        inline_pos: 10,
        line_pos: 0,
        float_cursor: FloatCursor::empty(),
    };
    line.layout(&context);
    let inline = &line.children[0];
    let starts: Vec<i64> = inline.children.iter().map(|c| c.layout.inline_pos).collect();
    assert_eq!(starts, vec![10, 50, 80]);
    assert_eq!(inline.layout.block_size, 14);
    assert_eq!(inline.layout.content_box, Rect { x: 10, y: 25, width: 100, height: 0 });
    assert_eq!(line.layout.content_box, Rect { x: 10, y: 25, width: 100, height: 14 });
    assert_eq!(line.layout.block_size, 14);
}

#[test]
fn a_box_without_height_moves_the_flow_by_its_greater_margin() {
    let mut layout = Layout::initial();
    layout.effective_margin = Edge { top: 7, right: 0, bottom: 12, left: 0 };
    layout.margin_box = Rect { x: 0, y: 0, width: 0, height: 19 };
    assert_eq!(block_size_of(&layout, LayoutClass::Block, Positioned::Static), 12);
    assert_eq!(block_size_of(&layout, LayoutClass::InlineRoot, Positioned::Static), 12);
    assert_eq!(block_size_of(&layout, LayoutClass::BlockRoot, Positioned::Fixed), 0);
    assert_eq!(block_size_of(&layout, LayoutClass::Floated, Positioned::Static), 0);
    layout.border_box.height = 1;
    layout.margin_box.height = 20;
    assert_eq!(block_size_of(&layout, LayoutClass::Block, Positioned::Relative), 20);
    layout.margin_box.height = -3;
    assert_eq!(block_size_of(&layout, LayoutClass::Block, Positioned::Static), 0);
}

#[test]
fn paint_list_grows_at_the_end() {
    let mut list = DisplayList::new();
    assert_eq!(list.len(), 0);
    let red = Color { r: 255, g: 0, b: 0, a: 255 };
    let r = Rect { x: 0, y: 0, width: 1, height: 1 };
    list.display_block(red, r);
    list.display_frame(Color::transparent(), r.frame_by(&uniform(0)));
    assert_eq!(list.len(), 2);
    assert_eq!(list.commands[0], DisplayCommand::SolidBlock(red, r));
    assert_eq!(
        list.commands[1],
        DisplayCommand::SolidFrame(Color::transparent(), Frame { outer: r, inner: r })
    );
}

#[test]
fn attributes_keep_one_value_for_a_name() {
    let mut attributes = AttributeMap::new();
    attributes.insert("a".to_string(), "1".to_string());
    attributes.insert("b".to_string(), "2".to_string());
    attributes.insert("a".to_string(), "3".to_string());
    assert_eq!(attributes.len(), 2);
    assert_eq!(attributes.get(&"a".to_string()), Some(&"3".to_string()));
    assert_eq!(attributes.get(&"b".to_string()), Some(&"2".to_string()));
    assert_eq!(attributes.get(&"c".to_string()), None);
    let node = DocumentNode::new_elem("p".to_string(), attributes, vec![]);
    assert!(node.has_tag("p"));
    assert!(!node.has_tag("P"));
    assert!(!DocumentNode::new_text("p".to_string()).has_tag("p"));
    assert_eq!(node.tag(), Some("p"));
    assert_eq!(node.as_text(), None);
    let _ = (Floated::Left, Overflow::Auto);
}
