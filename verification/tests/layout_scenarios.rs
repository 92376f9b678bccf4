use browser::dom::{AttributeMap, DocumentNode};
use browser::floats::FloatCursor;
use browser::geometry::{Edge, Rect};
use browser::layout::flow::block_width;
use browser::layout::margins::collapsed_margin;
use browser::layout::{display_list, layout_tree, LayoutClass, LayoutNode, LayoutTree, Parameters};
use browser::paint::DisplayCommand;
use browser::style::{
    Clear, Dimension, DisplayType, Floated, Overflow, Positioned, Style, StyledNode, StyledTree,
};

fn elem(tag: &str, children: Vec<DocumentNode>) -> DocumentNode {
    DocumentNode::new_elem(tag.to_string(), AttributeMap::new(), children)
}

fn text(content: &str) -> DocumentNode {
    DocumentNode::new_text(content.to_string())
}

fn block() -> Style {
    let mut style = Style::initial();
    style.display = DisplayType::Block;
    style
}

fn sized(width: i64, height: i64) -> Style {
    let mut style = block();
    style.width = Dimension::Length(width);
    style.height = Dimension::Length(height);
    style
}

fn viewport() -> Parameters {
    Parameters { viewport_width: 800, viewport_height: 600, scrollbar_width: 0, font_size: 16 }
}

#[test]
fn collapse_follows_the_sign_rule() {
    assert_eq!(collapsed_margin(10, 20), 20);
    assert_eq!(collapsed_margin(-10, -20), -20);
    assert_eq!(collapsed_margin(10, -20), -10);
    assert_eq!(collapsed_margin(-20, 10), -10);
    assert_eq!(collapsed_margin(0, 0), 0);
    assert_eq!(collapsed_margin(0, -5), -5);
    assert_eq!(collapsed_margin(i64::MAX, i64::MIN), -1);
}

#[test]
fn single_auto_margin_absorbs_nothing_under_auto_width() {
    let mut style = block();
    style.margin.left = Dimension::Auto;
    style.margin.right = Dimension::Length(0);
    let w = block_width(1000, &style);
    assert_eq!(w.content_width, 1000);
    assert_eq!(w.margin_left, 0);
    assert_eq!(w.margin_right, 0);
    assert_eq!(w.underflow, 1000);
}

#[test]
fn two_blocks_stack_vertically() {
    let doc = elem(
        "html",
        vec![elem("body", vec![elem("div", vec![]), elem("div", vec![])])],
    );
    let body = &doc.children[0];
    let styled = StyledTree {
        style_root: StyledNode {
            node: &doc,
            specified: block(),
            children: vec![StyledNode {
                node: body,
                specified: block(),
                children: vec![
                    StyledNode { node: &body.children[0], specified: sized(200, 50), children: vec![] },
                    StyledNode { node: &body.children[1], specified: sized(300, 30), children: vec![] },
                ],
            }],
        },
    };
    assert!(LayoutTree::accepts(&styled));
    let tree = layout_tree(&styled, viewport());
    let root = &tree.layout_root;
    assert_eq!(root.class, LayoutClass::BlockRoot);
    assert_eq!(root.children.len(), 1);
    let body_box = &root.children[0];
    assert_eq!(body_box.class, LayoutClass::Block);
    assert_eq!(body_box.children.len(), 2);
    let first = &body_box.children[0];
    let second = &body_box.children[1];
    assert_eq!(first.class, LayoutClass::Block);
    assert_eq!(second.class, LayoutClass::Block);
    assert_eq!(first.layout.border_box, Rect { x: 0, y: 0, width: 200, height: 50 });
    assert_eq!(second.layout.content_box, Rect { x: 0, y: 50, width: 300, height: 30 });
    assert_eq!(second.layout.content_box.y, first.layout.border_box.y + 50);
    assert_eq!(body_box.layout.content_box, Rect { x: 0, y: 0, width: 800, height: 80 });
    assert_eq!(root.layout.content_box, Rect { x: 0, y: 0, width: 800, height: 80 });
}

#[test]
fn text_beside_a_float_starts_after_it() {
    let doc = elem("html", vec![elem("div", vec![elem("div", vec![]), text("hello")])]);
    let container = &doc.children[0];
    let mut float = sized(100, 50);
    float.float = Floated::Left;
    let styled = StyledTree {
        style_root: StyledNode {
            node: &doc,
            specified: block(),
            children: vec![StyledNode {
                node: container,
                specified: {
                    let mut s = block();
                    s.width = Dimension::Length(400);
                    s
                },
                children: vec![
                    StyledNode { node: &container.children[0], specified: float, children: vec![] },
                    StyledNode {
                        node: &container.children[1],
                        specified: Style::initial(),
                        children: vec![],
                    },
                ],
            }],
        },
    };
    let tree = layout_tree(&styled, viewport());
    let container_box = &tree.layout_root.children[0];
    assert_eq!(container_box.children.len(), 2);
    let float_box = &container_box.children[0];
    assert_eq!(float_box.class, LayoutClass::Floated);
    assert_eq!(float_box.layout.margin_box, Rect { x: 0, y: 0, width: 100, height: 50 });
    let line = &container_box.children[1];
    assert_eq!(line.class, LayoutClass::InlineRoot);
    assert!(line.document_node.is_none());
    assert_eq!(line.children.len(), 1);
    assert_eq!(line.children[0].class, LayoutClass::Text);
    assert_eq!(line.children[0].layout.inline_pos, 100);
    assert_eq!(line.children[0].layout.block_pos, 0);
    let floats = line.layout.float_cursor;
    assert_eq!(floats.inline_space(0, 400, 0), (100, 400));
    assert_eq!(floats.inline_space(0, 400, 49), (100, 400));
    assert_eq!(floats.inline_space(0, 400, 50), (0, 400));
    assert_eq!(floats.left_clearance(), 50);
}

#[test]
fn sticky_positioning_is_not_accepted() {
    let doc = elem("html", vec![elem("div", vec![])]);
    let mut sticky = block();
    sticky.position = Positioned::Sticky;
    let styled = StyledTree {
        style_root: StyledNode {
            node: &doc,
            specified: block(),
            children: vec![StyledNode { node: &doc.children[0], specified: sticky, children: vec![] }],
        },
    };
    assert!(!LayoutTree::accepts(&styled));
    assert!(styled.style_root.children[0].uses_sticky());
    assert!(!styled.style_root.is_supported());
}

#[test]
fn paint_commands_run_from_parent_to_last_child_first() {
    let doc = elem("html", vec![elem("div", vec![]), elem("div", vec![])]);
    let styled = StyledTree {
        style_root: StyledNode {
            node: &doc,
            specified: block(),
            children: vec![
                StyledNode { node: &doc.children[0], specified: sized(10, 10), children: vec![] },
                StyledNode { node: &doc.children[1], specified: sized(20, 20), children: vec![] },
            ],
        },
    };
    let tree = layout_tree(&styled, viewport());
    let list = display_list(&tree);
    assert_eq!(list.commands.len(), 6);
    let rects: Vec<Rect> = list
        .commands
        .iter()
        .filter_map(|c| match c {
            DisplayCommand::SolidBlock(_, r) => Some(*r),
            DisplayCommand::SolidFrame(_, _) => None,
        })
        .collect();
    assert_eq!(
        rects,
        vec![
            Rect { x: 0, y: 0, width: 800, height: 30 },
            Rect { x: 0, y: 10, width: 20, height: 20 },
            Rect { x: 0, y: 0, width: 10, height: 10 },
        ]
    );
}

#[test]
fn float_cursor_places_second_float_beside_first() {
    let empty = FloatCursor::empty();
    let available = Rect { x: 0, y: 0, width: 400, height: 0 };
    assert_eq!(empty.place_left(&available, 100), (0, 0));
    let one = empty.insert_left(&Rect { x: 0, y: 0, width: 100, height: 50 });
    assert_eq!(one.place_left(&available, 100), (100, 0));
    assert_eq!(one.place_left(&available, 350), (0, 50));
    assert_eq!(one.place_right(&available, 100), (300, 0));
    let two = one.insert_right(&Rect { x: 300, y: 0, width: 100, height: 80 });
    assert_eq!(two.inline_space(0, 400, 10), (100, 300));
    assert_eq!(two.place_left(&available, 250), (0, 50));
    assert_eq!(two.place_left(&available, 350), (0, 80));
    assert_eq!(two.right_clearance(), 80);
    let _ = (Clear { left: true, right: false }, Overflow::Visible, Edge::<i64>::zero());
    let _ = LayoutNode::is_anon;
}

fn sized_text(inline_size: i64, block_size: i64) -> LayoutNode<'static> {
    let mut layout = browser::layout::Layout::initial();
    layout.inline_size = inline_size;
    layout.inline_extent = inline_size;
    layout.block_size = block_size;
    LayoutNode {
        document_node: None,
        style: Style::initial(),
        layout,
        class: LayoutClass::Text,
        children: vec![],
    }
}

fn run_context(floats: FloatCursor) -> browser::layout::Context {
    browser::layout::Context {
        containing_box: Rect { x: 0, y: 0, width: 400, height: 0 },
        ns_positioning_box: Rect { x: 0, y: 0, width: 0, height: 0 },
        init_positioning_box: Rect { x: 0, y: 0, width: 0, height: 0 },
        block_pos: 0,
        inline_pos: 0,
        line_pos: 0,
        float_cursor: floats,
    }
}

fn places(run: &LayoutNode) -> Vec<(i64, i64, usize)> {
    run.children
        .iter()
        .map(|c| (c.layout.inline_pos, c.layout.block_pos, c.layout.line_pos))
        .collect()
}

#[test]
fn a_box_that_does_not_fit_starts_the_next_line() {
    let boxes = vec![sized_text(300, 30), sized_text(200, 20)];
    let mut run = LayoutNode::into_inline_root(&Style::initial(), boxes);
    run.layout(&run_context(FloatCursor::empty()));
    assert_eq!(places(&run), vec![(0, 0, 0), (0, 30, 1)]);
    assert_eq!(run.layout.content_box, Rect { x: 0, y: 0, width: 400, height: 50 });
}

#[test]
fn the_first_box_of_a_line_stays_however_wide_it_is() {
    let boxes = vec![sized_text(900, 10), sized_text(900, 12), sized_text(1, 5)];
    let mut run = LayoutNode::into_inline_root(&Style::initial(), boxes);
    run.layout(&run_context(FloatCursor::empty()));
    assert_eq!(places(&run), vec![(0, 0, 0), (0, 10, 1), (0, 22, 2)]);
    assert_eq!(run.layout.content_box.height, 27);
}

#[test]
fn wrapped_lines_start_beside_the_float_and_at_the_edge_below_it() {
    let float_box = Rect { x: 0, y: 0, width: 100, height: 50 };
    let floats = FloatCursor::empty().insert_left(&float_box);
    let boxes = vec![
        sized_text(200, 30),
        sized_text(200, 30),
        sized_text(200, 30),
        sized_text(200, 30),
    ];
    let mut run = LayoutNode::into_inline_root(&Style::initial(), boxes);
    run.layout(&run_context(floats));
    assert_eq!(places(&run), vec![(100, 0, 0), (100, 30, 1), (0, 60, 2), (200, 60, 2)]);
    assert_eq!(run.layout.content_box, Rect { x: 0, y: 0, width: 400, height: 90 });
    assert_eq!(run.layout.float_cursor, floats);
}
