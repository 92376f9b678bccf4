use browser::dom::{AttributeMap, DocumentNode};
use browser::geometry::{Edge, Rect};
use browser::layout::{layout_tree, LayoutClass, LayoutNode, LayoutTree, Parameters};
use browser::style::{
    Clear, Dimension, DisplayType, Floated, Overflow, Positioned, Style, StyledNode, StyledTree,
};

fn elem(tag: &str, children: Vec<DocumentNode>) -> DocumentNode {
    DocumentNode::new_elem(tag.to_string(), AttributeMap::new(), children)
}

fn block() -> Style {
    let mut style = Style::initial();
    style.display = DisplayType::Block;
    style
}

fn tall(height: i64, margin_top: i64, margin_bottom: i64) -> Style {
    let mut style = block();
    style.height = Dimension::Length(height);
    style.margin.top = Dimension::Length(margin_top);
    style.margin.bottom = Dimension::Length(margin_bottom);
    style
}

fn styled<'a>(node: &'a DocumentNode, style: Style, children: Vec<StyledNode<'a>>) -> StyledNode<'a> {
    StyledNode { node, specified: style, children }
}

fn viewport() -> Parameters {
    Parameters { viewport_width: 800, viewport_height: 600, scrollbar_width: 0, font_size: 16 }
}

fn top_and_bottom(node: &LayoutNode) -> (i64, i64) {
    (node.layout.effective_margin.top, node.layout.effective_margin.bottom)
}

/// A document `html > div > (p, p, ...)` with the given styles.
fn document(inner: usize) -> DocumentNode {
    let mut children = Vec::new();
    for _ in 0..inner {
        children.push(elem("p", vec![]));
    }
    elem("html", vec![elem("div", children)])
}

fn tree<'a>(doc: &'a DocumentNode, parent: Style, inner: Vec<Style>) -> StyledTree<'a> {
    let div = &doc.children[0];
    let mut children = Vec::new();
    for (i, style) in inner.into_iter().enumerate() {
        children.push(styled(&div.children[i], style, vec![]));
    }
    StyledTree { style_root: styled(doc, block(), vec![styled(div, parent, children)]) }
}

#[test]
fn margins_collapse_between_siblings_and_into_the_parent() {
    let doc = document(2);
    let mut parent = block();
    parent.margin.top = Dimension::Length(10);
    let styled_tree = tree(&doc, parent, vec![tall(10, 20, 30), tall(10, 20, 0)]);
    let laid = layout_tree(&styled_tree, viewport());
    let div = &laid.layout_root.children[0];
    let first = &div.children[0];
    let second = &div.children[1];
    assert_eq!(top_and_bottom(div), (20, 0));
    assert_eq!(top_and_bottom(first), (0, 0));
    assert_eq!(top_and_bottom(second), (30, 0));
    assert_eq!(first.layout.margin, Edge { top: 20, right: 0, bottom: 30, left: 0 });
    assert_eq!(div.layout.content_box, Rect { x: 0, y: 20, width: 800, height: 50 });
    assert_eq!(div.layout.margin_box, Rect { x: 0, y: 0, width: 800, height: 70 });
    assert_eq!(first.layout.content_box, Rect { x: 0, y: 20, width: 800, height: 10 });
    assert_eq!(second.layout.content_box, Rect { x: 0, y: 60, width: 800, height: 10 });
    assert_eq!(second.layout.margin_box, Rect { x: 0, y: 30, width: 800, height: 40 });
    assert_eq!(laid.layout_root.layout.content_box.height, 70);
}

#[test]
fn negative_margins_collapse_by_sign() {
    let doc = document(3);
    let styled_tree =
        tree(&doc, block(), vec![tall(10, 0, -10), tall(10, -20, 15), tall(10, -5, -8)]);
    let laid = layout_tree(&styled_tree, viewport());
    let div = &laid.layout_root.children[0];
    assert_eq!(top_and_bottom(&div.children[0]), (0, 0));
    assert_eq!(top_and_bottom(&div.children[1]), (-20, 0));
    assert_eq!(top_and_bottom(&div.children[2]), (10, 0));
    assert_eq!(top_and_bottom(div), (0, -8));
}

#[test]
fn border_and_padding_keep_margins_apart() {
    let doc = document(1);
    let mut parent = tall(0, 5, 7);
    parent.height = Dimension::Auto;
    parent.border.top = 1;
    parent.padding.bottom = 2;
    let styled_tree = tree(&doc, parent, vec![tall(10, 20, 30)]);
    let laid = layout_tree(&styled_tree, viewport());
    let div = &laid.layout_root.children[0];
    assert_eq!(top_and_bottom(div), (5, 7));
    assert_eq!(top_and_bottom(&div.children[0]), (20, 30));
    assert_eq!(div.layout.content_box, Rect { x: 0, y: 6, width: 800, height: 60 });
    assert_eq!(div.layout.border_box, Rect { x: 0, y: 5, width: 800, height: 63 });
    assert_eq!(div.layout.margin_box, Rect { x: 0, y: 0, width: 800, height: 75 });
}

#[test]
fn a_float_or_a_formatting_context_stops_the_collapse() {
    let doc = document(3);
    let mut floated = tall(10, 3, 4);
    floated.float = Floated::Left;
    floated.width = Dimension::Length(50);
    let mut hidden = tall(10, 6, 9);
    hidden.overflow = Overflow::Hidden;
    let styled_tree = tree(&doc, tall(0, 1, 2), vec![floated, tall(10, 20, 30), hidden]);
    let root = {
        let mut tree = LayoutTree::new(&styled_tree, viewport());
        tree.layout_root.compute_effective_margin();
        tree.layout_root
    };
    let div = &root.children[0];
    assert_eq!(div.children[0].class, LayoutClass::Floated);
    assert_eq!(div.children[2].class, LayoutClass::BlockRoot);
    assert_eq!(top_and_bottom(&div.children[0]), (3, 4));
    assert_eq!(top_and_bottom(&div.children[1]), (20, 30));
    assert_eq!(top_and_bottom(&div.children[2]), (6, 0));
    assert_eq!(top_and_bottom(div), (1, 9));
    assert_eq!(div.layout.content_box, Rect::zero());
}

#[test]
fn positioned_boxes_leave_the_flow() {
    let doc = document(3);
    let mut absolute = tall(60, 0, 0);
    absolute.width = Dimension::Length(50);
    absolute.position = Positioned::Absolute;
    absolute.right = Some(30);
    absolute.bottom = Some(40);
    let mut fixed = tall(60, 0, 0);
    fixed.width = Dimension::Length(50);
    fixed.position = Positioned::Fixed;
    fixed.left = Some(10);
    fixed.top = Some(20);
    let mut parent = block();
    parent.position = Positioned::Relative;
    parent.left = Some(5);
    parent.top = Some(7);
    parent.width = Dimension::Length(400);
    parent.height = Dimension::Length(300);
    parent.padding = Edge { top: 1, right: 1, bottom: 1, left: 1 };
    let styled_tree = tree(&doc, parent, vec![absolute, fixed, tall(10, 0, 0)]);
    let laid = layout_tree(&styled_tree, viewport());
    let div = &laid.layout_root.children[0];
    assert_eq!(div.layout.content_box, Rect { x: 6, y: 8, width: 400, height: 300 });
    let placed = &div.children[0];
    assert_eq!(placed.class, LayoutClass::BlockRoot);
    assert_eq!(placed.layout.positioning_box, Rect { x: 5, y: 7, width: 402, height: 302 });
    assert_eq!(placed.layout.content_box, Rect { x: 5 + 402 - 50 - 30, y: 7 + 302 - 60 - 40, width: 50, height: 60 });
    assert_eq!(placed.layout.block_size, 0);
    assert_eq!(placed.layout.block_extent, 0);
    let pinned = &div.children[1];
    assert_eq!(pinned.layout.positioning_box, Rect { x: 0, y: 0, width: 800, height: 600 });
    assert_eq!(pinned.layout.content_box, Rect { x: 10, y: 20, width: 50, height: 60 });
    assert_eq!(div.children[2].layout.content_box, Rect { x: 6, y: 8, width: 400, height: 10 });
    assert_eq!(div.layout.block_extent, 8 + 300 + 1 - 7);
}

#[test]
fn clearing_moves_a_block_below_the_float() {
    let doc = document(3);
    let mut floated = tall(50, 0, 0);
    floated.float = Floated::Left;
    floated.width = Dimension::Length(100);
    let mut clearing = tall(10, 5, 3);
    clearing.clear = Clear { left: true, right: false };
    let mut parent = block();
    parent.width = Dimension::Length(400);
    let styled_tree = tree(&doc, parent, vec![floated, clearing, tall(10, 0, 0)]);
    let laid = layout_tree(&styled_tree, viewport());
    let div = &laid.layout_root.children[0];
    assert_eq!(div.children[0].layout.margin_box, Rect { x: 0, y: 0, width: 100, height: 50 });
    assert_eq!(div.children[1].layout.content_box, Rect { x: 0, y: 50, width: 400, height: 10 });
    assert_eq!(top_and_bottom(&div.children[1]), (5, 0));
    assert_eq!(top_and_bottom(&div.children[2]), (3, 0));
    assert_eq!(div.children[2].layout.content_box.y, 63);
    assert_eq!(div.layout.content_box.height, 73);
}

#[test]
fn a_formatting_context_goes_beside_the_float_where_it_fits() {
    let doc = document(3);
    let mut floated = tall(50, 0, 0);
    floated.float = Floated::Left;
    floated.width = Dimension::Length(100);
    let mut narrow = tall(20, 0, 0);
    narrow.overflow = Overflow::Hidden;
    narrow.width = Dimension::Length(250);
    let mut wide = tall(20, 0, 0);
    wide.overflow = Overflow::Scroll;
    let mut parent = block();
    parent.width = Dimension::Length(400);
    let styled_tree = tree(&doc, parent, vec![floated, narrow, wide]);
    let laid = layout_tree(&styled_tree, viewport());
    let div = &laid.layout_root.children[0];
    assert_eq!(div.children[1].layout.content_box, Rect { x: 100, y: 0, width: 250, height: 20 });
    assert_eq!(div.children[2].layout.content_box, Rect { x: 0, y: 50, width: 400, height: 20 });
}

#[test]
fn floats_on_both_sides_and_the_height_of_their_container() {
    let doc = document(3);
    let mut left = tall(50, 0, 0);
    left.float = Floated::Left;
    left.width = Dimension::Length(100);
    let mut right = tall(70, 0, 0);
    right.float = Floated::Right;
    right.width = Dimension::Length(120);
    right.margin.left = Dimension::Length(8);
    let mut second = left;
    second.width = Dimension::Length(250);
    let mut parent = block();
    parent.width = Dimension::Length(400);
    let styled_tree = tree(&doc, parent, vec![left, right, second]);
    let laid = layout_tree(&styled_tree, viewport());
    let div = &laid.layout_root.children[0];
    assert_eq!(div.children[0].layout.margin_box, Rect { x: 0, y: 0, width: 100, height: 50 });
    assert_eq!(div.children[1].layout.margin_box, Rect { x: 272, y: 0, width: 128, height: 70 });
    assert_eq!(div.children[1].layout.content_box, Rect { x: 280, y: 0, width: 120, height: 70 });
    assert_eq!(div.children[2].layout.margin_box, Rect { x: 0, y: 50, width: 250, height: 50 });
    assert_eq!(div.children[2].layout.inline_size, 250);
    assert_eq!(div.layout.content_box.height, 0);
    assert_eq!(div.layout.block_extent, 100);
    assert_eq!(laid.layout_root.layout.content_box.height, 100);
    let boxes = [&div.children[0], &div.children[1], &div.children[2]];
    for a in 0..3 {
        for b in 0..3 {
            if a != b {
                let (p, q) = (boxes[a].layout.margin_box, boxes[b].layout.margin_box);
                let apart = p.right() <= q.x || q.right() <= p.x || p.bottom() <= q.y || q.bottom() <= p.y;
                assert!(apart);
            }
        }
    }
}

fn box_model_holds(node: &LayoutNode) {
    let l = &node.layout;
    assert_eq!(l.padding_box, l.content_box.extend_by(&l.padding));
    assert_eq!(l.border_box, l.padding_box.extend_by(&l.border));
    assert_eq!(l.margin_box, l.border_box.extend_by(&l.effective_margin));
    for child in &node.children {
        box_model_holds(child);
    }
}

#[test]
fn the_box_model_holds_below_an_anonymous_block() {
    let word = DocumentNode::new_text("word".to_string());
    let doc = elem("html", vec![elem("span", vec![elem("p", vec![word])])]);
    let span = &doc.children[0];
    let p = &span.children[0];
    let mut inline = Style::initial();
    inline.margin.top = Dimension::Length(3);
    let mut text = Style::initial();
    text.margin.left = Dimension::Length(9);
    let in_p = vec![styled(&p.children[0], text, vec![])];
    let in_span = vec![styled(p, tall(10, 20, 0), in_p)];
    let in_root = vec![styled(span, inline, in_span)];
    let styled_tree = StyledTree { style_root: styled(&doc, block(), in_root) };
    let laid = layout_tree(&styled_tree, viewport());
    let root = &laid.layout_root;
    assert_eq!(root.children.len(), 3);
    let anonymous = &root.children[1];
    assert_eq!(anonymous.class, LayoutClass::Block);
    assert!(anonymous.is_anon());
    assert_eq!(top_and_bottom(anonymous), (20, 0));
    assert_eq!(top_and_bottom(&root.children[0]), (3, 0));
    assert_eq!(root.children[0].layout.block_size, 3);
    assert_eq!(anonymous.layout.border_box, Rect { x: 0, y: 23, width: 800, height: 10 });
    assert_eq!(anonymous.layout.margin_box, Rect { x: 0, y: 3, width: 800, height: 30 });
    let paragraph = &anonymous.children[0];
    assert_eq!(paragraph.layout.content_box, Rect { x: 0, y: 23, width: 800, height: 10 });
    let line = &paragraph.children[0];
    assert_eq!(line.class, LayoutClass::InlineRoot);
    assert_eq!(line.children[0].class, LayoutClass::Text);
    assert_eq!(line.children[0].layout.effective_margin.left, 9);
    assert_eq!(line.children[0].layout.margin_box, Rect { x: -9, y: 0, width: 9, height: 0 });
    box_model_holds(root);
}

#[test]
fn the_box_model_holds_of_every_laid_out_box() {
    let doc = document(3);
    let mut padded = tall(10, 4, 6);
    padded.padding = Edge { top: 1, right: 2, bottom: 3, left: 4 };
    padded.border = Edge { top: 5, right: 6, bottom: 7, left: 8 };
    let mut floated = padded;
    floated.float = Floated::Right;
    let mut inline = padded;
    inline.display = DisplayType::InlineBlock;
    let styled_tree = tree(&doc, padded, vec![padded, floated, inline]);
    let laid = layout_tree(&styled_tree, viewport());
    fn check(node: &LayoutNode) {
        let l = &node.layout;
        assert_eq!(l.padding_box, l.content_box.extend_by(&l.padding));
        assert_eq!(l.border_box, l.padding_box.extend_by(&l.border));
        assert_eq!(l.margin_box, l.border_box.extend_by(&l.effective_margin));
        for child in &node.children {
            check(child);
        }
    }
    check(&laid.layout_root);
    let div = &laid.layout_root.children[0];
    assert_eq!(div.layout.content_box.x, 12);
    assert_eq!(div.children[0].layout.border_box, Rect { x: 12, y: 14, width: 780, height: 26 });
}
