use browser::dom::{AttributeMap, DocumentNode, DocumentTree};
use browser::layout::{layout_tree, LayoutClass, LayoutNode, LayoutTree, Parameters};
use browser::style::{DisplayType, Floated, Overflow, Positioned, Style, StyledNode, StyledTree};

fn elem(tag: &str, children: Vec<DocumentNode>) -> DocumentNode {
    DocumentNode::new_elem(tag.to_string(), AttributeMap::new(), children)
}

fn text(content: &str) -> DocumentNode {
    DocumentNode::new_text(content.to_string())
}

fn display(display: DisplayType) -> Style {
    let mut style = Style::initial();
    style.display = display;
    style
}

fn styled<'a>(node: &'a DocumentNode, style: Style, children: Vec<StyledNode<'a>>) -> StyledNode<'a> {
    StyledNode { node, specified: style, children }
}

fn classes(nodes: &[LayoutNode]) -> Vec<LayoutClass> {
    nodes.iter().map(|n| n.class).collect()
}

fn levels_are_kept(node: &LayoutNode) -> bool {
    let all_block = node.children.iter().all(|c| c.is_block_level());
    let all_inline = node.children.iter().all(|c| c.is_inline_level());
    (!node.is_block_container() || all_block)
        && (!node.is_inline_container() || all_inline)
        && (!node.is_block_container() || all_block || all_inline)
        && node.children.iter().all(levels_are_kept)
}

#[test]
fn classes_follow_the_style() {
    let doc = elem("div", vec![]);
    let word = text("word");
    let html = elem("html", vec![]);
    let class_with = |node: &DocumentNode, change: &dyn Fn(&mut Style)| {
        let mut style = display(DisplayType::Block);
        change(&mut style);
        LayoutClass::of_style_node(&styled(node, style, vec![]))
    };
    assert_eq!(class_with(&doc, &|_| {}), Some(LayoutClass::Block));
    assert_eq!(class_with(&doc, &|s| s.display = DisplayType::Inline), Some(LayoutClass::Inline));
    assert_eq!(
        class_with(&doc, &|s| s.display = DisplayType::InlineBlock),
        Some(LayoutClass::InlineBlock)
    );
    assert_eq!(class_with(&doc, &|s| s.display = DisplayType::NoBox), None);
    assert_eq!(class_with(&doc, &|s| s.float = Floated::Left), Some(LayoutClass::Floated));
    assert_eq!(
        class_with(&doc, &|s| {
            s.float = Floated::Right;
            s.position = Positioned::Relative;
        }),
        Some(LayoutClass::Floated)
    );
    assert_eq!(
        class_with(&doc, &|s| {
            s.float = Floated::Right;
            s.position = Positioned::Absolute;
        }),
        Some(LayoutClass::BlockRoot)
    );
    assert_eq!(class_with(&doc, &|s| s.position = Positioned::Fixed), Some(LayoutClass::BlockRoot));
    assert_eq!(
        class_with(&doc, &|s| {
            s.overflow = Overflow::Hidden;
            s.position = Positioned::Sticky;
        }),
        Some(LayoutClass::BlockRoot)
    );
    assert_eq!(
        class_with(&word, &|s| s.position = Positioned::Sticky),
        Some(LayoutClass::Text)
    );
    assert_eq!(
        class_with(&html, &|s| s.display = DisplayType::NoBox),
        Some(LayoutClass::BlockRoot)
    );
}

#[test]
fn inline_runs_are_wrapped_and_inline_boxes_split() {
    let doc = elem(
        "html",
        vec![
            text("a"),
            elem("div", vec![]),
            elem("span", vec![text("b"), elem("div", vec![]), text("c")]),
            text("d"),
        ],
    );
    let span = &doc.children[2];
    let in_span = vec![
        styled(&span.children[0], Style::initial(), vec![]),
        styled(&span.children[1], display(DisplayType::Block), vec![]),
        styled(&span.children[2], Style::initial(), vec![]),
    ];
    let in_root = vec![
        styled(&doc.children[0], Style::initial(), vec![]),
        styled(&doc.children[1], display(DisplayType::Block), vec![]),
        styled(span, display(DisplayType::Inline), in_span),
        styled(&doc.children[3], Style::initial(), vec![]),
    ];
    let tree = StyledTree { style_root: styled(&doc, display(DisplayType::Block), in_root) };
    let span_boxes = LayoutNode::from_style_node(&tree.style_root.children[2]);
    assert_eq!(
        classes(&span_boxes),
        vec![LayoutClass::Inline, LayoutClass::Block, LayoutClass::Inline]
    );
    assert!(span_boxes[1].is_anon());
    assert!(!span_boxes[0].is_anon());
    assert_eq!(classes(&span_boxes[0].children), vec![LayoutClass::Text]);
    assert_eq!(classes(&span_boxes[1].children), vec![LayoutClass::Block]);
    assert_eq!(classes(&span_boxes[2].children), vec![LayoutClass::Text]);

    let root = LayoutNode::new(&tree.style_root);
    assert_eq!(root.class, LayoutClass::BlockRoot);
    assert_eq!(
        classes(&root.children),
        vec![
            LayoutClass::InlineRoot,
            LayoutClass::Block,
            LayoutClass::InlineRoot,
            LayoutClass::Block,
            LayoutClass::InlineRoot,
        ]
    );
    assert_eq!(classes(&root.children[0].children), vec![LayoutClass::Text]);
    assert_eq!(classes(&root.children[2].children), vec![LayoutClass::Inline]);
    assert_eq!(
        classes(&root.children[4].children),
        vec![LayoutClass::Inline, LayoutClass::Text]
    );
    assert!(root.children[0].is_anon() && root.children[3].is_anon());
    assert!(levels_are_kept(&root));
}

#[test]
fn a_float_among_text_stays_in_the_line() {
    let doc = elem("div", vec![elem("p", vec![]), elem("img", vec![]), text("a"), elem("img", vec![]), text("b")]);
    let mut floated = display(DisplayType::Block);
    floated.float = Floated::Left;
    let tree = styled(
        &doc,
        display(DisplayType::Block),
        vec![
            styled(&doc.children[0], display(DisplayType::Block), vec![]),
            styled(&doc.children[1], floated, vec![]),
            styled(&doc.children[2], Style::initial(), vec![]),
            styled(&doc.children[3], floated, vec![]),
            styled(&doc.children[4], Style::initial(), vec![]),
        ],
    );
    let boxes = LayoutNode::from_style_node(&tree);
    assert_eq!(boxes.len(), 1);
    assert_eq!(
        classes(&boxes[0].children),
        vec![LayoutClass::Block, LayoutClass::Floated, LayoutClass::InlineRoot]
    );
    assert_eq!(
        classes(&boxes[0].children[2].children),
        vec![LayoutClass::Text, LayoutClass::Floated, LayoutClass::Text]
    );
    assert!(levels_are_kept(&boxes[0]));
}

#[test]
fn a_float_with_content_gets_one_block_root_inside() {
    let doc = elem("div", vec![text("a"), elem("p", vec![])]);
    let mut floated = display(DisplayType::Block);
    floated.float = Floated::Right;
    let tree = styled(
        &doc,
        floated,
        vec![
            styled(&doc.children[0], Style::initial(), vec![]),
            styled(&doc.children[1], display(DisplayType::Block), vec![]),
        ],
    );
    let boxes = LayoutNode::from_style_node(&tree);
    assert_eq!(classes(&boxes), vec![LayoutClass::Floated]);
    assert!(boxes[0].is_floated_right());
    assert!(!boxes[0].is_floated_left());
    assert!(boxes[0].is_out_of_flow());
    assert_eq!(classes(&boxes[0].children), vec![LayoutClass::BlockRoot]);
    let inner = &boxes[0].children[0];
    assert!(inner.is_anon());
    assert_eq!(classes(&inner.children), vec![LayoutClass::InlineRoot, LayoutClass::Block]);

    let empty = elem("div", vec![]);
    let bare = styled(&empty, floated, vec![]);
    let boxes = LayoutNode::from_style_node(&bare);
    assert_eq!(classes(&boxes), vec![LayoutClass::Floated]);
    assert!(boxes[0].children.is_empty());
}

#[test]
fn what_is_not_displayed_has_no_box() {
    let doc = elem("div", vec![elem("p", vec![elem("b", vec![])]), elem("p", vec![])]);
    let mut sticky = display(DisplayType::Block);
    sticky.position = Positioned::Sticky;
    let hidden = styled(
        &doc.children[0],
        display(DisplayType::NoBox),
        vec![styled(&doc.children[0].children[0], sticky, vec![])],
    );
    assert!(hidden.is_supported());
    assert!(LayoutNode::from_style_node(&hidden).is_empty());
    let tree = styled(
        &doc,
        display(DisplayType::Block),
        vec![hidden, styled(&doc.children[1], display(DisplayType::Block), vec![])],
    );
    assert!(tree.is_supported());
    let boxes = LayoutNode::from_style_node(&tree);
    assert_eq!(classes(&boxes[0].children), vec![LayoutClass::Block]);
    let gone = StyledTree { style_root: styled(&doc, display(DisplayType::NoBox), vec![]) };
    assert!(!LayoutTree::accepts(&gone));
}

#[test]
fn an_inline_box_without_content_has_one_empty_box() {
    let doc = elem("span", vec![]);
    let node = styled(&doc, display(DisplayType::Inline), vec![]);
    let boxes = LayoutNode::from_style_node(&node);
    assert_eq!(classes(&boxes), vec![LayoutClass::Inline]);
    assert!(boxes[0].children.is_empty());
    assert!(boxes[0].is_inline_container() && boxes[0].is_inline_flow());
    assert!(!boxes[0].is_block_flow() && !boxes[0].is_text_run() && !boxes[0].is_inline_root());
}

#[test]
fn dump_of_two_stacked_blocks() {
    let doc = DocumentTree::new(vec![elem(
        "html",
        vec![elem("body", vec![elem("div", vec![text("x")]), elem("div", vec![])])],
    )]);
    let html = &doc.document_root;
    let body = &html.children[0];
    let sized = |w: i64, h: i64| {
        let mut s = display(DisplayType::Block);
        s.width = browser::style::Dimension::Length(w);
        s.height = browser::style::Dimension::Length(h);
        s
    };
    let word = styled(&body.children[0].children[0], Style::initial(), vec![]);
    let in_body = vec![
        styled(&body.children[0], sized(200, 50), vec![word]),
        styled(&body.children[1], sized(300, 30), vec![]),
    ];
    let in_root = vec![styled(body, display(DisplayType::Block), in_body)];
    let tree = StyledTree { style_root: styled(html, display(DisplayType::Block), in_root) };
    let laid = layout_tree(
        &tree,
        Parameters { viewport_width: 800, viewport_height: 600, scrollbar_width: 12, font_size: 16 },
    );
    assert_eq!(
        laid.dump(),
        "(define-layout (doc-2 :matched true :w 800 :h 600 :fs 16 :scrollw 12) ([VIEW :w 800] \
([BLOCK :x 0 :y 0 :w 800 :h 80 :elt 0] \
([BLOCK :x 0 :y 0 :w 800 :h 80 :elt 1] \
([BLOCK :x 0 :y 0 :w 200 :h 50 :elt 2] ([LINE] ([TEXT :x 0 :y 0 :w 0 :h 0 :text \"x\"]))) \
([BLOCK :x 0 :y 50 :w 300 :h 30 :elt 4])))))"
    );
    assert_eq!(
        laid.layout_root.children[0].children[1].dump(),
        "([BLOCK :x 0 :y 50 :w 300 :h 30 :elt 4])"
    );
}

#[test]
fn dump_of_negative_and_large_numbers() {
    let doc = elem("span", vec![]);
    let block_node = styled(&doc, display(DisplayType::InlineBlock), vec![]);
    let mut boxes = LayoutNode::from_style_node(&block_node);
    let mut node = boxes.pop().unwrap();
    node.layout.border_box = browser::geometry::Rect { x: -5, y: i64::MIN, width: i64::MAX, height: 1000 };
    assert_eq!(
        node.dump(),
        "([INLINE :x -5 :y -9223372036854775808 :w 9223372036854775807 :h 1000 :elt 0])"
    );
    let anon = LayoutNode::anon(LayoutClass::Block, &Style::initial(), vec![node]);
    assert!(anon.dump().starts_with("([ANON] ([INLINE :x -5"));
    let inline_node = styled(&doc, display(DisplayType::Inline), vec![]);
    let inline = LayoutNode::from_style_node(&inline_node);
    assert_eq!(inline[0].dump(), "([INLINE :elt 0])");
}
