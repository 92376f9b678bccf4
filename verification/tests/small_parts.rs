use browser::css::valid_identifier_char;
use browser::dom::{AttributeMap, DocumentNode};
use browser::floats::FloatCursor;
use browser::geometry::{Color, Rect};
use browser::html::Parser;
use browser::layout::flow::Routine;
use browser::layout::routines::{float_fitted, float_origin};
use browser::layout::{Context, Layout, LayoutClass, LayoutNode};
use browser::scan::{chars_of, stands_in, CharClass};
use browser::style::{Dimension, DisplayType, Floated, Positioned, Style, StyledNode};

#[test]
fn initial_and_inherited_styles() {
    let initial = Style::initial();
    assert_eq!(initial.display, DisplayType::Inline);
    assert_eq!(initial.float, Floated::NoSide);
    assert_eq!(initial.position, Positioned::Static);
    assert_eq!(initial.width, Dimension::Auto);
    assert_eq!(initial.margin.top, Dimension::Length(0));
    assert_eq!(initial.background_color, Color::transparent());
    let mut parent = Style::initial();
    parent.color = Color { r: 1, g: 2, b: 3, a: 4 };
    parent.background_color = Color { r: 9, g: 9, b: 9, a: 9 };
    parent.width = Dimension::Length(70);
    parent.float = Floated::Left;
    parent.display = DisplayType::Block;
    let child = Style::inherit(&parent);
    assert_eq!(child.color, parent.color);
    assert_eq!(child.border_color, parent.color);
    assert_eq!(child.background_color, Color::transparent());
    assert_eq!(child.width, Dimension::Auto);
    assert_eq!(child.float, Floated::NoSide);
    assert_eq!(child.display, DisplayType::Inline);
    let anon = LayoutNode::anon(LayoutClass::BlockRoot, &parent, vec![]);
    assert_eq!(anon.style, child);
    assert_eq!(anon.layout, Layout::initial());
    assert_eq!(Layout::default(), Layout::initial());
}

#[test]
fn dimensions_and_schemes() {
    assert!(Dimension::Auto.is_auto());
    assert!(!Dimension::Length(0).is_auto());
    assert_eq!(Dimension::Auto.value(), 0);
    assert_eq!(Dimension::Length(-3).value(), -3);
    assert!(!Positioned::Static.is_positioned());
    assert!(!Positioned::Relative.is_positioned());
    assert!(Positioned::Absolute.is_positioned());
    assert!(Positioned::Fixed.is_positioned());
}

#[test]
fn characters_and_their_classes() {
    assert_eq!(chars_of("a\u{00e9}\u{4e2d}!"), vec!['a', '\u{00e9}', '\u{4e2d}', '!']);
    assert!(chars_of("").is_empty());
    let input = chars_of("<!DOCTYPE html>x");
    assert!(stands_in(&input, 0, Parser::HTML_DOCTYPE));
    assert!(stands_in(&input, 15, "x"));
    assert!(stands_in(&input, 16, ""));
    assert!(!stands_in(&input, 1, Parser::HTML_DOCTYPE));
    assert!(!stands_in(&input, 15, "xy"));
    assert!(valid_identifier_char('a') && valid_identifier_char('Z') && valid_identifier_char('0'));
    assert!(valid_identifier_char('-') && valid_identifier_char('_'));
    assert!(!valid_identifier_char('.') && !valid_identifier_char(' ') && !valid_identifier_char('\u{00e9}'));
    assert!(CharClass::Whitespace.test(' ') && CharClass::Whitespace.test('\n'));
    assert!(CharClass::Whitespace.test('\u{00a0}') && !CharClass::Whitespace.test('a'));
    assert!(CharClass::Name.test('q') && !CharClass::Name.test('-'));
    assert!(CharClass::Number.test('-') && CharClass::Number.test('.') && !CharClass::Number.test('e'));
    assert!(CharClass::Except('<').test('>') && !CharClass::Except('<').test('<'));
}

#[test]
fn the_parser_stops_after_the_nodes() {
    let mut parser = Parser::new("  <!DOCTYPE html> <a></a> <b/> </c> rest".to_string());
    assert_eq!(parser.pos, 0);
    let nodes = parser.try_parse_document().expect("well formed");
    assert_eq!(nodes.len(), 2);
    assert_eq!(nodes[0].tag(), Some("a"));
    assert_eq!(nodes[1].tag(), Some("b"));
    assert_eq!(nodes[0].index, 0);
    assert_eq!(parser.pos, 31);
    let mut lower = Parser::new("<!doctype html><a/>".to_string());
    assert!(lower.try_parse_document().is_none());
}

#[test]
fn a_text_keeps_its_content_box() {
    let doc = DocumentNode::new_text("word".to_string());
    let mut style = Style::initial();
    style.margin.top = Dimension::Length(7);
    style.margin.left = Dimension::Length(5);
    let styled = StyledNode { node: &doc, specified: style, children: vec![] };
    assert_eq!(styled.as_text(), Some("word"));
    let mut boxes = LayoutNode::from_style_node(&styled);
    let mut word = boxes.pop().unwrap();
    word.layout.inline_size = 33;
    word.layout.content_box = Rect { x: 1, y: 2, width: 3, height: 4 };
    word.compute_effective_margin();
    let context = Context {
        containing_box: Rect { x: 7, y: 8, width: 9, height: 10 },
        ns_positioning_box: Rect::zero(),
        init_positioning_box: Rect::zero(),
        block_pos: 5,
        inline_pos: 6,
        line_pos: 2,
        float_cursor: FloatCursor::empty(),
    };
    word.layout(&context);
    assert_eq!(word.layout.inline_size, 33);
    assert_eq!(word.layout.content_box, Rect { x: 1, y: 2, width: 3, height: 4 });
    assert_eq!(word.layout.padding_box, Rect { x: 1, y: 2, width: 3, height: 4 });
    assert_eq!(word.layout.border_box, Rect { x: 1, y: 2, width: 3, height: 4 });
    assert_eq!(word.layout.margin_box, Rect { x: -4, y: -5, width: 8, height: 11 });
    assert_eq!(word.layout.containing_box, context.containing_box);
    assert_eq!((word.layout.block_pos, word.layout.inline_pos, word.layout.line_pos), (5, 6, 2));
    assert_eq!(word.dump(), "([TEXT :x 1 :y 2 :w 3 :h 4 :text \"word\"])");
}

#[test]
fn a_block_computes_its_width_before_it_is_placed() {
    let doc = DocumentNode::new_elem("div".to_string(), AttributeMap::new(), vec![]);
    let mut style = Style::initial();
    style.display = DisplayType::Block;
    style.width = Dimension::Length(100);
    style.margin.left = Dimension::Auto;
    style.margin.right = Dimension::Auto;
    style.height = Dimension::Length(10);
    let styled = StyledNode { node: &doc, specified: style, children: vec![] };
    let mut boxes = LayoutNode::from_style_node(&styled);
    let mut block = boxes.pop().unwrap();
    block.layout.containing_box = Rect { x: 0, y: 0, width: 500, height: 0 };
    block.calculate_block_width();
    assert_eq!(block.layout.underflow, 400);
    assert_eq!(block.layout.content_box.width, 100);
    assert_eq!((block.layout.margin.left, block.layout.margin.right), (200, 200));
    block.layout.block_pos = 30;
    block.layout.inline_pos = 40;
    block.layout_block();
    assert_eq!(block.layout.content_box, Rect { x: 40, y: 30, width: 100, height: 10 });
    assert_eq!(block.layout.block_extent, 40);
    assert_eq!(block.layout.block_size, 10);
    let _ = Routine::Block;
}

#[test]
fn a_float_on_the_right_lies_against_the_end_of_the_band() {
    let mut style = Style::initial();
    style.float = Floated::Right;
    style.width = Dimension::Length(50);
    style.height = Dimension::Length(20);
    style.clear.right = true;
    let mut layout = Layout::initial();
    layout.containing_box = Rect { x: 10, y: 0, width: 300, height: 0 };
    layout.block_pos = 5;
    layout.float_cursor = FloatCursor::empty().insert_right(&Rect { x: 250, y: 0, width: 60, height: 40 });
    let fitted = float_fitted(layout, &style);
    assert_eq!(fitted.block_pos, 40);
    assert_eq!(fitted.content_box.width, 50);
    assert_eq!(float_origin(&fitted, &style, LayoutClass::Floated), (260, 40));
    style.clear.right = false;
    let beside = float_fitted(layout, &style);
    assert_eq!(float_origin(&beside, &style, LayoutClass::Floated), (200, 5));
    style.float = Floated::Left;
    assert_eq!(float_origin(&beside, &style, LayoutClass::Floated), (10, 5));
}
