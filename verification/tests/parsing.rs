use browser::css::{
    parse, rank_selectors, try_parse, Parser, Selector, SimpleSelector, Unit, Value,
};
use browser::dom::{AttributeMap, DocumentNode, DocumentTree, NodeData};
use browser::geometry::Color;
use browser::html::{parse_document, try_parse_document};

fn tag_of(node: &DocumentNode) -> String {
    match node.tag() {
        Some(tag) => tag.to_string(),
        None => String::from("#text"),
    }
}

#[test]
fn document_with_doctype_attributes_and_text() {
    let source = "<!DOCTYPE html>\n<html>\n  <body id='main' class=\"wide\">\n    <p>Hi <b>there</b></p>\n  </body>\n</html>\n";
    let tree = try_parse_document(source.to_string()).expect("well formed");
    let html = &tree.document_root;
    assert_eq!(tag_of(html), "html");
    assert_eq!(html.index, 0);
    assert_eq!(html.children.len(), 1);
    let body = &html.children[0];
    assert_eq!(tag_of(body), "body");
    assert_eq!(body.index, 1);
    match &body.data {
        NodeData::Element { attributes, .. } => {
            assert_eq!(attributes.len(), 2);
            assert_eq!(attributes.get(&"id".to_string()), Some(&"main".to_string()));
            assert_eq!(attributes.get(&"class".to_string()), Some(&"wide".to_string()));
            assert_eq!(attributes.get(&"style".to_string()), None);
        }
        NodeData::Text(_) => panic!("body is an element"),
    }
    let p = &body.children[0];
    assert_eq!(tag_of(p), "p");
    assert_eq!(p.index, 2);
    assert_eq!(p.children.len(), 2);
    assert_eq!(p.children[0].as_text(), Some("Hi "));
    assert_eq!(p.children[0].index, 3);
    let b = &p.children[1];
    assert_eq!(tag_of(b), "b");
    assert_eq!(b.index, 4);
    assert_eq!(b.children[0].as_text(), Some("there"));
    assert_eq!(b.children[0].index, 5);
}

#[test]
fn several_top_nodes_get_a_root() {
    let tree = try_parse_document("<p></p><br/>".to_string()).expect("well formed");
    let root = &tree.document_root;
    assert_eq!(tag_of(root), "html");
    assert_eq!(root.index, 0);
    assert_eq!(root.children.len(), 2);
    assert_eq!(tag_of(&root.children[0]), "p");
    assert_eq!(root.children[0].index, 1);
    assert_eq!(tag_of(&root.children[1]), "br");
    assert_eq!(root.children[1].index, 2);
    assert!(root.children[1].children.is_empty());
}

#[test]
fn a_single_run_of_text_is_the_root() {
    let tree = try_parse_document("  hello world".to_string()).expect("well formed");
    assert_eq!(tree.document_root.as_text(), Some("hello world"));
    assert_eq!(tree.document_root.index, 0);
}

#[test]
fn what_follows_a_stray_closing_tag_is_not_read() {
    let tree = try_parse_document("<p>a</p></div>junk<".to_string()).expect("well formed");
    assert_eq!(tag_of(&tree.document_root), "p");
    assert_eq!(tree.document_root.children.len(), 1);
}

#[test]
fn a_later_attribute_replaces_an_earlier_one() {
    let tree = try_parse_document("<a x='1' y='2' x='3' />".to_string()).expect("well formed");
    match &tree.document_root.data {
        NodeData::Element { attributes, .. } => {
            assert_eq!(attributes.len(), 2);
            assert_eq!(attributes.get(&"x".to_string()), Some(&"3".to_string()));
            assert_eq!(attributes.get(&"y".to_string()), Some(&"2".to_string()));
        }
        NodeData::Text(_) => panic!("an element"),
    }
}

#[test]
fn malformed_documents_are_refused() {
    assert!(try_parse_document("<div>".to_string()).is_none());
    assert!(try_parse_document("<div></span>".to_string()).is_none());
    assert!(try_parse_document("<div".to_string()).is_none());
    assert!(try_parse_document("<a href=x></a>".to_string()).is_none());
    assert!(try_parse_document("<a href='x></a>".to_string()).is_none());
    assert!(try_parse_document("<a /x>".to_string()).is_none());
    assert!(try_parse_document("<a></a".to_string()).is_none());
    assert!(try_parse_document("".to_string()).is_some());
}

#[test]
fn unicode_white_space_separates_nodes() {
    let tree = try_parse_document("\u{2003}<p>\u{00e9}t\u{00e9}</p>\u{3000}".to_string()).expect("well formed");
    assert_eq!(tag_of(&tree.document_root), "p");
    assert_eq!(tree.document_root.children[0].as_text(), Some("\u{00e9}t\u{00e9}"));
}

#[test]
fn numbering_goes_through_the_tree_in_document_order() {
    let leaf = |t: &str| DocumentNode::new_elem(t.to_string(), AttributeMap::new(), vec![]);
    let a = DocumentNode::new_elem("a".to_string(), AttributeMap::new(), vec![leaf("b"), leaf("c")]);
    let d = DocumentNode::new_elem("d".to_string(), AttributeMap::new(), vec![leaf("e")]);
    let tree = DocumentTree::new(vec![a, d]);
    let root = &tree.document_root;
    assert_eq!(root.index, 0);
    assert_eq!(root.children[0].index, 1);
    assert_eq!(root.children[0].children[0].index, 2);
    assert_eq!(root.children[0].children[1].index, 3);
    assert_eq!(root.children[1].index, 4);
    assert_eq!(root.children[1].children[0].index, 5);
    let mut alone = leaf("x");
    assert_eq!(alone.number_preorder(usize::MAX), usize::MAX);
    assert_eq!(alone.index, usize::MAX);
    assert_eq!(alone.number_preorder(7), 8);
}

fn simple(selector: &Selector) -> &SimpleSelector {
    match selector {
        Selector::Simple(simple) => simple,
    }
}

#[test]
fn style_sheet_with_comments_and_ranked_selectors() {
    let source = "/* first */ h1, div.note#main , .a.b { margin: auto; width: 12.5px; color: #ff00AA; height: 50% }\n/* a */ /* b */\np{display:block;}  ";
    let sheet = try_parse(source.to_string()).expect("well formed");
    assert_eq!(sheet.rules.len(), 2);
    let rule = &sheet.rules[0];
    assert_eq!(rule.selectors.len(), 3);
    assert_eq!(rule.selectors[0].specificity(), (1, 1, 1));
    assert_eq!(simple(&rule.selectors[0]).tag, Some("div".to_string()));
    assert_eq!(simple(&rule.selectors[0]).id, Some("main".to_string()));
    assert_eq!(simple(&rule.selectors[0]).class, vec!["note".to_string()]);
    assert_eq!(rule.selectors[1].specificity(), (0, 2, 0));
    assert_eq!(simple(&rule.selectors[1]).class, vec!["a".to_string(), "b".to_string()]);
    assert_eq!(rule.selectors[2].specificity(), (0, 0, 1));
    assert_eq!(simple(&rule.selectors[2]).tag, Some("h1".to_string()));
    assert_eq!(rule.declarations.len(), 4);
    assert_eq!(rule.declarations[0].name, "margin");
    assert!(matches!(&rule.declarations[0].value, Value::Keyword(k) if k == "auto"));
    assert_eq!(rule.declarations[1].name, "width");
    assert!(matches!(&rule.declarations[1].value, Value::Length(n, Unit::Px) if n == "12.5"));
    assert_eq!(rule.declarations[2].name, "color");
    assert!(matches!(
        &rule.declarations[2].value,
        Value::ColorValue(Color { r: 255, g: 0, b: 170, a: 255 })
    ));
    assert_eq!(rule.declarations[3].name, "height");
    assert!(matches!(&rule.declarations[3].value, Value::Percent(n) if n == "50"));
    let second = &sheet.rules[1];
    assert_eq!(simple(&second.selectors[0]).tag, Some("p".to_string()));
    assert_eq!(second.declarations.len(), 1);
    assert!(matches!(&second.declarations[0].value, Value::Keyword(k) if k == "block"));
}

#[test]
fn units_are_read_in_either_case() {
    let sheet = try_parse("a{a:1cm;b:2MM;c:3Q;d:4In;e:5pc;f:-6pt;g:.7PX}".to_string()).expect("well formed");
    let units: Vec<Unit> = sheet.rules[0]
        .declarations
        .iter()
        .map(|d| match &d.value {
            Value::Length(_, unit) => *unit,
            _ => panic!("a length"),
        })
        .collect();
    assert_eq!(
        units,
        vec![Unit::Cm, Unit::Mm, Unit::Q, Unit::In, Unit::Pc, Unit::Pt, Unit::Px]
    );
    assert!(matches!(&sheet.rules[0].declarations[5].value, Value::Length(n, _) if n == "-6"));
    assert!(matches!(&sheet.rules[0].declarations[6].value, Value::Length(n, _) if n == ".7"));
}

#[test]
fn malformed_style_sheets_are_refused() {
    assert!(try_parse("h1 { color: red".to_string()).is_none());
    assert!(try_parse("h1 color".to_string()).is_none());
    assert!(try_parse("/* open".to_string()).is_none());
    assert!(try_parse("a { width: 1em; }".to_string()).is_none());
    assert!(try_parse("a { width: 1 }".to_string()).is_none());
    assert!(try_parse("a { color: #12345 }".to_string()).is_none());
    assert!(try_parse("a { color: #12345g; }".to_string()).is_none());
    assert!(try_parse("a { color red; }".to_string()).is_none());
    assert!(try_parse("a, ".to_string()).is_none());
    assert!(try_parse("a { b: c d }".to_string()).is_none());
    assert!(try_parse("".to_string()).is_some());
    assert!(try_parse("  /* only a comment */ ".to_string()).expect("well formed").rules.is_empty());
}

#[test]
fn hexadecimal_pairs() {
    let mut parser = Parser::new("ff0a+7zz".to_string());
    assert_eq!(parser.try_parse_hex_pair(), Some(255));
    assert_eq!(parser.try_parse_hex_pair(), Some(10));
    assert_eq!(parser.try_parse_hex_pair(), Some(7));
    assert_eq!(parser.pos, 6);
    assert_eq!(parser.try_parse_hex_pair(), None);
    assert_eq!(parser.peek(), &['z', 'z']);
    let mut short = Parser::new("f".to_string());
    assert_eq!(short.try_parse_hex_pair(), None);
}

#[test]
fn the_universal_selector_stands_for_nothing() {
    let mut parser = Parser::new("*.a#b#c x".to_string());
    let selector = parser.parse_simple_selector();
    assert_eq!(selector.tag, None);
    assert_eq!(selector.id, Some("c".to_string()));
    assert_eq!(selector.class, vec!["a".to_string()]);
    assert_eq!(parser.pos, 7);
    assert!(!parser.eof());
    assert_eq!(parser.next_char(), ' ');
}

#[test]
fn equally_specific_selectors_keep_their_order() {
    let tagged = |t: &str| {
        Selector::Simple(SimpleSelector { tag: Some(t.to_string()), id: None, class: vec![] })
    };
    let classed = |c: &str| {
        Selector::Simple(SimpleSelector { tag: None, id: None, class: vec![c.to_string()] })
    };
    let ranked = rank_selectors(vec![tagged("a"), classed("x"), tagged("b"), classed("y"), tagged("c")]);
    let names: Vec<String> = ranked
        .iter()
        .map(|s| match s {
            Selector::Simple(s) => s.tag.clone().unwrap_or_else(|| s.class[0].clone()),
        })
        .collect();
    assert_eq!(names, vec!["x", "y", "a", "b", "c"]);
}

#[test]
fn well_formed_input_needs_no_test() {
    let tree = parse_document("<a x='1'><b/>text</a>".to_string());
    assert_eq!(tag_of(&tree.document_root), "a");
    assert_eq!(tree.document_root.children.len(), 2);
    assert_eq!(tree.document_root.children[1].as_text(), Some("text"));
    assert_eq!(tree.document_root.children[1].index, 2);
    let sheet = parse("a, b.c { d: e; f: 10px }".to_string());
    assert_eq!(sheet.rules.len(), 1);
    assert_eq!(simple(&sheet.rules[0].selectors[0]).tag, Some("b".to_string()));
    assert_eq!(sheet.rules[0].declarations.len(), 2);

    let mut markup = browser::html::Parser::new("<p id=\"q\"><i></i></p> <u/>".to_string());
    let element = markup.parse_element();
    assert_eq!(tag_of(&element), "p");
    assert_eq!(markup.pos, 21);
    let rest = markup.parse_nodes();
    assert_eq!(rest.len(), 1);
    assert_eq!(tag_of(&rest[0]), "u");
    let mut attributes = browser::html::Parser::new(" a='1' b=\"2\">".to_string());
    let map = attributes.parse_attributes();
    assert_eq!(map.len(), 2);
    assert_eq!(attributes.pos, 12);
    let mut quoted = browser::html::Parser::new("'it'".to_string());
    assert_eq!(quoted.parse_quotation(), "it");

    let mut style = Parser::new("/* c */ p { a: #0a0B0c } q{}".to_string());
    style.advance();
    assert_eq!(style.pos, 8);
    let rule = style.parse_rule();
    assert!(matches!(
        &rule.declarations[0].value,
        Value::ColorValue(Color { r: 10, g: 11, b: 12, a: 255 })
    ));
    let rules = style.parse_rules();
    assert_eq!(rules.len(), 1);
    let mut length = Parser::new("12Pt;".to_string());
    assert!(matches!(length.parse_value(), Value::Length(n, Unit::Pt) if n == "12"));
    let mut unit = Parser::new("mm".to_string());
    assert_eq!(unit.parse_unit(), Unit::Mm);
    let mut pair = Parser::new("7f".to_string());
    assert_eq!(pair.parse_hex_pair(), 127);
}
