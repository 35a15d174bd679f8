use blockflow::dom::{Node, NodeType};
use blockflow::html::{class_has, document_root, parse, CharClass, Parser};

fn tag_of(n: &Node) -> &str {
    match &n.node_type {
        NodeType::Element(e) => e.tag_name.as_str(),
        NodeType::Text(_) => panic!("an element was expected"),
    }
}

fn text_of(n: &Node) -> &str {
    match &n.node_type {
        NodeType::Text(t) => t.as_str(),
        NodeType::Element(_) => panic!("text was expected"),
    }
}

#[test]
fn reads_nested_elements() {
    let root =
        parse("<html><body><h1>hello</h1><div><p>world</p></div></body></html>".to_string()).unwrap();
    assert_eq!(tag_of(&root), "html");
    assert_eq!(root.children.len(), 1);
    let body = &root.children[0];
    assert_eq!(tag_of(body), "body");
    assert_eq!(body.children.len(), 2);
    assert_eq!(tag_of(&body.children[0]), "h1");
    assert_eq!(text_of(&body.children[0].children[0]), "hello");
    assert_eq!(tag_of(&body.children[1]), "div");
    assert_eq!(tag_of(&body.children[1].children[0]), "p");
    assert_eq!(text_of(&body.children[1].children[0].children[0]), "world");
}

#[test]
fn reads_attributes_in_either_quotes() {
    let root = parse("<div id=\"a\"  class='b c' id=\"d\">x</div>".to_string()).unwrap();
    match &root.node_type {
        NodeType::Element(e) => {
            assert_eq!(e.tag_name, "div");
            assert_eq!(e.attributes.get("class"), Some(&"b c".to_string()));
            assert_eq!(e.attributes.get("id"), Some(&"d".to_string()));
            assert_eq!(e.attributes.get("href"), None);
            assert!(e.has_class("b"));
            assert!(e.has_class("c"));
            assert!(!e.has_class("b c"));
            assert_eq!(e.id(), Some(&"d".to_string()));
        },
        NodeType::Text(_) => panic!("an element was expected"),
    }
}

#[test]
fn several_roots_are_wrapped() {
    let root = parse("<a></a><b></b>".to_string()).unwrap();
    assert_eq!(tag_of(&root), "html");
    assert_eq!(root.children.len(), 2);
    assert_eq!(tag_of(&root.children[0]), "a");
    assert_eq!(tag_of(&root.children[1]), "b");
    let empty = parse(String::new()).unwrap();
    assert_eq!(tag_of(&empty), "html");
    assert!(empty.children.is_empty());
    let only_space = parse(" \n\t ".to_string()).unwrap();
    assert_eq!(tag_of(&only_space), "html");
    assert!(only_space.children.is_empty());
}

#[test]
fn white_space_before_nodes_is_skipped() {
    let root = parse("  <p>  hi there </p>\n".to_string()).unwrap();
    assert_eq!(tag_of(&root), "p");
    assert_eq!(root.children.len(), 1);
    assert_eq!(text_of(&root.children[0]), "hi there ");
    let plain = parse(" just text".to_string()).unwrap();
    assert_eq!(text_of(&plain), "just text");
}

#[test]
fn malformed_documents_are_refused() {
    assert!(parse("<p>".to_string()).is_none());
    assert!(parse("<p></q>".to_string()).is_none());
    assert!(parse("<p".to_string()).is_none());
    assert!(parse("<p id></p>".to_string()).is_none());
    assert!(parse("<p id=a></p>".to_string()).is_none());
    assert!(parse("<p id=\"a></p>".to_string()).is_none());
    assert!(parse("<p></p".to_string()).is_none());
    assert!(parse("<p><b></p></b>".to_string()).is_none());
}

#[test]
fn reading_stops_at_a_stray_closing_tag() {
    let root = parse("<p></p></q><b></b>".to_string()).unwrap();
    assert_eq!(tag_of(&root), "p");
}

#[test]
fn name_characters() {
    assert!(class_has(CharClass::Name, 'a'));
    assert!(class_has(CharClass::Name, 'y'));
    assert!(!class_has(CharClass::Name, 'z'));
    assert!(class_has(CharClass::Name, 'A'));
    assert!(!class_has(CharClass::Name, 'Z'));
    assert!(class_has(CharClass::Name, '0'));
    assert!(class_has(CharClass::Name, '8'));
    assert!(!class_has(CharClass::Name, '9'));
    assert!(!class_has(CharClass::Name, '-'));
    assert!(class_has(CharClass::Space, ' '));
    assert!(class_has(CharClass::Space, '\n'));
    assert!(class_has(CharClass::Space, '\u{a0}'));
    assert!(!class_has(CharClass::Space, 'x'));
    assert!(class_has(CharClass::Not('<'), 'x'));
    assert!(!class_has(CharClass::Not('<'), '<'));
    // a name stops before `z`
    assert!(parse("<z></z>".to_string()).is_none());
    assert_eq!(tag_of(&parse("<nav></nav>".to_string()).unwrap()), "nav");
}

#[test]
fn reader_steps() {
    let mut p = Parser::new("ab  <c x='1'>".to_string());
    assert!(!p.eof());
    assert_eq!(p.next_char(), 'a');
    assert!(!p.starts_with("ac"));
    assert!(p.starts_with("ab"));
    assert!(p.starts_with(""));
    assert!(!p.starts_with("ab  <c x='1'>!"));
    assert_eq!(p.parse_tag_name(), "ab");
    assert_eq!(p.pos, 2);
    p.consume_whitespace();
    assert_eq!(p.pos, 4);
    assert_eq!(p.consume_char(), Some('<'));
    assert!(!p.expect('x'));
    assert!(p.expect('c'));
    assert_eq!(p.consume_while(CharClass::Space), " ");
    assert_eq!(p.parse_attr(), Some(("x".to_string(), "1".to_string())));
    assert_eq!(p.next_char(), '>');
    assert_eq!(p.consume_char(), Some('>'));
    assert!(p.eof());
    assert_eq!(p.consume_char(), None);
    assert_eq!(p.parse_attr_value(), None);

    let mut p = Parser::new("h\u{e9}llo<".to_string());
    let t = p.parse_text();
    assert_eq!(text_of(&t), "h\u{e9}llo");
    assert_eq!(p.pos, 5);
    assert_eq!(p.len, 6);
    assert!(p.parse_element().is_none());

    let mut p = Parser::new("  a='1' b=\"2\"  >".to_string());
    let attrs = p.parse_attributes().unwrap();
    assert_eq!(attrs.get("a"), Some(&"1".to_string()));
    assert_eq!(attrs.get("b"), Some(&"2".to_string()));
    assert_eq!(p.next_char(), '>');
    let mut p = Parser::new("x</".to_string());
    assert_eq!(p.parse_nodes().unwrap().len(), 1);
    assert_eq!(p.pos, 1);
    let mut p = Parser::new("<i></i>".to_string());
    assert_eq!(tag_of(&p.parse_node().unwrap()), "i");
}

#[test]
fn root_of_one_node_is_that_node() {
    let nodes = vec![blockflow::dom::text("a".to_string())];
    assert_eq!(text_of(&document_root(nodes)), "a");
    let nodes = vec![blockflow::dom::text("a".to_string()), blockflow::dom::text("b".to_string())];
    let root = document_root(nodes);
    assert_eq!(tag_of(&root), "html");
    assert_eq!(root.children.len(), 2);
}
