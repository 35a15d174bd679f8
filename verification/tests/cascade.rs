use blockflow::css::{Color, Declaration, Rule, Selector, SimpleSelector, Stylesheet, Unit, Value};
use blockflow::dom::{elem, holds_field, text, AttrMap, Node, NodeType};
use blockflow::style::{specified_values, style_tree, Display, StyledNode};
use blockflow::table::Table;

fn kw(s: &str) -> Value {
    Value::Keyword(s.to_string())
}

fn tag(name: &str) -> Selector {
    Selector::Simple(SimpleSelector { tag_name: Some(name.to_string()), id: None, class: vec![] })
}

fn class(name: &str) -> Selector {
    Selector::Simple(SimpleSelector { tag_name: None, id: None, class: vec![name.to_string()] })
}

fn id(name: &str) -> Selector {
    Selector::Simple(SimpleSelector { tag_name: None, id: Some(name.to_string()), class: vec![] })
}

fn rule(selectors: Vec<Selector>, decls: Vec<(&str, Value)>) -> Rule {
    Rule {
        selectors,
        declarations: decls
            .into_iter()
            .map(|(n, v)| Declaration { name: n.to_string(), value: v })
            .collect(),
    }
}

fn element(name: &str, attrs: Vec<(&str, &str)>, children: Vec<Node>) -> Node {
    let mut map: AttrMap = Table::new();
    for (k, v) in attrs {
        map.insert(k.to_string(), v.to_string());
    }
    elem(name.to_string(), map, children)
}

fn styled_with<'a>(node: &'a Node, props: Vec<(&str, Value)>) -> StyledNode<'a> {
    let mut map = Table::new();
    for (k, v) in props {
        map.insert(k.to_string(), v);
    }
    StyledNode { node, specified_values: map, children: vec![] }
}

#[test]
fn higher_specificity_wins_whatever_the_order() {
    let node = element("div", vec![("class", "c")], vec![]);
    let sheet = Stylesheet {
        rules: vec![
            rule(vec![class("c")], vec![("color", kw("blue"))]),
            rule(vec![tag("div")], vec![("color", kw("red"))]),
        ],
    };
    let styled = style_tree(&node, &sheet);
    assert_eq!(styled.value("color"), Some(kw("blue")));

    let swapped = Stylesheet {
        rules: vec![
            rule(vec![tag("div")], vec![("color", kw("red"))]),
            rule(vec![class("c")], vec![("color", kw("blue"))]),
        ],
    };
    let styled = style_tree(&node, &swapped);
    assert_eq!(styled.value("color"), Some(kw("blue")));
}

#[test]
fn id_outranks_many_classes() {
    let node = element("p", vec![("class", "a b c"), ("id", "x")], vec![]);
    let many = Selector::Simple(SimpleSelector {
        tag_name: Some("p".to_string()),
        id: None,
        class: vec!["a".to_string(), "b".to_string(), "c".to_string()],
    });
    assert_eq!(many.specificity(), (0, 3, 1));
    assert_eq!(id("x").specificity(), (1, 0, 0));
    let sheet = Stylesheet {
        rules: vec![
            rule(vec![id("x")], vec![("width", Value::Length(10, Unit::Px))]),
            rule(vec![many], vec![("width", Value::Length(20, Unit::Px))]),
        ],
    };
    let styled = style_tree(&node, &sheet);
    assert_eq!(styled.value("width"), Some(Value::Length(10, Unit::Px)));
}

#[test]
fn later_rule_wins_among_equals() {
    let node = element("p", vec![], vec![]);
    let sheet = Stylesheet {
        rules: vec![
            rule(vec![tag("p")], vec![("color", kw("red"))]),
            rule(vec![tag("p")], vec![("color", kw("green"))]),
        ],
    };
    let styled = style_tree(&node, &sheet);
    assert_eq!(styled.value("color"), Some(kw("green")));
}

#[test]
fn later_declaration_wins_within_a_rule() {
    let node = element("p", vec![], vec![]);
    let sheet = Stylesheet {
        rules: vec![rule(vec![tag("p")], vec![("color", kw("red")), ("color", kw("green"))])],
    };
    let styled = style_tree(&node, &sheet);
    assert_eq!(styled.value("color"), Some(kw("green")));
}

#[test]
fn unmatched_property_is_absent() {
    let node = element("p", vec![], vec![]);
    let sheet = Stylesheet {
        rules: vec![
            rule(vec![tag("div")], vec![("color", kw("red"))]),
            rule(vec![tag("p")], vec![("margin", Value::Length(1, Unit::Px))]),
        ],
    };
    let styled = style_tree(&node, &sheet);
    assert_eq!(styled.value("color"), None);
    assert_eq!(styled.value("margin"), Some(Value::Length(1, Unit::Px)));
    assert!(styled.specified_values.get("color").is_none());
}

#[test]
fn most_specific_matching_selector_gives_the_rank() {
    // The rule applies through `.c`, its most specific matching selector,
    // wherever that stands in the rule, and so outranks the plain tag rule.
    let node = element("div", vec![("class", "c")], vec![]);
    let sheet = Stylesheet {
        rules: vec![
            rule(vec![id("nope"), tag("div"), class("c")], vec![("color", kw("blue"))]),
            rule(vec![tag("div")], vec![("color", kw("red"))]),
        ],
    };
    let elem_data = match &node.node_type {
        NodeType::Element(e) => e,
        NodeType::Text(_) => panic!("an element was built"),
    };
    let values = specified_values(elem_data, &sheet);
    assert_eq!(values.get("color"), Some(&kw("blue")));
}

#[test]
fn text_nodes_have_no_properties_and_nothing_is_inherited() {
    let node = element("p", vec![], vec![text("hi".to_string()), element("b", vec![], vec![])]);
    let sheet = Stylesheet { rules: vec![rule(vec![tag("p")], vec![("color", kw("red"))])] };
    let styled = style_tree(&node, &sheet);
    assert_eq!(styled.children.len(), 2);
    assert_eq!(styled.value("color"), Some(kw("red")));
    assert_eq!(styled.children[0].value("color"), None);
    assert_eq!(styled.children[1].value("color"), None);
    assert!(matches!(styled.children[0].node.node_type, NodeType::Text(_)));
}

#[test]
fn selector_parts_must_all_match() {
    let node = element("div", vec![("class", "note big"), ("id", "main")], vec![]);
    let full = Selector::Simple(SimpleSelector {
        tag_name: Some("div".to_string()),
        id: Some("main".to_string()),
        class: vec!["big".to_string(), "note".to_string()],
    });
    let wrong_id = Selector::Simple(SimpleSelector {
        tag_name: Some("div".to_string()),
        id: Some("other".to_string()),
        class: vec![],
    });
    let wrong_class = Selector::Simple(SimpleSelector {
        tag_name: None,
        id: None,
        class: vec!["note".to_string(), "small".to_string()],
    });
    let universal = Selector::Simple(SimpleSelector { tag_name: None, id: None, class: vec![] });
    let sheet = Stylesheet {
        rules: vec![
            rule(vec![full], vec![("a", kw("1"))]),
            rule(vec![wrong_id], vec![("b", kw("1"))]),
            rule(vec![wrong_class], vec![("c", kw("1"))]),
            rule(vec![universal], vec![("d", kw("1"))]),
            rule(vec![tag("span")], vec![("e", kw("1"))]),
        ],
    };
    let styled = style_tree(&node, &sheet);
    assert_eq!(styled.value("a"), Some(kw("1")));
    assert_eq!(styled.value("b"), None);
    assert_eq!(styled.value("c"), None);
    assert_eq!(styled.value("d"), Some(kw("1")));
    assert_eq!(styled.value("e"), None);
}

#[test]
fn class_fields_are_cut_at_single_spaces() {
    assert!(holds_field("a b", "a"));
    assert!(holds_field("a b", "b"));
    assert!(!holds_field("ab", "a"));
    assert!(!holds_field("a b", "a b"));
    assert!(!holds_field("a b", ""));
    assert!(holds_field("a  b", ""));
    assert!(holds_field("", ""));
    assert!(!holds_field("", "a"));
    assert!(holds_field("note", "note"));
    assert!(!holds_field("notes", "note"));
    assert!(!holds_field("a", "ab"));
}

#[test]
fn element_without_class_attribute_has_no_class() {
    let node = element("div", vec![], vec![]);
    match &node.node_type {
        NodeType::Element(e) => {
            assert!(!e.has_class(""));
            assert!(!e.has_class("a"));
            assert!(e.id().is_none());
        },
        NodeType::Text(_) => panic!("an element was built"),
    }
    let node = element("div", vec![("id", "x"), ("class", "a")], vec![]);
    match &node.node_type {
        NodeType::Element(e) => {
            assert!(e.has_class("a"));
            assert_eq!(e.id(), Some(&"x".to_string()));
        },
        NodeType::Text(_) => panic!("an element was built"),
    }
}

#[test]
fn display_is_inline_unless_block_or_none() {
    let node = element("p", vec![], vec![]);
    assert_eq!(styled_with(&node, vec![]).display(), Display::Inline);
    assert_eq!(styled_with(&node, vec![("display", kw("block"))]).display(), Display::Block);
    assert_eq!(styled_with(&node, vec![("display", kw("none"))]).display(), Display::Hidden);
    assert_eq!(styled_with(&node, vec![("display", kw("inline"))]).display(), Display::Inline);
    assert_eq!(styled_with(&node, vec![("display", kw("Block"))]).display(), Display::Inline);
    assert_eq!(styled_with(&node, vec![("display", kw("flex"))]).display(), Display::Inline);
    assert_eq!(
        styled_with(&node, vec![("display", Value::Length(1, Unit::Px))]).display(),
        Display::Inline
    );
    assert_eq!(
        styled_with(&node, vec![("display", Value::ColorValue(Color { r: 0, g: 0, b: 0, a: 255 }))])
            .display(),
        Display::Inline
    );
}

#[test]
fn lookup_falls_back_then_defaults() {
    let node = element("p", vec![], vec![]);
    let zero = Value::Length(0, Unit::Px);
    let s = styled_with(
        &node,
        vec![("margin", Value::Length(5, Unit::Px)), ("margin-left", Value::Length(7, Unit::Px))],
    );
    assert_eq!(s.lookup("margin-left", "margin", &zero), Value::Length(7, Unit::Px));
    assert_eq!(s.lookup("margin-right", "margin", &zero), Value::Length(5, Unit::Px));
    assert_eq!(s.lookup("padding-left", "padding", &zero), Value::Length(0, Unit::Px));
}

#[test]
fn table_keeps_the_last_value_of_a_key() {
    let mut t: Table<u32> = Table::new();
    assert_eq!(t.get("a"), None);
    t.insert("a".to_string(), 1);
    t.insert("b".to_string(), 2);
    t.insert("a".to_string(), 3);
    assert_eq!(t.get("a"), Some(&3));
    assert_eq!(t.get("b"), Some(&2));
    assert_eq!(t.get("c"), None);
}

#[test]
fn value_helpers() {
    assert_eq!(Value::Length(12, Unit::Px).to_px(), 12);
    assert_eq!(kw("auto").to_px(), 0);
    assert!(kw("auto").auto());
    assert!(!kw("none").auto());
    assert!(!Value::Length(0, Unit::Px).auto());
    assert_eq!(kw("x").duplicate(), kw("x"));
}
