use blockflow::boxtree::build_layout_tree;
use blockflow::canvas::{paint, Canvas};
use blockflow::css::{Color, Unit, Value};
use blockflow::dom::{elem, Node};
use blockflow::geometry::{Dimensions, Rect, MAX_PX};
use blockflow::layout::{BoxType, LayoutBox};
use blockflow::painting::{build_display_list, get_color, tree_in_range, DisplayCommand};
use blockflow::style::StyledNode;
use blockflow::table::Table;

const RED: Color = Color { r: 255, g: 0, b: 0, a: 255 };
const BLUE: Color = Color { r: 0, g: 0, b: 255, a: 255 };
const WHITE: Color = Color { r: 255, g: 255, b: 255, a: 255 };

fn px(n: i64) -> Value {
    Value::Length(n, Unit::Px)
}

fn plain_node() -> Node {
    elem("div".to_string(), Table::new(), vec![])
}

fn styled<'a>(
    node: &'a Node,
    props: Vec<(&str, Value)>,
    children: Vec<StyledNode<'a>>,
) -> StyledNode<'a> {
    let mut map = Table::new();
    map.insert("display".to_string(), Value::Keyword("block".to_string()));
    for (k, v) in props {
        map.insert(k.to_string(), v);
    }
    StyledNode { node, specified_values: map, children }
}

fn viewport(width: i64) -> Dimensions {
    let mut d = Dimensions::default();
    d.content.width = width;
    d
}

#[test]
fn background_then_borders_then_children() {
    let node = plain_node();
    let kid = styled(
        &node,
        vec![("height", px(2)), ("background", Value::ColorValue(BLUE))],
        vec![],
    );
    let root = styled(
        &node,
        vec![
            ("background", Value::ColorValue(RED)),
            ("border-color", Value::ColorValue(BLUE)),
            ("border-width", px(1)),
            ("padding", px(2)),
        ],
        vec![kid],
    );
    let mut tree = build_layout_tree(&root);
    tree.layout(viewport(20)).unwrap();
    assert!(tree_in_range(&tree));
    let list = build_display_list(&tree);
    assert_eq!(
        list,
        vec![
            DisplayCommand::SolidColor(RED, Rect { x: 0, y: 0, width: 20, height: 8 }),
            DisplayCommand::SolidColor(BLUE, Rect { x: 0, y: 0, width: 1, height: 8 }),
            DisplayCommand::SolidColor(BLUE, Rect { x: 19, y: 0, width: 1, height: 8 }),
            DisplayCommand::SolidColor(BLUE, Rect { x: 0, y: 0, width: 20, height: 1 }),
            DisplayCommand::SolidColor(BLUE, Rect { x: 0, y: 7, width: 20, height: 1 }),
            DisplayCommand::SolidColor(BLUE, Rect { x: 3, y: 3, width: 14, height: 2 }),
        ]
    );
}

#[test]
fn boxes_without_colour_draw_nothing() {
    let node = plain_node();
    let root = styled(&node, vec![("background", Value::Keyword("red".to_string()))], vec![]);
    let mut tree = build_layout_tree(&root);
    tree.layout(viewport(20)).unwrap();
    assert!(build_display_list(&tree).is_empty());
    assert_eq!(get_color(&tree, "background"), None);
    let anonymous = LayoutBox::new(BoxType::AnonymousBlock);
    assert_eq!(get_color(&anonymous, "background"), None);
    assert!(build_display_list(&anonymous).is_empty());
    let coloured = styled(&node, vec![("background", Value::ColorValue(RED))], vec![]);
    let b = LayoutBox::new(BoxType::InlineNode(&coloured));
    assert_eq!(get_color(&b, "background"), Some(RED));
    assert_eq!(get_color(&b, "border-color"), None);
}

#[test]
fn tree_range_check() {
    let mut b = LayoutBox::new(BoxType::AnonymousBlock);
    assert!(tree_in_range(&b));
    let mut inner = LayoutBox::new(BoxType::AnonymousBlock);
    inner.dimensions.margin.top = MAX_PX + 1;
    b.children.push(inner);
    assert!(!tree_in_range(&b));
    b.children[0].dimensions.margin.top = -MAX_PX;
    assert!(tree_in_range(&b));
}

#[test]
fn new_canvas_is_white() {
    let c = Canvas::new(3, 2);
    assert_eq!(c.width, 3);
    assert_eq!(c.height, 2);
    assert_eq!(c.pixels, vec![WHITE; 6]);
    assert!(Canvas::new(0, 5).pixels.is_empty());
}

#[test]
fn rectangles_are_clipped_to_the_canvas() {
    let mut c = Canvas::new(4, 3);
    c.paint_item(&DisplayCommand::SolidColor(RED, Rect { x: -1, y: 1, width: 3, height: 5 }));
    let w = WHITE;
    let r = RED;
    assert_eq!(c.pixels, vec![w, w, w, w, r, r, w, w, r, r, w, w]);
    c.paint_item(&DisplayCommand::SolidColor(BLUE, Rect { x: 1, y: 0, width: 1, height: 2 }));
    let b = BLUE;
    assert_eq!(c.pixels, vec![w, b, w, w, r, b, w, w, r, r, w, w]);
    c.paint_item(&DisplayCommand::SolidColor(BLUE, Rect { x: 9, y: 9, width: 5, height: 5 }));
    c.paint_item(&DisplayCommand::SolidColor(BLUE, Rect { x: 2, y: 2, width: -2, height: 1 }));
    c.paint_item(&DisplayCommand::SolidColor(BLUE, Rect { x: 0, y: 0, width: 0, height: 3 }));
    assert_eq!(c.pixels, vec![w, b, w, w, r, b, w, w, r, r, w, w]);
}

#[test]
fn later_boxes_cover_earlier_ones() {
    let node = plain_node();
    let kid = styled(
        &node,
        vec![("height", px(1)), ("width", px(2)), ("background", Value::ColorValue(BLUE))],
        vec![],
    );
    let root = styled(&node, vec![("background", Value::ColorValue(RED)), ("padding-top", px(1))], vec![kid]);
    let mut tree = build_layout_tree(&root);
    tree.layout(viewport(3)).unwrap();
    let canvas = paint(&tree, Rect { x: 0, y: 0, width: 3, height: 3 });
    let (w, r, b) = (WHITE, RED, BLUE);
    assert_eq!(canvas.pixels, vec![r, r, r, b, b, r, w, w, w]);
    let none = paint(&tree, Rect { x: 0, y: 0, width: -3, height: 3 });
    assert_eq!(none.width, 0);
    assert!(none.pixels.is_empty());
}
