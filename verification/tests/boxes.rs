use blockflow::boxtree::build_layout_tree;
use blockflow::css::{Color, Unit, Value};
use blockflow::dom::{elem, Node};
use blockflow::geometry::{Dimensions, EdgeSizes, Rect, MAX_PX};
use blockflow::layout::{solve_widths, BoxType, LayoutBox, LayoutError};
use blockflow::style::StyledNode;
use blockflow::table::Table;

fn px(n: i64) -> Value {
    Value::Length(n, Unit::Px)
}

fn auto() -> Value {
    Value::Keyword("auto".to_string())
}

fn block() -> (&'static str, Value) {
    ("display", Value::Keyword("block".to_string()))
}

fn plain_node() -> Node {
    elem("div".to_string(), Table::new(), vec![])
}

fn styled<'a>(
    node: &'a Node,
    props: Vec<(&str, Value)>,
    children: Vec<StyledNode<'a>>,
) -> StyledNode<'a> {
    let mut map = Table::new();
    for (k, v) in props {
        map.insert(k.to_string(), v);
    }
    StyledNode { node, specified_values: map, children }
}

fn viewport(width: i64) -> Dimensions {
    let mut d = Dimensions::default();
    d.content.width = width;
    d
}

fn laid_out(props: Vec<(&str, Value)>, container: Dimensions) -> Result<Dimensions, LayoutError> {
    let node = plain_node();
    let mut all = vec![block()];
    all.extend(props);
    let s = styled(&node, all, vec![]);
    let mut b = build_layout_tree(&s);
    b.layout(container)?;
    Ok(b.dimensions)
}

#[test]
fn anonymous_block_wraps_adjacent_inline_children() {
    let node = plain_node();
    let kids = vec![
        styled(&node, vec![block()], vec![]),
        styled(&node, vec![], vec![]),
        styled(&node, vec![("display", Value::Keyword("inline".to_string()))], vec![]),
        styled(&node, vec![block()], vec![]),
    ];
    let root = styled(&node, vec![block()], kids);
    let tree = build_layout_tree(&root);
    assert!(matches!(tree.box_type, BoxType::BlockNode(_)));
    assert_eq!(tree.children.len(), 3);
    assert!(matches!(tree.children[0].box_type, BoxType::BlockNode(_)));
    assert!(matches!(tree.children[1].box_type, BoxType::AnonymousBlock));
    assert!(matches!(tree.children[2].box_type, BoxType::BlockNode(_)));
    assert_eq!(tree.children[1].children.len(), 2);
    assert!(matches!(tree.children[1].children[0].box_type, BoxType::InlineNode(_)));
    assert!(matches!(tree.children[1].children[1].box_type, BoxType::InlineNode(_)));
    let blocks = tree.children.iter().filter(|c| matches!(c.box_type, BoxType::BlockNode(_))).count();
    let anonymous =
        tree.children.iter().filter(|c| matches!(c.box_type, BoxType::AnonymousBlock)).count();
    assert_eq!(blocks, 2);
    assert_eq!(anonymous, 1);
    assert_eq!(tree.dimensions, Dimensions::default());
    assert_eq!(tree.children[1].dimensions, Dimensions::default());
}

#[test]
fn separated_inline_runs_get_separate_anonymous_blocks() {
    let node = plain_node();
    let kids = vec![
        styled(&node, vec![], vec![]),
        styled(&node, vec![block()], vec![]),
        styled(&node, vec![], vec![]),
    ];
    let root = styled(&node, vec![block()], kids);
    let tree = build_layout_tree(&root);
    assert_eq!(tree.children.len(), 3);
    assert!(matches!(tree.children[0].box_type, BoxType::AnonymousBlock));
    assert!(matches!(tree.children[1].box_type, BoxType::BlockNode(_)));
    assert!(matches!(tree.children[2].box_type, BoxType::AnonymousBlock));
    assert_eq!(tree.children[0].children.len(), 1);
    assert_eq!(tree.children[2].children.len(), 1);
}

#[test]
fn hidden_children_leave_no_box() {
    let node = plain_node();
    let hidden_kid = styled(
        &node,
        vec![("display", Value::Keyword("none".to_string()))],
        vec![styled(&node, vec![block()], vec![])],
    );
    let root = styled(&node, vec![block()], vec![hidden_kid, styled(&node, vec![block()], vec![])]);
    let tree = build_layout_tree(&root);
    assert_eq!(tree.children.len(), 1);
    assert!(tree.children[0].children.is_empty());
}

#[test]
fn inline_root_takes_children_directly() {
    let node = plain_node();
    let kids = vec![styled(&node, vec![], vec![]), styled(&node, vec![block()], vec![])];
    let root = styled(&node, vec![], kids);
    let tree = build_layout_tree(&root);
    assert!(matches!(tree.box_type, BoxType::InlineNode(_)));
    assert_eq!(tree.children.len(), 2);
    assert!(matches!(tree.children[0].box_type, BoxType::InlineNode(_)));
    assert!(matches!(tree.children[1].box_type, BoxType::BlockNode(_)));
}

#[test]
fn auto_right_margin_takes_the_underflow() {
    let d = laid_out(
        vec![("width", px(200)), ("margin-left", px(50)), ("margin-right", auto())],
        viewport(300),
    )
    .unwrap();
    assert_eq!(d.content.width, 200);
    assert_eq!(d.margin.left, 50);
    assert_eq!(d.margin.right, 50);
    assert_eq!(solve_widths(Some(200), Some(50), None, 0, 300), (200, 50, 50));
}

#[test]
fn auto_width_fills_the_container() {
    let d = laid_out(vec![], viewport(300)).unwrap();
    assert_eq!(d.content.width, 300);
    assert_eq!(d.margin.left, 0);
    assert_eq!(d.margin.right, 0);
    let d = laid_out(vec![("width", auto()), ("margin", px(0))], viewport(300)).unwrap();
    assert_eq!(d.content.width, 300);
    let d = laid_out(
        vec![("margin", px(10)), ("padding", px(5)), ("border-width", px(1))],
        viewport(300),
    )
    .unwrap();
    assert_eq!(d.content.width, 268);
    assert_eq!(d.content.x, 16);
    assert_eq!(d.content.y, 16);
}

#[test]
fn auto_width_cannot_go_negative() {
    let d = laid_out(
        vec![("margin-left", px(200)), ("margin-right", px(150)), ("padding", px(10))],
        viewport(300),
    )
    .unwrap();
    assert_eq!(d.content.width, 0);
    assert_eq!(d.margin.left, 200);
    assert_eq!(d.margin.right, 80);
    let d = laid_out(vec![("padding-left", px(400))], viewport(300)).unwrap();
    assert_eq!(d.content.width, 0);
    assert_eq!(d.margin.right, -100);
    assert_eq!(solve_widths(None, None, None, 400, 300), (0, 0, -100));
}

#[test]
fn width_cases() {
    // nothing auto: the right margin absorbs the difference
    assert_eq!(solve_widths(Some(100), Some(10), Some(10), 0, 300), (100, 10, 190));
    assert_eq!(solve_widths(Some(400), Some(10), Some(10), 0, 300), (400, 10, -110));
    // only the left margin auto
    assert_eq!(solve_widths(Some(100), None, Some(10), 20, 300), (100, 170, 10));
    // both margins auto: centred
    assert_eq!(solve_widths(Some(100), None, None, 0, 300), (100, 100, 100));
    assert_eq!(solve_widths(Some(100), None, None, 0, 301), (100, 100, 100));
    // a width that does not fit turns auto margins into zero
    assert_eq!(solve_widths(Some(400), None, None, 0, 300), (400, 0, -100));
    assert_eq!(solve_widths(Some(400), None, Some(5), 0, 300), (400, 0, -100));
    // auto width with auto margins
    assert_eq!(solve_widths(None, None, Some(20), 30, 300), (250, 0, 20));
}

#[test]
fn width_resolution_repeats() {
    let props = || vec![("width", px(120)), ("margin", auto()), ("padding", px(3))];
    let a = laid_out(props(), viewport(500)).unwrap();
    let b = laid_out(props(), viewport(500)).unwrap();
    assert_eq!(a, b);
    assert_eq!(a.margin.left, 187);
    assert_eq!(a.margin.right, 187);
}

#[test]
fn children_stack_and_heights_add_up() {
    let node = plain_node();
    let first = styled(
        &node,
        vec![block(), ("height", px(30)), ("margin", px(5))],
        vec![],
    );
    let second = styled(
        &node,
        vec![
            block(),
            ("height", px(40)),
            ("margin-top", px(4)),
            ("border-width", px(3)),
            ("padding-top", px(2)),
            ("padding-bottom", px(8)),
        ],
        vec![],
    );
    let root = styled(&node, vec![block()], vec![first, second]);
    let mut tree = build_layout_tree(&root);
    let mut container = viewport(200);
    container.content.y = 7;
    tree.layout(container).unwrap();
    let a = tree.children[0].dimensions;
    let b = tree.children[1].dimensions;
    assert_eq!(a.margin_box().height, 40);
    assert_eq!(b.margin_box().height, 60);
    assert_eq!(tree.dimensions.content.height, 100);
    assert_eq!(tree.dimensions.content.y, 7);
    assert_eq!(a.content.y, 7 + 5);
    assert_eq!(b.content.y, tree.dimensions.content.y + 40 + 4 + 3 + 2);
    assert_eq!(b.content.x, 3);
    assert_eq!(b.content.width, 194);
}

#[test]
fn explicit_height_overrides_children() {
    let node = plain_node();
    let kid = styled(&node, vec![block(), ("height", px(30))], vec![]);
    let root = styled(&node, vec![block(), ("height", px(10))], vec![kid]);
    let mut tree = build_layout_tree(&root);
    tree.layout(viewport(100)).unwrap();
    assert_eq!(tree.dimensions.content.height, 10);
    assert_eq!(tree.children[0].dimensions.content.height, 30);

    // a height that is no length is passed over
    let root = styled(&node, vec![block(), ("height", auto())], vec![]);
    let mut tree = build_layout_tree(&root);
    tree.layout(viewport(100)).unwrap();
    assert_eq!(tree.dimensions.content.height, 0);
}

#[test]
fn later_siblings_follow_the_container_height() {
    let d = {
        let mut c = viewport(100);
        c.content.y = 10;
        c.content.height = 25;
        laid_out(vec![("margin-top", px(1))], c).unwrap()
    };
    assert_eq!(d.content.y, 36);
}

#[test]
fn inline_and_anonymous_boxes_get_no_geometry() {
    let node = plain_node();
    let inline_kid = styled(&node, vec![("width", px(50)), ("height", px(50))], vec![]);
    let root = styled(&node, vec![block()], vec![inline_kid]);
    let mut tree = build_layout_tree(&root);
    tree.layout(viewport(100)).unwrap();
    assert_eq!(tree.children[0].dimensions, Dimensions::default());
    assert_eq!(tree.children[0].children[0].dimensions, Dimensions::default());
    assert_eq!(tree.dimensions.content.height, 0);
    assert_eq!(tree.dimensions.content.width, 100);

    let inline_root = styled(&node, vec![("width", px(50))], vec![]);
    let mut tree = build_layout_tree(&inline_root);
    tree.layout(viewport(100)).unwrap();
    assert_eq!(tree.dimensions, Dimensions::default());
}

#[test]
fn layout_again_gives_the_same_geometry() {
    let node = plain_node();
    let kid = styled(&node, vec![block(), ("height", px(30))], vec![]);
    let root = styled(&node, vec![block()], vec![kid]);
    let mut tree = build_layout_tree(&root);
    tree.layout(viewport(100)).unwrap();
    let once = tree.dimensions;
    tree.layout(viewport(100)).unwrap();
    assert_eq!(tree.dimensions, once);
    assert_eq!(once.content.height, 30);
}

#[test]
fn wrong_kind_of_value_stops_the_layout() {
    let red = Value::ColorValue(Color { r: 255, g: 0, b: 0, a: 255 });
    assert_eq!(laid_out(vec![("margin-left", red)], viewport(100)), Err(LayoutError::TypeMismatch));
    assert_eq!(
        laid_out(vec![("width", Value::Keyword("wide".to_string()))], viewport(100)),
        Err(LayoutError::TypeMismatch)
    );
    assert_eq!(
        laid_out(vec![("padding-top", Value::Keyword("thick".to_string()))], viewport(100)),
        Err(LayoutError::TypeMismatch)
    );
    // auto is a size everywhere, and counts as zero
    let d = laid_out(vec![("padding", auto()), ("margin-top", auto())], viewport(100)).unwrap();
    assert_eq!(d.content.width, 100);
    assert_eq!(d.content.y, 0);
}

#[test]
fn numbers_out_of_range_stop_the_layout() {
    assert_eq!(laid_out(vec![("width", px(MAX_PX + 1))], viewport(100)), Err(LayoutError::OutOfRange));
    assert_eq!(laid_out(vec![("height", px(MAX_PX + 1))], viewport(100)), Err(LayoutError::OutOfRange));
    assert_eq!(laid_out(vec![], viewport(MAX_PX + 1)), Err(LayoutError::OutOfRange));
    assert_eq!(
        laid_out(vec![("width", px(MAX_PX)), ("margin-left", px(MAX_PX))], viewport(-5)),
        Err(LayoutError::OutOfRange)
    );
    assert!(laid_out(vec![("width", px(MAX_PX))], viewport(100)).is_ok());
    let mut far = viewport(100);
    far.content.x = i64::MAX;
    assert_eq!(laid_out(vec![("margin-left", px(1))], far), Err(LayoutError::OutOfRange));
    // the first fault read decides
    let red = Value::ColorValue(Color { r: 255, g: 0, b: 0, a: 255 });
    assert_eq!(
        laid_out(vec![("width", px(MAX_PX + 1)), ("margin-left", red)], viewport(100)),
        Err(LayoutError::OutOfRange)
    );
}

#[test]
fn a_failing_child_stops_the_parent() {
    let node = plain_node();
    let red = Value::ColorValue(Color { r: 255, g: 0, b: 0, a: 255 });
    let bad = styled(&node, vec![block(), ("margin", red)], vec![]);
    let root = styled(&node, vec![block()], vec![styled(&node, vec![block()], vec![]), bad]);
    let mut tree = build_layout_tree(&root);
    assert_eq!(tree.layout(viewport(100)), Err(LayoutError::TypeMismatch));
}

#[test]
fn boxes_grow_outward() {
    let d = Dimensions {
        content: Rect { x: 20, y: 30, width: 100, height: 50 },
        padding: EdgeSizes { left: 1, right: 2, top: 3, bottom: 4 },
        border: EdgeSizes { left: 5, right: 6, top: 7, bottom: 8 },
        margin: EdgeSizes { left: 9, right: 10, top: 11, bottom: 12 },
    };
    assert_eq!(d.padding_box(), Rect { x: 19, y: 27, width: 103, height: 57 });
    assert_eq!(d.border_box(), Rect { x: 14, y: 20, width: 114, height: 72 });
    assert_eq!(d.margin_box(), Rect { x: 5, y: 9, width: 133, height: 95 });
    assert_eq!(
        Rect { x: 0, y: 0, width: 0, height: 0 }
            .expanded_by(EdgeSizes { left: 1, right: 2, top: 3, bottom: 4 }),
        Rect { x: -1, y: -3, width: 3, height: 7 }
    );
}

#[test]
fn new_box_is_empty_and_zero() {
    let b = LayoutBox::new(BoxType::AnonymousBlock);
    assert_eq!(b.dimensions, Dimensions::default());
    assert!(b.children.is_empty());
    let node = plain_node();
    let s = styled(&node, vec![], vec![]);
    let b = LayoutBox::new(BoxType::InlineNode(&s));
    assert!(std::ptr::eq(b.get_style_node(), &s));
}
