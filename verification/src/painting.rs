//! The list of rectangles to fill for a laid-out tree of boxes.

use vstd::prelude::*;
use crate::css::{Color, Value};
pub use crate::canvas::{paint, Canvas};
use crate::geometry::{Dimensions, Rect};
use crate::layout::{
    arranged, block_geometry_in_range, child_arranged, flow, frame, BoxType, LayoutBox,
};

verus! {

#[derive(Clone, Copy, Debug, PartialEq, Eq)]
pub enum DisplayCommand {
    SolidColor(Color, Rect),
}

pub type DisplayList = Vec<DisplayCommand>;

/// Every number of every box of the tree is in range.
pub open spec fn all_bounded(b: &LayoutBox) -> bool
    decreases b,
{
    b.dimensions.bounded() && forall|k: int|
        0 <= k < b.children@.len() ==> all_bounded(&#[trigger] b.children@[k])
}

/// The colour that property `name` gives the box: that of its styled node
/// where the value is a colour; none for an anonymous box.
pub open spec fn color_of(b: &LayoutBox, name: Seq<char>) -> Option<Color> {
    let m = b.box_type.style();
    if !(b.box_type is AnonymousBlock) && m.contains_key(name) && m[name] is ColorValue {
        Some(m[name]->ColorValue_0)
    } else {
        None
    }
}

/// The border box of `d`.
pub open spec fn border_rect(d: Dimensions) -> Rect {
    Rect {
        x: (d.content.x - d.padding.left - d.border.left) as i64,
        y: (d.content.y - d.padding.top - d.border.top) as i64,
        width: (d.content.width + d.padding.left + d.padding.right + d.border.left
            + d.border.right) as i64,
        height: (d.content.height + d.padding.top + d.padding.bottom + d.border.top
            + d.border.bottom) as i64,
    }
}

/// The background of a box: its border box in the `background` colour,
/// where it has one.
pub open spec fn background(b: &LayoutBox) -> Seq<DisplayCommand> {
    match color_of(b, "background"@) {
        Some(color) => seq![DisplayCommand::SolidColor(color, border_rect(b.dimensions))],
        None => Seq::empty(),
    }
}

/// The borders of a box: four strips along the edges of its border box,
/// left, right, top, bottom, in the `border-color`, where it has one.
pub open spec fn borders(b: &LayoutBox) -> Seq<DisplayCommand> {
    let d = b.dimensions;
    let bb = border_rect(d);
    match color_of(b, "border-color"@) {
        Some(color) => seq![
            DisplayCommand::SolidColor(
                color,
                Rect { x: bb.x, y: bb.y, width: d.border.left, height: bb.height },
            ),
            DisplayCommand::SolidColor(
                color,
                Rect {
                    x: (bb.x + bb.width - d.border.right) as i64,
                    y: bb.y,
                    width: d.border.right,
                    height: bb.height,
                },
            ),
            DisplayCommand::SolidColor(
                color,
                Rect { x: bb.x, y: bb.y, width: bb.width, height: d.border.top },
            ),
            DisplayCommand::SolidColor(
                color,
                Rect {
                    x: bb.x,
                    y: (bb.y + bb.height - d.border.bottom) as i64,
                    width: bb.width,
                    height: d.border.bottom,
                },
            ),
        ],
        None => Seq::empty(),
    }
}

/// What is drawn for a box and all boxes inside it: its background, its
/// borders, then its children in order, each with what is inside it.
pub open spec fn commands(b: &LayoutBox) -> Seq<DisplayCommand>
    decreases b, 0int,
{
    background(b) + borders(b) + commands_of(b.children@)
}

/// What is drawn for a row of boxes.
pub open spec fn commands_of(kids: Seq<LayoutBox>) -> Seq<DisplayCommand>
    decreases kids, 1int,
{
    if kids.len() == 0 {
        Seq::empty()
    } else {
        commands_of(kids.drop_last()) + commands(&kids.last())
    }
}

/// The colour that a property gives a box, if any.
pub fn get_color(layout_box: &LayoutBox, name: &str) -> (r: Option<Color>)
    ensures
        r == color_of(layout_box, name@),
{
    match &layout_box.box_type {
        BoxType::BlockNode(style) | BoxType::InlineNode(style) => match style.value(name) {
            Some(Value::ColorValue(color)) => Some(color),
            _ => None,
        },
        BoxType::AnonymousBlock => None,
    }
}

fn render_background(list: &mut DisplayList, layout_box: &LayoutBox)
    requires
        layout_box.dimensions.bounded(),
    ensures
        final(list)@ == old(list)@ + background(layout_box),
{
    match get_color(layout_box, "background") {
        Some(color) => {
            list.push(DisplayCommand::SolidColor(color, layout_box.dimensions.border_box()));
            proof {
                assert(list@ == old(list)@ + background(layout_box));
            }
        },
        None => {
            proof {
                assert(list@ == old(list)@ + background(layout_box));
            }
        },
    }
}

fn render_borders(list: &mut DisplayList, layout_box: &LayoutBox)
    requires
        layout_box.dimensions.bounded(),
    ensures
        final(list)@ == old(list)@ + borders(layout_box),
{
    let color = match get_color(layout_box, "border-color") {
        Some(color) => color,
        None => {
            proof {
                assert(list@ == old(list)@ + borders(layout_box));
            }
            return ;
        },
    };

    let d = &layout_box.dimensions;
    let border_box = d.border_box();

    // Left border
    list.push(
        DisplayCommand::SolidColor(
            color,
            Rect {
                x: border_box.x,
                y: border_box.y,
                width: d.border.left,
                height: border_box.height,
            },
        ),
    );

    // Right border
    list.push(
        DisplayCommand::SolidColor(
            color,
            Rect {
                x: border_box.x + border_box.width - d.border.right,
                y: border_box.y,
                width: d.border.right,
                height: border_box.height,
            },
        ),
    );

    // Top border
    list.push(
        DisplayCommand::SolidColor(
            color,
            Rect {
                x: border_box.x,
                y: border_box.y,
                width: border_box.width,
                height: d.border.top,
            },
        ),
    );

    // Bottom border
    list.push(
        DisplayCommand::SolidColor(
            color,
            Rect {
                x: border_box.x,
                y: border_box.y + border_box.height - d.border.bottom,
                width: border_box.width,
                height: d.border.bottom,
            },
        ),
    );
    proof {
        assert(list@ == old(list)@ + borders(layout_box));
    }
}

fn render_layout_box(list: &mut DisplayList, layout_box: &LayoutBox)
    requires
        all_bounded(layout_box),
    ensures
        final(list)@ == old(list)@ + commands(layout_box),
    decreases layout_box,
{
    render_background(list, layout_box);
    render_borders(list, layout_box);
    let ghost own = old(list)@ + background(layout_box) + borders(layout_box);
    let mut i: usize = 0;
    proof {
        assert(layout_box.children@.take(0) == Seq::<LayoutBox>::empty());
        assert(list@ == own + commands_of(layout_box.children@.take(0)));
    }
    while i < layout_box.children.len()
        invariant
            i <= layout_box.children@.len(),
            all_bounded(layout_box),
            list@ == own + commands_of(layout_box.children@.take(i as int)),
        decreases layout_box.children@.len() - i,
    {
        let ghost before = list@;
        render_layout_box(list, &layout_box.children[i]);
        proof {
            let kids = layout_box.children@;
            assert(kids.take(i + 1).drop_last() == kids.take(i as int));
            assert(kids.take(i + 1).last() == kids[i as int]);
            assert(list@ == own + commands_of(kids.take(i + 1)));
        }
        i = i + 1;
    }
    proof {
        assert(layout_box.children@.take(i as int) == layout_box.children@);
        assert(list@ == old(list)@ + commands(layout_box));
    }
}

/// The rectangles to fill for a tree of boxes, in drawing order.
pub fn build_display_list(layout_root: &LayoutBox) -> (list: DisplayList)
    requires
        all_bounded(layout_root),
    ensures
        list@ == commands(layout_root),
{
    let mut list = Vec::new();
    render_layout_box(&mut list, layout_root);
    proof {
        assert(list@ == commands(layout_root));
    }
    list
}

/// Tells whether every number of every box of the tree is in range.
pub fn tree_in_range(b: &LayoutBox) -> (r: bool)
    ensures
        r == all_bounded(b),
    decreases b,
{
    if !dims_in_range(&b.dimensions) {
        return false;
    }
    let mut i: usize = 0;
    while i < b.children.len()
        invariant
            i <= b.children@.len(),
            b.dimensions.bounded(),
            forall|k: int| 0 <= k < i ==> all_bounded(&#[trigger] b.children@[k]),
        decreases b.children@.len() - i,
    {
        if !tree_in_range(&b.children[i]) {
            return false;
        }
        i = i + 1;
    }
    true
}

fn one_in_range(v: i64) -> (r: bool)
    ensures
        r == crate::geometry::in_range(v as int),
{
    -crate::geometry::MAX_PX <= v && v <= crate::geometry::MAX_PX
}

fn dims_in_range(d: &Dimensions) -> (r: bool)
    ensures
        r == d.bounded(),
{
    one_in_range(d.content.x) && one_in_range(d.content.y) && one_in_range(d.content.width)
        && one_in_range(d.content.height) && one_in_range(d.padding.left) && one_in_range(
        d.padding.right,
    ) && one_in_range(d.padding.top) && one_in_range(d.padding.bottom) && one_in_range(
        d.border.left,
    ) && one_in_range(d.border.right) && one_in_range(d.border.top) && one_in_range(
        d.border.bottom,
    ) && one_in_range(d.margin.left) && one_in_range(d.margin.right) && one_in_range(d.margin.top)
        && one_in_range(d.margin.bottom)
}

/// Layout keeps a tree in range: where every number of a tree was in
/// range before a layout that succeeded, every number is in range after it.
pub proof fn layout_keeps_range(after: &LayoutBox, before: &LayoutBox, c: Dimensions)
    requires
        arranged(after, before, c),
        all_bounded(before),
    ensures
        all_bounded(after),
    decreases after,
{
    if before.box_type is BlockNode {
        block_geometry_in_range(before, c);
        let d0 = frame(before.box_type.style(), c)->Ok_0;
        assert forall|k: int| 0 <= k < after.children@.len() implies all_bounded(
            &#[trigger] after.children@[k],
        ) by {
            assert(child_arranged(&after.children@[k], before.children@, d0, k));
            assert(all_bounded(&before.children@[k]));
            layout_keeps_range(
                &after.children@[k],
                &before.children@[k],
                flow(before.children@, d0, k)->Ok_0,
            );
        }
    }
}

} // verus!
