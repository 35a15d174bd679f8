//! Building the tree of boxes from the styled tree.

use vstd::prelude::*;
use crate::geometry::Dimensions;
use crate::layout::{BoxType, LayoutBox};
use crate::style::{display_of, Display, StyledNode};

verus! {

/// A tree of boxes as a mathematical value.
pub struct Plan<'a> {
    pub dimensions: Dimensions,
    pub box_type: BoxType<'a>,
    pub children: Seq<Plan<'a>>,
}

/// The tree of boxes that `b` is.
pub open spec fn shape_of<'a>(b: &LayoutBox<'a>) -> Plan<'a>
    decreases b, 0int,
{
    Plan { dimensions: b.dimensions, box_type: b.box_type, children: shapes(b.children@) }
}

/// The trees that the boxes of `kids` are.
pub open spec fn shapes<'a>(kids: Seq<LayoutBox<'a>>) -> Seq<Plan<'a>>
    decreases kids, 1int,
{
    if kids.len() == 0 {
        Seq::empty()
    } else {
        shapes(kids.drop_last()).push(shape_of(&kids.last()))
    }
}

/// An empty anonymous block box.
pub open spec fn anonymous<'a>() -> Plan<'a> {
    Plan {
        dimensions: Dimensions::zero(),
        box_type: BoxType::AnonymousBlock,
        children: Seq::empty(),
    }
}

/// `p` with one more child.
pub open spec fn with_child<'a>(p: Plan<'a>, child: Plan<'a>) -> Plan<'a> {
    Plan { children: p.children.push(child), ..p }
}

/// The tree of boxes for a styled node: a block box where the node's
/// display is block, an inline box otherwise, all geometry zero, and inside
/// it the boxes of the node's children.
pub open spec fn plan<'a>(node: &'a StyledNode<'a>) -> Plan<'a>
    decreases node, 0int,
{
    let block = display_of(node.specified_values@) == Display::Block;
    Plan {
        dimensions: Dimensions::zero(),
        box_type: if block {
            BoxType::BlockNode(node)
        } else {
            BoxType::InlineNode(node)
        },
        children: grouped(node.children@, block),
    }
}

/// The boxes for a row of styled children, inside a block box or not.
///
/// A child whose display is none leaves no box, nor does anything inside
/// it. A block child's box stands in the row itself. So does an inline
/// child's box, unless the row is inside a block box: there it goes into
/// the anonymous block box that ends the row so far, or into a new one.
pub open spec fn grouped<'a>(kids: Seq<StyledNode<'a>>, in_block: bool) -> Seq<Plan<'a>>
    decreases kids, 1int,
{
    if kids.len() == 0 {
        Seq::empty()
    } else {
        let row = grouped(kids.drop_last(), in_block);
        let kid = &kids.last();
        match display_of(kid.specified_values@) {
            Display::Hidden => row,
            Display::Block => row.push(plan(kid)),
            Display::Inline => if !in_block {
                row.push(plan(kid))
            } else if row.len() > 0 && row.last().box_type is AnonymousBlock {
                row.drop_last().push(with_child(row.last(), plan(kid)))
            } else {
                row.push(with_child(anonymous(), plan(kid)))
            },
        }
    }
}

impl<'a> LayoutBox<'a> {
    /// The box that a new inline child goes into: the box itself unless it
    /// is a block box; in a block box its last child where that is an
    /// anonymous block box, else a new anonymous block box at its end.
    pub fn get_inline_container(&mut self) -> (r: &mut LayoutBox<'a>)
        ensures
            match old(self).box_type {
                BoxType::BlockNode(_) => {
                    let kids = old(self).children@;
                    &&& final(self).dimensions == old(self).dimensions
                    &&& final(self).box_type == old(self).box_type
                    &&& if kids.len() > 0 && kids.last().box_type is AnonymousBlock {
                        *r == kids.last() && final(self).children@ == kids.update(
                            kids.len() - 1,
                            *final(r),
                        )
                    } else {
                        &&& r.box_type is AnonymousBlock
                        &&& r.dimensions == Dimensions::zero()
                        &&& r.children@.len() == 0
                        &&& final(self).children@ == kids.push(*final(r))
                    }
                },
                _ => *r == *old(self) && *final(self) == *final(r),
            },
    {
        match self.box_type {
            BoxType::InlineNode(_) | BoxType::AnonymousBlock => self,
            BoxType::BlockNode(_) => {
                // If we've just generated an anonymous block box, keep using it.
                // Otherwise, create a new one.
                let n = self.children.len();
                let reuse = if n == 0 {
                    false
                } else {
                    match self.children[n - 1].box_type {
                        BoxType::AnonymousBlock => true,
                        _ => false,
                    }
                };
                if !reuse {
                    self.children.push(LayoutBox::new(BoxType::AnonymousBlock));
                }
                let last = self.children.len() - 1;
                &mut self.children[last]
            },
        }
    }
}

/// Builds the tree of boxes for a styled node whose display is not none.
pub fn build_layout_tree<'a>(style_node: &'a StyledNode<'a>) -> (root: LayoutBox<'a>)
    requires
        display_of(style_node.specified_values@) != Display::Hidden,
    ensures
        shape_of(&root) == plan(style_node),
    decreases style_node,
{
    // Create the root box.
    let mut root = LayoutBox::new(
        match style_node.display() {
            Display::Block => BoxType::BlockNode(style_node),
            Display::Inline => BoxType::InlineNode(style_node),
            Display::Hidden => vstd::pervasive::unreached(),
        },
    );
    let ghost block = display_of(style_node.specified_values@) == Display::Block;
    let ghost all = style_node.children@;

    // Create the descendant boxes.
    let mut i: usize = 0;
    while i < style_node.children.len()
        invariant
            i <= all.len(),
            all == style_node.children@,
            block == (display_of(style_node.specified_values@) == Display::Block),
            root.dimensions == Dimensions::zero(),
            root.box_type == plan(style_node).box_type,
            shapes(root.children@) == grouped(all.take(i as int), block),
        decreases all.len() - i,
    {
        let child = &style_node.children[i];
        let ghost before = root.children@;
        proof {
            assert(all.take(i + 1).drop_last() == all.take(i as int));
            assert(all.take(i + 1).last() == *child);
        }
        match child.display() {
            Display::Block => {
                let b = build_layout_tree(child);
                root.children.push(b);
                proof {
                    assert(root.children@.drop_last() == before);
                    assert(shapes(root.children@) == shapes(before).push(plan(child)));
                }
            },
            Display::Inline => {
                let b = build_layout_tree(child);
                let container = root.get_inline_container();
                let ghost held = container.children@;
                container.children.push(b);
                proof {
                    if block {
                        let last = root.children@.last();
                        assert(last.children@ == held.push(b));
                        assert(last.children@.drop_last() == held);
                        assert(shapes(last.children@) == shapes(held).push(plan(child)));
                        if before.len() > 0 && before.last().box_type is AnonymousBlock {
                            assert(root.children@.drop_last() == before.drop_last());
                            assert(shape_of(&last) == with_child(
                                shape_of(&before.last()),
                                plan(child),
                            ));
                            assert(shapes(before) == shapes(before.drop_last()).push(
                                shape_of(&before.last()),
                            ));
                            assert(shapes(before).drop_last() == shapes(before.drop_last()));
                            assert(shapes(root.children@) == shapes(before.drop_last()).push(
                                shape_of(&last),
                            ));
                        } else {
                            assert(root.children@.drop_last() == before);
                            assert(shapes(held) == Seq::<Plan>::empty());
                            assert(shape_of(&last) == with_child(anonymous(), plan(child)));
                            assert(shapes(root.children@) == shapes(before).push(shape_of(&last)));
                            if before.len() > 0 {
                                assert(shapes(before).last() == shape_of(&before.last()));
                            }
                        }
                    } else {
                        assert(root.children@ == before.push(b));
                        assert(root.children@.drop_last() == before);
                        assert(shapes(root.children@) == shapes(before).push(plan(child)));
                    }
                }
            },
            Display::Hidden => {},  // no box for a node that is not displayed
        }
        i = i + 1;
    }
    proof {
        assert(all.take(i as int) == all);
    }
    root
}

/// Whether a block box's row keeps block and inline boxes apart: no box of
/// the row is an inline box, and an anonymous block box in it holds
/// inline boxes only, and at least one.
pub open spec fn homogeneous(row: Seq<Plan>) -> bool {
    forall|k: int|
        0 <= k < row.len() ==> {
            &&& !((#[trigger] row[k]).box_type is InlineNode)
            &&& row[k].box_type is AnonymousBlock ==> row[k].children.len() > 0 && forall|j: int|
                0 <= j < row[k].children.len() ==> (#[trigger] row[k].children[j]).box_type
                    is InlineNode
        }
}

/// The children of a block box are never mixed: inline children stand in
/// anonymous block boxes, beside the block children.
pub proof fn block_rows_are_homogeneous(kids: Seq<StyledNode>)
    ensures
        homogeneous(grouped(kids, true)),
    decreases kids.len(),
{
    if kids.len() > 0 {
        block_rows_are_homogeneous(kids.drop_last());
        let row = grouped(kids.drop_last(), true);
        let kid = &kids.last();
        let out = grouped(kids, true);
        assert forall|k: int| 0 <= k < out.len() implies {
            &&& !((#[trigger] out[k]).box_type is InlineNode)
            &&& out[k].box_type is AnonymousBlock ==> out[k].children.len() > 0 && forall|j: int|
                0 <= j < out[k].children.len() ==> (#[trigger] out[k].children[j]).box_type
                    is InlineNode
        } by {
            let last = row.len() - 1;
            if display_of(kid.specified_values@) == Display::Hidden {
                assert(out[k] == row[k]);
            } else if display_of(kid.specified_values@) == Display::Block {
                if k < row.len() {
                    assert(out[k] == row[k]);
                } else {
                    assert(out[k] == plan(kid));
                }
            } else if row.len() > 0 && row[last].box_type is AnonymousBlock {
                if k < last {
                    assert(out[k] == row[k]);
                } else {
                    let held = row[last].children;
                    assert(out[k] == with_child(row[last], plan(kid)));
                    assert forall|j: int| 0 <= j < out[k].children.len() implies (
                    #[trigger] out[k].children[j]).box_type is InlineNode by {
                        if j < held.len() {
                            assert(out[k].children[j] == held[j]);
                            assert(row[last].children[j].box_type is InlineNode);
                        } else {
                            assert(out[k].children[j] == plan(kid));
                        }
                    }
                }
            } else {
                if k < row.len() {
                    assert(out[k] == row[k]);
                } else {
                    assert(out[k] == with_child(anonymous(), plan(kid)));
                    assert(out[k].children[0] == plan(kid));
                }
            }
        }
    }
}

/// A node whose display is none leaves no box, nor does anything inside it.
pub proof fn hidden_child_leaves_no_box(kids: Seq<StyledNode>, in_block: bool)
    requires
        kids.len() > 0,
        display_of(kids.last().specified_values@) == Display::Hidden,
    ensures
        grouped(kids, in_block) == grouped(kids.drop_last(), in_block),
{
}

} // verus!
