//! The tree of boxes and the geometry of block boxes.

use vstd::prelude::*;
use crate::css::{Unit, Value};
use crate::geometry::{in_range, MAX_PX};
pub use crate::boxtree::build_layout_tree;
pub use crate::geometry::{Dimensions, EdgeSizes, Rect};
use crate::style::{looked_up, StyledNode};

verus! {

/// Why a layout stopped.
#[derive(Clone, Copy, Debug, PartialEq, Eq, Structural)]
pub enum LayoutError {
    /// A size property holds a value that is neither a length nor `auto`.
    TypeMismatch,
    /// A length, coordinate or size is larger in magnitude than `MAX_PX`.
    OutOfRange,
}

pub enum BoxType<'a> {
    BlockNode(&'a StyledNode<'a>),
    InlineNode(&'a StyledNode<'a>),
    AnonymousBlock,
}

/// A box, its geometry and the boxes inside it.
pub struct LayoutBox<'a> {
    pub dimensions: Dimensions,
    pub box_type: BoxType<'a>,
    pub children: Vec<LayoutBox<'a>>,
}

/// What a value says as a size: the pixels of a length, nothing for `auto`.
pub open spec fn size_of(v: Value) -> Result<Option<i64>, LayoutError> {
    match v {
        Value::Length(n, Unit::Px) => if in_range(n as int) {
            Ok(Some(n))
        } else {
            Err(LayoutError::OutOfRange)
        },
        Value::Keyword(s) => if s@ == "auto"@ {
            Ok(None)
        } else {
            Err(LayoutError::TypeMismatch)
        },
        Value::ColorValue(_) => Err(LayoutError::TypeMismatch),
    }
}

/// The size that property `name` has, or else `fallback`, or else zero.
pub open spec fn size_in(m: Map<Seq<char>, Value>, name: Seq<char>, fallback: Seq<char>) -> Result<
    Option<i64>,
    LayoutError,
> {
    size_of(looked_up(m, name, fallback, Value::Length(0, Unit::Px)))
}

/// The size that `width` has; `auto` where it is not specified.
pub open spec fn width_in(m: Map<Seq<char>, Value>) -> Result<Option<i64>, LayoutError> {
    if m.contains_key("width"@) {
        size_of(m["width"@])
    } else {
        Ok(None)
    }
}

/// The pixels a size counts for in a sum: `auto` counts as zero.
pub open spec fn px(s: Option<i64>) -> int {
    match s {
        Some(n) => n as int,
        None => 0,
    }
}

/// The width and the left and right margin of a block box, in that order.
///
/// `fixed` is the sum of the borders and paddings to the left and right,
/// `cw` the width of the containing block. The seven sizes are to add up to
/// `cw`. A specified width that does not fit turns `auto` margins into
/// zero. Then: with nothing `auto` the right margin takes the difference;
/// one `auto` margin takes it; two share it evenly; an `auto` width takes
/// it, with `auto` margins zero, and where the difference is negative the
/// width is zero and the right margin takes it.
pub open spec fn solved(
    width: Option<i64>,
    margin_left: Option<i64>,
    margin_right: Option<i64>,
    fixed: int,
    cw: int,
) -> (int, int, int) {
    let total = px(width) + px(margin_left) + px(margin_right) + fixed;
    let crowded = width.is_some() && total > cw;
    let left = if crowded { Some(px(margin_left) as i64) } else { margin_left };
    let right = if crowded { Some(px(margin_right) as i64) } else { margin_right };
    let underflow = cw - total;
    match (width, left, right) {
        (Some(w), Some(l), Some(r)) => (w as int, l as int, r + underflow),
        (Some(w), Some(l), None) => (w as int, l as int, underflow),
        (Some(w), None, Some(r)) => (w as int, underflow, r as int),
        (Some(w), None, None) => (w as int, underflow / 2, underflow / 2),
        (None, _, _) => if underflow >= 0 {
            (underflow, px(margin_left), px(margin_right))
        } else {
            (0, px(margin_left), px(margin_right) + underflow)
        },
    }
}

/// The horizontal sizes of a block box.
pub struct Widths {
    pub width: i64,
    pub margin_left: i64,
    pub margin_right: i64,
    pub border_left: i64,
    pub border_right: i64,
    pub padding_left: i64,
    pub padding_right: i64,
}

/// The horizontal sizes that the properties `m` give a block box in a
/// containing block of width `cw`.
///
/// The properties are read in the order width, margins, borders, paddings,
/// left before right, and the first that is no size decides the error. A
/// resolved width or margin beyond `MAX_PX` is out of range.
#[verifier::opaque]
pub open spec fn resolved_widths(m: Map<Seq<char>, Value>, cw: i64) -> Result<Widths, LayoutError> {
    let w = width_in(m);
    let ml = size_in(m, "margin-left"@, "margin"@);
    let mr = size_in(m, "margin-right"@, "margin"@);
    let bl = size_in(m, "border-left-width"@, "border-width"@);
    let br = size_in(m, "border-right-width"@, "border-width"@);
    let pl = size_in(m, "padding-left"@, "padding"@);
    let pr = size_in(m, "padding-right"@, "padding"@);
    if w is Err {
        Err(w->Err_0)
    } else if ml is Err {
        Err(ml->Err_0)
    } else if mr is Err {
        Err(mr->Err_0)
    } else if bl is Err {
        Err(bl->Err_0)
    } else if br is Err {
        Err(br->Err_0)
    } else if pl is Err {
        Err(pl->Err_0)
    } else if pr is Err {
        Err(pr->Err_0)
    } else {
        let fixed = px(bl->Ok_0) + px(br->Ok_0) + px(pl->Ok_0) + px(pr->Ok_0);
        let s = solved(w->Ok_0, ml->Ok_0, mr->Ok_0, fixed, cw as int);
        if in_range(s.0) && in_range(s.1) && in_range(s.2) {
            Ok(
                Widths {
                    width: s.0 as i64,
                    margin_left: s.1 as i64,
                    margin_right: s.2 as i64,
                    border_left: px(bl->Ok_0) as i64,
                    border_right: px(br->Ok_0) as i64,
                    padding_left: px(pl->Ok_0) as i64,
                    padding_right: px(pr->Ok_0) as i64,
                },
            )
        } else {
            Err(LayoutError::OutOfRange)
        }
    }
}

/// `v` as a coordinate, where it is in range.
pub open spec fn fitted(v: int) -> Result<i64, LayoutError> {
    if in_range(v) {
        Ok(v as i64)
    } else {
        Err(LayoutError::OutOfRange)
    }
}

fn fit(v: i128) -> (r: Result<i64, LayoutError>)
    ensures
        r == fitted(v as int),
{
    if -(MAX_PX as i128) <= v && v <= MAX_PX as i128 {
        Ok(v as i64)
    } else {
        Err(LayoutError::OutOfRange)
    }
}

fn read_size(v: &Value) -> (r: Result<Option<i64>, LayoutError>)
    ensures
        r == size_of(*v),
{
    match v {
        Value::Length(n, Unit::Px) => {
            if -MAX_PX <= *n && *n <= MAX_PX {
                Ok(Some(*n))
            } else {
                Err(LayoutError::OutOfRange)
            }
        },
        Value::Keyword(_) => {
            if v.auto() {
                Ok(None)
            } else {
                Err(LayoutError::TypeMismatch)
            }
        },
        Value::ColorValue(_) => Err(LayoutError::TypeMismatch),
    }
}

/// Reads a size property with its shorthand as fallback.
fn read_edge(style: &StyledNode, name: &str, fallback: &str) -> (r: Result<Option<i64>, LayoutError>)
    ensures
        r == size_in(style.specified_values@, name@, fallback@),
{
    let zero = Value::Length(0, Unit::Px);
    let v = style.lookup(name, fallback, &zero);
    read_size(&v)
}

fn to_px(s: Option<i64>) -> (r: i64)
    ensures
        r == px(s),
{
    match s {
        Some(n) => n,
        None => 0,
    }
}

/// Solves the width equation of a block box.
pub fn solve_widths(
    width: Option<i64>,
    margin_left: Option<i64>,
    margin_right: Option<i64>,
    fixed: i64,
    cw: i64,
) -> (r: (i128, i128, i128))
    requires
        in_range(px(width)),
        in_range(px(margin_left)),
        in_range(px(margin_right)),
        -4 * MAX_PX <= fixed <= 4 * MAX_PX,
    ensures
        (r.0 as int, r.1 as int, r.2 as int) == solved(
            width,
            margin_left,
            margin_right,
            fixed as int,
            cw as int,
        ),
{
    let mut margin_left = margin_left;
    let mut margin_right = margin_right;
    let total: i64 = to_px(width) + to_px(margin_left) + to_px(margin_right) + fixed;
    // A width that is given and does not fit leaves nothing to hand out.
    if width.is_some() && total > cw {
        if margin_left.is_none() {
            margin_left = Some(0);
        }
        if margin_right.is_none() {
            margin_right = Some(0);
        }
    }
    let underflow: i128 = cw as i128 - total as i128;
    match (width, margin_left, margin_right) {
        // Nothing is free: the right margin gives way.
        (Some(w), Some(l), Some(r)) => (w as i128, l as i128, r as i128 + underflow),
        // Exactly one size is free: it follows from the equation.
        (Some(w), Some(l), None) => (w as i128, l as i128, underflow),
        (Some(w), None, Some(r)) => (w as i128, underflow, r as i128),
        // Both margins are free: they come out equal.
        (Some(w), None, None) => (w as i128, underflow / 2, underflow / 2),
        // The width is free: free margins become zero.
        (None, l, r) => {
            if underflow >= 0 {
                (underflow, to_px(l) as i128, to_px(r) as i128)
            } else {
                // A width cannot be negative: the right margin gives way.
                (0, to_px(l) as i128, to_px(r) as i128 + underflow)
            }
        },
    }
}

/// `d` with the horizontal sizes `h`.
pub open spec fn with_widths(d: Dimensions, h: Widths) -> Dimensions {
    Dimensions {
        content: Rect { width: h.width, ..d.content },
        padding: EdgeSizes { left: h.padding_left, right: h.padding_right, ..d.padding },
        border: EdgeSizes { left: h.border_left, right: h.border_right, ..d.border },
        margin: EdgeSizes { left: h.margin_left, right: h.margin_right, ..d.margin },
    }
}

/// `d` with the vertical edges that the properties `m` give, and with its
/// content area placed in the containing block `c`: to the right of the
/// left edges, and below what `c` holds already.
///
/// The properties are read in the order margins, borders, paddings, top
/// before bottom, and the first that is no size decides the error; `auto`
/// counts as zero. A position beyond `MAX_PX` is out of range.
#[verifier::opaque]
pub open spec fn positioned(m: Map<Seq<char>, Value>, c: Dimensions, d: Dimensions) -> Result<
    Dimensions,
    LayoutError,
> {
    let mt = size_in(m, "margin-top"@, "margin"@);
    let mb = size_in(m, "margin-bottom"@, "margin"@);
    let bt = size_in(m, "border-top-width"@, "border-width"@);
    let bb = size_in(m, "border-bottom-width"@, "border-width"@);
    let pt = size_in(m, "padding-top"@, "padding"@);
    let pb = size_in(m, "padding-bottom"@, "padding"@);
    if mt is Err {
        Err(mt->Err_0)
    } else if mb is Err {
        Err(mb->Err_0)
    } else if bt is Err {
        Err(bt->Err_0)
    } else if bb is Err {
        Err(bb->Err_0)
    } else if pt is Err {
        Err(pt->Err_0)
    } else if pb is Err {
        Err(pb->Err_0)
    } else {
        let x = c.content.x + d.margin.left + d.border.left + d.padding.left;
        let y = c.content.height + c.content.y + px(mt->Ok_0) + px(bt->Ok_0) + px(pt->Ok_0);
        if in_range(x) && in_range(y) {
            Ok(
                Dimensions {
                    content: Rect { x: x as i64, y: y as i64, ..d.content },
                    padding: EdgeSizes {
                        top: px(pt->Ok_0) as i64,
                        bottom: px(pb->Ok_0) as i64,
                        ..d.padding
                    },
                    border: EdgeSizes {
                        top: px(bt->Ok_0) as i64,
                        bottom: px(bb->Ok_0) as i64,
                        ..d.border
                    },
                    margin: EdgeSizes {
                        top: px(mt->Ok_0) as i64,
                        bottom: px(mb->Ok_0) as i64,
                        ..d.margin
                    },
                },
            )
        } else {
            Err(LayoutError::OutOfRange)
        }
    }
}

/// The geometry of a block box with properties `m` in the containing block
/// `c`, before anything is laid out inside it: its content height is zero.
pub open spec fn frame(m: Map<Seq<char>, Value>, c: Dimensions) -> Result<Dimensions, LayoutError> {
    match resolved_widths(m, c.content.width) {
        Ok(h) => positioned(m, c, with_widths(Dimensions::zero(), h)),
        Err(e) => Err(e),
    }
}

/// `d` with its content made higher by the margin box of `child`.
pub open spec fn grown(d: Dimensions, child: Dimensions) -> Result<Dimensions, LayoutError> {
    match fitted(d.content.height + child.outer_height()) {
        Ok(h) => Ok(Dimensions { content: Rect { height: h, ..d.content }, ..d }),
        Err(e) => Err(e),
    }
}

/// `d` with the content height that the property `height` gives where it
/// is a length; `d` itself where it is anything else or missing.
pub open spec fn with_height(m: Map<Seq<char>, Value>, d: Dimensions) -> Result<
    Dimensions,
    LayoutError,
> {
    if m.contains_key("height"@) && m["height"@] is Length {
        match fitted(m["height"@]->Length_0 as int) {
            Ok(h) => Ok(Dimensions { content: Rect { height: h, ..d.content }, ..d }),
            Err(e) => Err(e),
        }
    } else {
        Ok(d)
    }
}

impl<'a> BoxType<'a> {
    /// The properties of the box's styled node; none for an anonymous box.
    pub open spec fn style(&self) -> Map<Seq<char>, Value> {
        match self {
            BoxType::BlockNode(node) => node.specified_values@,
            BoxType::InlineNode(node) => node.specified_values@,
            BoxType::AnonymousBlock => Map::empty(),
        }
    }
}

/// The geometry that laying out `b` in the containing block `c` gives it,
/// or the error that stops the layout.
///
/// A block box gets its frame, then its children are laid out one below the
/// other, then its height is settled. Any other box keeps what it has.
#[verifier::opaque]
pub open spec fn box_dims(b: &LayoutBox, c: Dimensions) -> Result<Dimensions, LayoutError>
    decreases b, 0int,
{
    match b.box_type {
        BoxType::BlockNode(node) => match frame(node.specified_values@, c) {
            Ok(d0) => match flow(b.children@, d0, b.children@.len() as int) {
                Ok(d1) => with_height(node.specified_values@, d1),
                Err(e) => Err(e),
            },
            Err(e) => Err(e),
        },
        _ => Ok(b.dimensions),
    }
}

/// The containing block that child `n` of a box is laid out in: the box's
/// frame `d0`, its content as high as the margin boxes of the children
/// before `n` together.
#[verifier::opaque]
pub open spec fn flow(kids: Seq<LayoutBox>, d0: Dimensions, n: int) -> Result<
    Dimensions,
    LayoutError,
>
    decreases kids, n,
{
    if n <= 0 || n > kids.len() {
        Ok(d0)
    } else {
        match flow(kids, d0, n - 1) {
            Ok(d) => match box_dims(&kids[n - 1], d) {
                Ok(child) => grown(d, child),
                Err(e) => Err(e),
            },
            Err(e) => Err(e),
        }
    }
}

/// Whether `after` is `before` laid out in the containing block `c`: the
/// same tree of boxes, in which a block box has the geometry that
/// `box_dims` gives and each of its children is laid out in the containing
/// block that `flow` gives, and any other box is untouched.
pub open spec fn arranged(after: &LayoutBox, before: &LayoutBox, c: Dimensions) -> bool
    decreases after, 0int,
{
    &&& after.box_type == before.box_type
    &&& after.children@.len() == before.children@.len()
    &&& match before.box_type {
        BoxType::BlockNode(node) => {
            &&& box_dims(before, c) == Ok::<Dimensions, LayoutError>(after.dimensions)
            &&& forall|k: int|
                0 <= k < after.children@.len() ==> child_arranged(
                    &#[trigger] after.children@[k],
                    before.children@,
                    frame(node.specified_values@, c)->Ok_0,
                    k,
                )
        },
        _ => *after == *before,
    }
}

/// Whether `kid` is child `k` of `before` laid out in the containing block
/// that `flow` gives it in the frame `d0`.
pub open spec fn child_arranged(kid: &LayoutBox, before: Seq<LayoutBox>, d0: Dimensions, k: int) -> bool
    decreases kid, 1int,
{
    &&& 0 <= k < before.len()
    &&& flow(before, d0, k) is Ok
    &&& arranged(kid, &before[k], flow(before, d0, k)->Ok_0)
}

/// The first child is laid out in the frame itself.
pub proof fn flow_start(kids: Seq<LayoutBox>, d0: Dimensions)
    ensures
        flow(kids, d0, 0) == Ok::<Dimensions, LayoutError>(d0),
{
    reveal(flow);
}

/// The geometry of a block box: its frame, as high as its children
/// together or as its `height` says.
pub proof fn block_dims(b: &LayoutBox, c: Dimensions)
    requires
        b.box_type is BlockNode,
    ensures
        box_dims(b, c) == match frame(b.box_type.style(), c) {
            Ok(d0) => match flow(b.children@, d0, b.children@.len() as int) {
                Ok(d1) => with_height(b.box_type.style(), d1),
                Err(e) => Err(e),
            },
            Err(e) => Err(e),
        },
{
    reveal(box_dims);
    reveal(flow);
}

/// A box that is no block box keeps its geometry.
pub proof fn other_dims(b: &LayoutBox, c: Dimensions)
    requires
        !(b.box_type is BlockNode),
    ensures
        box_dims(b, c) == Ok::<Dimensions, LayoutError>(b.dimensions),
        arranged(b, b, c),
{
    reveal(box_dims);
}

/// What makes a block box laid out.
pub proof fn block_arranged(after: &LayoutBox, before: &LayoutBox, c: Dimensions)
    requires
        before.box_type is BlockNode,
        after.box_type == before.box_type,
        after.children@.len() == before.children@.len(),
        box_dims(before, c) == Ok::<Dimensions, LayoutError>(after.dimensions),
        forall|k: int|
            0 <= k < after.children@.len() ==> child_arranged(
                &#[trigger] after.children@[k],
                before.children@,
                frame(before.box_type.style(), c)->Ok_0,
                k,
            ),
    ensures
        arranged(after, before, c),
{
}

/// Each child is laid out in the containing block of the one before it,
/// grown by that one's margin box.
pub proof fn flow_step(kids: Seq<LayoutBox>, d0: Dimensions, n: int)
    requires
        0 <= n < kids.len(),
    ensures
        flow(kids, d0, n + 1) == match flow(kids, d0, n) {
            Ok(d) => match box_dims(&kids[n], d) {
                Ok(child) => grown(d, child),
                Err(e) => Err(e),
            },
            Err(e) => Err(e),
        },
{
    reveal(flow);
    reveal(box_dims);
}

/// A laid-out box has the geometry that `box_dims` gives.
pub proof fn arranged_dims(after: &LayoutBox, before: &LayoutBox, c: Dimensions)
    requires
        arranged(after, before, c),
    ensures
        box_dims(before, c) == Ok::<Dimensions, LayoutError>(after.dimensions),
{
    reveal(box_dims);
    reveal(flow);
}

/// Once a child stops the layout, the error is that of the whole row.
pub proof fn flow_error_stays(kids: Seq<LayoutBox>, d0: Dimensions, n: int, m: int)
    requires
        0 <= n <= m <= kids.len(),
        flow(kids, d0, n) is Err,
    ensures
        flow(kids, d0, m) == flow(kids, d0, n),
    decreases m - n,
{
    if n < m {
        flow_error_stays(kids, d0, n, m - 1);
        flow_step(kids, d0, m - 1);
    }
}

impl<'a> LayoutBox<'a> {
    /// A box of the given kind with no children and all geometry zero.
    pub fn new(box_type: BoxType<'a>) -> (b: LayoutBox<'a>)
        ensures
            b.box_type == box_type,
            b.dimensions == Dimensions::zero(),
            b.children@.len() == 0,
    {
        LayoutBox { box_type, dimensions: Dimensions::default(), children: Vec::new() }
    }

    /// The styled node of a block or inline box.
    pub fn get_style_node(&self) -> (node: &'a StyledNode<'a>)
        requires
            !(self.box_type is AnonymousBlock),
        ensures
            self.box_type == BoxType::BlockNode(node) || self.box_type == BoxType::InlineNode(node),
    {
        match self.box_type {
            BoxType::BlockNode(node) => node,
            BoxType::InlineNode(node) => node,
            BoxType::AnonymousBlock => vstd::pervasive::unreached(),
        }
    }

    /// Resolves the width of a block box and its edges to the left and right.
    fn calculate_block_width(&mut self, containing_block: Dimensions) -> (r: Result<
        (),
        LayoutError,
    >)
        requires
            old(self).box_type is BlockNode,
        ensures
            final(self).box_type == old(self).box_type,
            final(self).children == old(self).children,
            match resolved_widths(old(self).box_type.style(), containing_block.content.width) {
                Ok(h) => r is Ok && final(self).dimensions == with_widths(old(self).dimensions, h),
                Err(e) => r == Err::<(), LayoutError>(e),
            },
    {
        proof {
            reveal(resolved_widths);
        }
        let style = self.get_style_node();

        // `width` has initial value `auto`.
        let width = match style.value("width") {
            Some(v) => read_size(&v)?,
            None => None,
        };

        // margin, border, and padding have initial value 0.
        let margin_left = read_edge(style, "margin-left", "margin")?;
        let margin_right = read_edge(style, "margin-right", "margin")?;

        let border_left = to_px(read_edge(style, "border-left-width", "border-width")?);
        let border_right = to_px(read_edge(style, "border-right-width", "border-width")?);

        let padding_left = to_px(read_edge(style, "padding-left", "padding")?);
        let padding_right = to_px(read_edge(style, "padding-right", "padding")?);

        let fixed: i64 = border_left + border_right + padding_left + padding_right;
        let solved = solve_widths(
            width,
            margin_left,
            margin_right,
            fixed,
            containing_block.content.width,
        );
        let w = fit(solved.0);
        let l = fit(solved.1);
        let r = fit(solved.2);
        match (w, l, r) {
            (Ok(w), Ok(l), Ok(r)) => {
                self.dimensions.content.width = w;

                self.dimensions.padding.left = padding_left;
                self.dimensions.padding.right = padding_right;

                self.dimensions.border.left = border_left;
                self.dimensions.border.right = border_right;

                self.dimensions.margin.left = l;
                self.dimensions.margin.right = r;
                Ok(())
            },
            _ => Err(LayoutError::OutOfRange),
        }
    }

    /// Settles the vertical edges of a block box and places its content
    /// area in the containing block.
    fn calculate_block_position(&mut self, containing_block: Dimensions) -> (r: Result<
        (),
        LayoutError,
    >)
        requires
            old(self).box_type is BlockNode,
        ensures
            final(self).box_type == old(self).box_type,
            final(self).children == old(self).children,
            match positioned(old(self).box_type.style(), containing_block, old(self).dimensions) {
                Ok(d) => r is Ok && final(self).dimensions == d,
                Err(e) => r == Err::<(), LayoutError>(e),
            },
    {
        proof {
            reveal(positioned);
        }
        let style = self.get_style_node();

        // If margin-top or margin-bottom is `auto`, the used value is zero.
        let margin_top = to_px(read_edge(style, "margin-top", "margin")?);
        let margin_bottom = to_px(read_edge(style, "margin-bottom", "margin")?);

        let border_top = to_px(read_edge(style, "border-top-width", "border-width")?);
        let border_bottom = to_px(read_edge(style, "border-bottom-width", "border-width")?);

        let padding_top = to_px(read_edge(style, "padding-top", "padding")?);
        let padding_bottom = to_px(read_edge(style, "padding-bottom", "padding")?);

        let d = self.dimensions;
        let x = fit(
            containing_block.content.x as i128 + d.margin.left as i128 + d.border.left as i128
                + d.padding.left as i128,
        );

        // Position the box below all the previous boxes in the container.
        let y = fit(
            containing_block.content.height as i128 + containing_block.content.y as i128
                + margin_top as i128 + border_top as i128 + padding_top as i128,
        );
        match (x, y) {
            (Ok(x), Ok(y)) => {
                self.dimensions.margin.top = margin_top;
                self.dimensions.margin.bottom = margin_bottom;
                self.dimensions.border.top = border_top;
                self.dimensions.border.bottom = border_bottom;
                self.dimensions.padding.top = padding_top;
                self.dimensions.padding.bottom = padding_bottom;
                self.dimensions.content.x = x;
                self.dimensions.content.y = y;
                Ok(())
            },
            _ => Err(LayoutError::OutOfRange),
        }
    }

    /// Gives the box the height that its `height` property states, where
    /// that is a length; else the box keeps the height of what it holds.
    fn calculate_block_height(&mut self) -> (r: Result<(), LayoutError>)
        requires
            old(self).box_type is BlockNode,
        ensures
            final(self).box_type == old(self).box_type,
            final(self).children == old(self).children,
            match with_height(old(self).box_type.style(), old(self).dimensions) {
                Ok(d) => r is Ok && final(self).dimensions == d,
                Err(e) => r == Err::<(), LayoutError>(e),
            },
    {
        match self.get_style_node().value("height") {
            Some(Value::Length(h, Unit::Px)) => {
                let h = fit(h as i128)?;
                self.dimensions.content.height = h;
            },
            _ => {},
        }
        Ok(())
    }
}

/// The height of the margin box of `d`.
fn margin_box_height(d: Dimensions) -> (h: i128)
    ensures
        h == d.outer_height(),
{
    d.content.height as i128 + d.padding.top as i128 + d.padding.bottom as i128
        + d.border.top as i128 + d.border.bottom as i128 + d.margin.top as i128
        + d.margin.bottom as i128
}

impl<'a> LayoutBox<'a> {
    /// Lays out the box and all boxes inside it in the containing block.
    ///
    /// Only a block box gets geometry: an inline or anonymous box, and what
    /// is inside it, stays as it is. The layout stops at the first property
    /// that is no size and at the first number out of range; the tree is
    /// then left half done.
    pub fn layout(&mut self, containing_block: Dimensions) -> (r: Result<(), LayoutError>)
        ensures
            match box_dims(old(self), containing_block) {
                Ok(d) => r is Ok && arranged(final(self), old(self), containing_block),
                Err(e) => r == Err::<(), LayoutError>(e),
            },
        decreases old(self).children, 2int,
    {
        proof {
            if !(self.box_type is BlockNode) {
                other_dims(self, containing_block);
            }
        }
        match self.box_type {
            BoxType::BlockNode(_) => self.layout_block(containing_block),
            BoxType::InlineNode(_) => Ok(()),
            BoxType::AnonymousBlock => Ok(()),
        }
    }

    /// Lays out a block box: width, position, children, height, in that
    /// order, since a child's width hangs on its parent's and a parent's
    /// height on its children's.
    fn layout_block(&mut self, containing_block: Dimensions) -> (r: Result<(), LayoutError>)
        requires
            old(self).box_type is BlockNode,
        ensures
            match box_dims(old(self), containing_block) {
                Ok(d) => r is Ok && arranged(final(self), old(self), containing_block),
                Err(e) => r == Err::<(), LayoutError>(e),
            },
        decreases old(self).children, 1int,
    {
        proof {
            block_dims(self, containing_block);
        }
        self.dimensions = Dimensions::default();
        match self.calculate_block_width(containing_block) {
            Ok(()) => {},
            Err(e) => {
                return Err(e);
            },
        }
        match self.calculate_block_position(containing_block) {
            Ok(()) => {},
            Err(e) => {
                return Err(e);
            },
        }
        match self.layout_block_children() {
            Ok(()) => {},
            Err(e) => {
                return Err(e);
            },
        }
        match self.calculate_block_height() {
            Ok(()) => {},
            Err(e) => {
                return Err(e);
            },
        }
        proof {
            block_arranged(self, old(self), containing_block);
        }
        Ok(())
    }

    /// Lays out the children one below the other, and makes the content of
    /// the box as high as their margin boxes together.
    fn layout_block_children(&mut self) -> (r: Result<(), LayoutError>)
        ensures
            final(self).box_type == old(self).box_type,
            match flow(old(self).children@, old(self).dimensions, old(self).children@.len() as int) {
                Ok(d) => {
                    &&& r is Ok
                    &&& final(self).dimensions == d
                    &&& final(self).children@.len() == old(self).children@.len()
                    &&& forall|k: int|
                        #![trigger final(self).children@[k]]
                        0 <= k < old(self).children@.len() ==> child_arranged(
                            &final(self).children@[k],
                            old(self).children@,
                            old(self).dimensions,
                            k,
                        )
                },
                Err(e) => r == Err::<(), LayoutError>(e),
            },
        decreases old(self).children, 0int,
    {
        let ghost kids = self.children@;
        let ghost d0 = self.dimensions;
        let n = self.children.len();
        let mut i: usize = 0;
        proof {
            flow_start(kids, d0);
        }
        while i < n
            invariant
                i <= n,
                n == kids.len(),
                kids == old(self).children@,
                d0 == old(self).dimensions,
                self.box_type == old(self).box_type,
                self.children@.len() == n,
                flow(kids, d0, i as int) == Ok::<Dimensions, LayoutError>(self.dimensions),
                forall|k: int|
                    0 <= k < i ==> #[trigger] child_arranged(&self.children@[k], kids, d0, k),
                forall|k: int| i <= k < n ==> self.children@[k] == kids[k],
            decreases n - i,
        {
            let d = self.dimensions;
            let ghost before = self.children@;
            proof {
                flow_step(kids, d0, i as int);
                assert(before[i as int] == kids[i as int]);
            }
            match self.children[i].layout(d) {
                Ok(()) => {
                    proof {
                        assert(self.children@ == before.update(i as int, self.children@[i as int]));
                        arranged_dims(&self.children@[i as int], &kids[i as int], d);
                        assert forall|k: int| 0 <= k < i + 1 implies #[trigger] child_arranged(
                            &self.children@[k],
                            kids,
                            d0,
                            k,
                        ) by {
                            if k < i {
                                assert(child_arranged(&before[k], kids, d0, k));
                                assert(self.children@[k] == before[k]);
                            }
                        }
                    }
                },
                Err(e) => {
                    proof {
                        flow_error_stays(kids, d0, i + 1, n as int);
                    }
                    return Err(e);
                },
            }
            // Each child goes below the one before it.
            let h = fit(d.content.height as i128 + margin_box_height(self.children[i].dimensions));
            match h {
                Ok(h) => {
                    self.dimensions.content.height = h;
                },
                Err(e) => {
                    proof {
                        flow_error_stays(kids, d0, i + 1, n as int);
                    }
                    return Err(e);
                },
            }
            i = i + 1;
        }
        Ok(())
    }
}

/// The sizes of a block box fill its containing block: width, margins,
/// borders and paddings add up to the containing width. Only two `auto`
/// margins may leave one pixel over, since they are equal and whole.
pub proof fn sizes_fill_the_container(
    width: Option<i64>,
    margin_left: Option<i64>,
    margin_right: Option<i64>,
    fixed: int,
    cw: int,
)
    ensures
        ({
            let s = solved(width, margin_left, margin_right, fixed, cw);
            let sum = s.0 + s.1 + s.2 + fixed;
            if width is Some && margin_left is None && margin_right is None && px(width) + fixed
                <= cw {
                s.1 == s.2 && sum <= cw <= sum + 1
            } else {
                sum == cw
            }
        }),
{
}

/// An `auto` right margin beside a given width and left margin that fit
/// takes what is left of the containing width.
pub proof fn auto_right_margin_takes_the_rest(
    width: i64,
    margin_left: i64,
    fixed: int,
    cw: int,
)
    requires
        width + margin_left + fixed <= cw,
    ensures
        solved(Some(width), Some(margin_left), None, fixed, cw) == (
            width as int,
            margin_left as int,
            cw - (width + margin_left + fixed),
        ),
{
}

/// An `auto` width takes what the margins, borders and paddings leave of
/// the containing width, with `auto` margins zero. Where they leave less
/// than nothing, the width is zero and the right margin is short by what
/// is missing.
pub proof fn auto_width_takes_the_rest(
    margin_left: Option<i64>,
    margin_right: Option<i64>,
    fixed: int,
    cw: int,
)
    ensures
        ({
            let rest = cw - (px(margin_left) + px(margin_right) + fixed);
            solved(None, margin_left, margin_right, fixed, cw) == (if rest >= 0 {
                (rest, px(margin_left), px(margin_right))
            } else {
                (0int, px(margin_left), px(margin_right) + rest)
            })
        }),
{
}

/// Laying out children changes nothing of a frame but its content height.
pub proof fn flow_keeps_frame(kids: Seq<LayoutBox>, d0: Dimensions, n: int)
    requires
        0 <= n <= kids.len(),
        flow(kids, d0, n) is Ok,
    ensures
        flow(kids, d0, n)->Ok_0 == (Dimensions {
            content: Rect { height: flow(kids, d0, n)->Ok_0.content.height, ..d0.content },
            ..d0
        }),
    decreases n,
{
    if n == 0 {
        flow_start(kids, d0);
    } else {
        flow_step(kids, d0, n - 1);
        flow_keeps_frame(kids, d0, n - 1);
    }
}

/// Where the layout of a row gets as far as child `m`, it got as far as
/// each child before it.
pub proof fn flow_reached(kids: Seq<LayoutBox>, d0: Dimensions, n: int, m: int)
    requires
        0 <= n <= m <= kids.len(),
        flow(kids, d0, m) is Ok,
    ensures
        flow(kids, d0, n) is Ok,
{
    if flow(kids, d0, n) is Err {
        flow_error_stays(kids, d0, n, m);
    }
}

/// Width resolution is a function of the style and the containing width:
/// two block boxes with the same properties, laid out in containing blocks
/// of the same width, get the same width, margins, borders and paddings to
/// the left and right, namely those of `resolved_widths`.
pub proof fn widths_follow_style_and_container(
    a: &LayoutBox,
    b: &LayoutBox,
    ca: Dimensions,
    cb: Dimensions,
)
    requires
        a.box_type is BlockNode,
        b.box_type is BlockNode,
        a.box_type.style() == b.box_type.style(),
        ca.content.width == cb.content.width,
        box_dims(a, ca) is Ok,
        box_dims(b, cb) is Ok,
    ensures
        resolved_widths(a.box_type.style(), ca.content.width) is Ok,
        box_dims(a, ca)->Ok_0 == with_widths(
            box_dims(a, ca)->Ok_0,
            resolved_widths(a.box_type.style(), ca.content.width)->Ok_0,
        ),
        box_dims(b, cb)->Ok_0 == with_widths(
            box_dims(b, cb)->Ok_0,
            resolved_widths(a.box_type.style(), ca.content.width)->Ok_0,
        ),
{
    reveal(positioned);
    block_dims(a, ca);
    block_dims(b, cb);
    let fa = frame(a.box_type.style(), ca)->Ok_0;
    let fb = frame(b.box_type.style(), cb)->Ok_0;
    flow_keeps_frame(a.children@, fa, a.children@.len() as int);
    flow_keeps_frame(b.children@, fb, b.children@.len() as int);
}

/// Children stack: in a block box that is laid out, child `k` is laid out
/// in the box's frame made as high as the margin boxes of the children
/// before it together; a block child's content starts that far below the
/// top of the frame's content, after its own top margin, border and
/// padding; and the child's margin box adds to the height for the next.
pub proof fn children_stack(b: &LayoutBox, c: Dimensions, k: int)
    requires
        b.box_type is BlockNode,
        box_dims(b, c) is Ok,
        0 <= k < b.children@.len(),
    ensures
        ({
            let d0 = frame(b.box_type.style(), c);
            let here = flow(b.children@, d0->Ok_0, k);
            let next = flow(b.children@, d0->Ok_0, k + 1);
            let kid = box_dims(&b.children@[k], here->Ok_0);
            &&& d0 is Ok && here is Ok && next is Ok && kid is Ok
            &&& flow(b.children@, d0->Ok_0, 0)->Ok_0.content.height == 0
            &&& here->Ok_0.content.y == box_dims(b, c)->Ok_0.content.y
            &&& next->Ok_0.content.height == here->Ok_0.content.height + kid->Ok_0.outer_height()
            &&& b.children@[k].box_type is BlockNode ==> kid->Ok_0.content.y
                == here->Ok_0.content.y + here->Ok_0.content.height + kid->Ok_0.margin.top
                + kid->Ok_0.border.top + kid->Ok_0.padding.top
        }),
{
    reveal(positioned);
    block_dims(b, c);
    let kids = b.children@;
    let d0 = frame(b.box_type.style(), c)->Ok_0;
    let n = kids.len() as int;
    flow_reached(kids, d0, k, n);
    flow_reached(kids, d0, k + 1, n);
    flow_step(kids, d0, k);
    flow_start(kids, d0);
    flow_keeps_frame(kids, d0, k);
    flow_keeps_frame(kids, d0, n);
    let here = flow(kids, d0, k)->Ok_0;
    let kid = &kids[k];
    if kid.box_type is BlockNode {
        block_dims(kid, here);
        let f = frame(kid.box_type.style(), here)->Ok_0;
        flow_keeps_frame(kid.children@, f, kid.children@.len() as int);
    }
}

/// The content of a block box without a `height` that is a length is as
/// high as the margin boxes of its children together.
pub proof fn height_holds_the_children(b: &LayoutBox, c: Dimensions)
    requires
        b.box_type is BlockNode,
        box_dims(b, c) is Ok,
        !(b.box_type.style().contains_key("height"@) && b.box_type.style()["height"@] is Length),
    ensures
        ({
            let d0 = frame(b.box_type.style(), c);
            let end = flow(b.children@, d0->Ok_0, b.children@.len() as int);
            d0 is Ok && end is Ok && box_dims(b, c)->Ok_0 == end->Ok_0
        }),
{
    block_dims(b, c);
}

/// A box that is laid out has every number in range.
pub proof fn block_geometry_in_range(b: &LayoutBox, c: Dimensions)
    requires
        b.box_type is BlockNode,
        box_dims(b, c) is Ok,
    ensures
        box_dims(b, c)->Ok_0.bounded(),
{
    reveal(positioned);
    reveal(resolved_widths);
    block_dims(b, c);
    let d0 = frame(b.box_type.style(), c)->Ok_0;
    flow_keeps_frame(b.children@, d0, b.children@.len() as int);
    if b.children@.len() > 0 {
        let n = b.children@.len() as int;
        flow_step(b.children@, d0, n - 1);
        flow_reached(b.children@, d0, n - 1, n);
    } else {
        flow_start(b.children@, d0);
    }
}

} // verus!
