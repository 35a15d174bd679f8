//! Rectangles, edge sizes and the box model, in whole pixels.

use vstd::prelude::*;

verus! {

/// The largest magnitude a coordinate or a size may have.
pub const MAX_PX: i64 = 0x100_0000_0000;

/// Whether `v` is a coordinate or size that a box may have.
pub open spec fn in_range(v: int) -> bool {
    -MAX_PX <= v <= MAX_PX
}

#[derive(Clone, Copy, Debug, PartialEq, Eq, Structural)]
pub struct Rect {
    pub x: i64,
    pub y: i64,
    pub width: i64,
    pub height: i64,
}

#[derive(Clone, Copy, Debug, PartialEq, Eq, Structural)]
pub struct EdgeSizes {
    pub left: i64,
    pub right: i64,
    pub top: i64,
    pub bottom: i64,
}

/// The box model of one box: the content area, placed relative to the
/// document origin, and the edges around it.
#[derive(Clone, Copy, Debug, PartialEq, Eq, Structural)]
pub struct Dimensions {
    pub content: Rect,
    pub padding: EdgeSizes,
    pub border: EdgeSizes,
    pub margin: EdgeSizes,
}

impl Default for Rect {
    fn default() -> (r: Rect)
        ensures
            r == (Rect { x: 0, y: 0, width: 0, height: 0 }),
    {
        Rect { x: 0, y: 0, width: 0, height: 0 }
    }
}

impl Default for EdgeSizes {
    fn default() -> (r: EdgeSizes)
        ensures
            r == (EdgeSizes { left: 0, right: 0, top: 0, bottom: 0 }),
    {
        EdgeSizes { left: 0, right: 0, top: 0, bottom: 0 }
    }
}

impl Default for Dimensions {
    fn default() -> (r: Dimensions)
        ensures
            r == Dimensions::zero(),
    {
        Dimensions {
            content: Rect { x: 0, y: 0, width: 0, height: 0 },
            padding: EdgeSizes { left: 0, right: 0, top: 0, bottom: 0 },
            border: EdgeSizes { left: 0, right: 0, top: 0, bottom: 0 },
            margin: EdgeSizes { left: 0, right: 0, top: 0, bottom: 0 },
        }
    }
}

impl EdgeSizes {
    pub open spec fn bounded(&self) -> bool {
        in_range(self.left as int) && in_range(self.right as int) && in_range(self.top as int)
            && in_range(self.bottom as int)
    }
}

impl Rect {
    pub open spec fn bounded(&self) -> bool {
        in_range(self.x as int) && in_range(self.y as int) && in_range(self.width as int)
            && in_range(self.height as int)
    }

    /// The rectangle grown outward by `edge` on each side.
    pub open spec fn grown_by(&self, edge: EdgeSizes) -> (int, int, int, int) {
        (
            self.x - edge.left,
            self.y - edge.top,
            self.width + edge.left + edge.right,
            self.height + edge.top + edge.bottom,
        )
    }

    /// Whether the rectangle's four numbers are `t`'s.
    pub open spec fn spans(&self, t: (int, int, int, int)) -> bool {
        self.x == t.0 && self.y == t.1 && self.width == t.2 && self.height == t.3
    }

    /// The rectangle grown outward by `edge` on each side. The rectangle may
    /// be a box already grown by in-range edges twice.
    pub fn expanded_by(self, edge: EdgeSizes) -> (r: Rect)
        requires
            -4 * MAX_PX <= self.x <= 4 * MAX_PX,
            -4 * MAX_PX <= self.y <= 4 * MAX_PX,
            -8 * MAX_PX <= self.width <= 8 * MAX_PX,
            -8 * MAX_PX <= self.height <= 8 * MAX_PX,
            edge.bounded(),
        ensures
            r.spans(self.grown_by(edge)),
    {
        Rect {
            x: self.x - edge.left,
            y: self.y - edge.top,
            width: self.width + edge.left + edge.right,
            height: self.height + edge.top + edge.bottom,
        }
    }
}

impl Dimensions {
    /// All rectangles and edges zero.
    pub open spec fn zero() -> Dimensions {
        Dimensions {
            content: Rect { x: 0, y: 0, width: 0, height: 0 },
            padding: EdgeSizes { left: 0, right: 0, top: 0, bottom: 0 },
            border: EdgeSizes { left: 0, right: 0, top: 0, bottom: 0 },
            margin: EdgeSizes { left: 0, right: 0, top: 0, bottom: 0 },
        }
    }

    /// Every number of the box is a coordinate or size that a box may have.
    pub open spec fn bounded(&self) -> bool {
        self.content.bounded() && self.padding.bounded() && self.border.bounded()
            && self.margin.bounded()
    }

    /// The height of the margin box.
    pub open spec fn outer_height(&self) -> int {
        self.content.height + self.padding.top + self.padding.bottom + self.border.top
            + self.border.bottom + self.margin.top + self.margin.bottom
    }

    /// The width of the margin box.
    pub open spec fn outer_width(&self) -> int {
        self.content.width + self.padding.left + self.padding.right + self.border.left
            + self.border.right + self.margin.left + self.margin.right
    }

    /// The content area plus its padding.
    pub fn padding_box(self) -> (r: Rect)
        requires
            self.bounded(),
        ensures
            r.spans(self.content.grown_by(self.padding)),
    {
        self.content.expanded_by(self.padding)
    }

    /// The content area plus padding and borders.
    pub fn border_box(self) -> (r: Rect)
        requires
            self.bounded(),
        ensures
            r.x == self.content.x - self.padding.left - self.border.left,
            r.y == self.content.y - self.padding.top - self.border.top,
            r.width == self.content.width + self.padding.left + self.padding.right
                + self.border.left + self.border.right,
            r.height == self.content.height + self.padding.top + self.padding.bottom
                + self.border.top + self.border.bottom,
    {
        self.padding_box().expanded_by(self.border)
    }

    /// The content area plus padding, borders and margin.
    pub fn margin_box(self) -> (r: Rect)
        requires
            self.bounded(),
        ensures
            r.x == self.content.x - self.padding.left - self.border.left - self.margin.left,
            r.y == self.content.y - self.padding.top - self.border.top - self.margin.top,
            r.width == self.outer_width(),
            r.height == self.outer_height(),
    {
        self.border_box().expanded_by(self.margin)
    }
}

} // verus!
