//! A grid of pixels and the filling of rectangles in it.

use vstd::prelude::*;
use crate::css::Color;
use crate::geometry::Rect;
use crate::layout::LayoutBox;
use crate::painting::{all_bounded, build_display_list, commands, DisplayCommand};

verus! {

/// Rows of pixels, the top row first.
pub struct Canvas {
    pub pixels: Vec<Color>,
    pub width: usize,
    pub height: usize,
}

pub open spec fn white() -> Color {
    Color { r: 255, g: 255, b: 255, a: 255 }
}

/// Whether the rectangle covers the pixel in column `x` of row `y`.
pub open spec fn covers(rect: Rect, x: int, y: int) -> bool {
    rect.x <= x < rect.x + rect.width && rect.y <= y < rect.y + rect.height
}

/// The colour of a pixel after the commands of `list` are drawn in order
/// on white: that of the last rectangle that covers it.
pub open spec fn painted(list: Seq<DisplayCommand>, x: int, y: int) -> Color
    decreases list.len(),
{
    if list.len() == 0 {
        white()
    } else {
        match list.last() {
            DisplayCommand::SolidColor(color, rect) => if covers(rect, x, y) {
                color
            } else {
                painted(list.drop_last(), x, y)
            },
        }
    }
}

/// Each pixel of a grid has an index of its own, inside the grid.
pub proof fn cells_are_apart(x: int, y: int, px: int, py: int, w: int, h: int)
    requires
        0 <= x < w,
        0 <= px < w,
        0 <= y < h,
        0 <= py < h,
    ensures
        0 <= x + y * w < w * h,
        0 <= y * w <= w * h,
        x + y * w == px + py * w ==> x == px && y == py,
{
    assert(0 <= x + y * w < w * h && 0 <= y * w <= w * h) by (nonlinear_arith)
        requires
            0 <= x < w,
            0 <= y < h,
    ;
    assert(x + y * w == px + py * w ==> y == py) by (nonlinear_arith)
        requires
            0 <= x < w,
            0 <= px < w,
            0 <= y,
            0 <= py,
    ;
}

/// `v`, but at least 0 and at most `limit`.
fn clamp(v: i128, limit: usize) -> (r: usize)
    ensures
        r == (if v < 0 { 0int } else if v > limit { limit as int } else { v as int }),
{
    if v < 0 {
        0
    } else if v > limit as i128 {
        limit
    } else {
        v as usize
    }
}

impl Canvas {
    /// The grid holds `width` times `height` pixels.
    pub open spec fn wf(&self) -> bool {
        self.pixels@.len() == self.width * self.height
    }

    /// The pixel in column `x` of row `y`.
    pub open spec fn at(&self, x: int, y: int) -> Color {
        self.pixels@[x + y * self.width]
    }

    /// A white canvas.
    pub fn new(width: usize, height: usize) -> (c: Canvas)
        requires
            width * height <= usize::MAX,
        ensures
            c.wf(),
            c.width == width,
            c.height == height,
            forall|i: int| 0 <= i < c.pixels@.len() ==> c.pixels@[i] == white(),
    {
        let white = Color { r: 255, g: 255, b: 255, a: 255 };
        let n: usize = width * height;
        let mut pixels: Vec<Color> = Vec::new();
        let mut i: usize = 0;
        while i < n
            invariant
                i <= n,
                pixels@.len() == i,
                white == self::white(),
                forall|k: int| 0 <= k < i ==> pixels@[k] == self::white(),
            decreases n - i,
        {
            pixels.push(white);
            i = i + 1;
        }
        Canvas { pixels, width, height }
    }

    /// Fills the part of a rectangle that lies on the canvas.
    pub fn paint_item(&mut self, item: &DisplayCommand)
        requires
            old(self).wf(),
        ensures
            final(self).wf(),
            final(self).width == old(self).width,
            final(self).height == old(self).height,
            forall|x: int, y: int|
                0 <= x < old(self).width && 0 <= y < old(self).height ==> #[trigger] final(self).at(
                    x,
                    y,
                ) == (match *item {
                    DisplayCommand::SolidColor(color, rect) => if covers(rect, x, y) {
                        color
                    } else {
                        old(self).at(x, y)
                    },
                }),
    {
        match item {
            DisplayCommand::SolidColor(color, rect) => {
                // Clip the rectangle to the canvas boundaries.
                let x0 = clamp(rect.x as i128, self.width);
                let y0 = clamp(rect.y as i128, self.height);
                let x1 = clamp(rect.x as i128 + rect.width as i128, self.width);
                let y1 = clamp(rect.y as i128 + rect.height as i128, self.height);
                let w = self.width;
                let h = self.height;

                let mut y: usize = y0;
                while y < y1
                    invariant
                        self.wf(),
                        self.width == w,
                        self.height == h,
                        w == old(self).width,
                        h == old(self).height,
                        y1 <= h,
                        x1 <= w,
                        y0 <= y,
                        y0 <= y1 ==> y <= y1,
                        y0 > y1 ==> y == y0,
                        forall|px: int, py: int|
                            0 <= px < w && 0 <= py < h ==> #[trigger] self.at(px, py) == (if x0
                                <= px < x1 && y0 <= py < y {
                                *color
                            } else {
                                old(self).at(px, py)
                            }),
                    decreases y1 - y,
                {
                    let mut x: usize = x0;
                    while x < x1
                        invariant
                            self.wf(),
                            self.width == w,
                            self.height == h,
                            w == old(self).width,
                            h == old(self).height,
                            y < y1 <= h,
                            x1 <= w,
                            x0 <= x,
                            y0 <= y,
                            x0 <= x1 ==> x <= x1,
                            x0 > x1 ==> x == x0,
                            forall|px: int, py: int|
                                0 <= px < w && 0 <= py < h ==> #[trigger] self.at(px, py) == (if (
                                x0 <= px < x1 && y0 <= py < y) || (py == y && x0 <= px < x) {
                                    *color
                                } else {
                                    old(self).at(px, py)
                                }),
                        decreases x1 - x,
                    {
                        proof {
                            cells_are_apart(x as int, y as int, x as int, y as int, w as int, h as int);
                            assert(w * h == self.pixels@.len());
                            assert(self.pixels@.len() == self.pixels.len());
                            assert(0 <= y * w <= usize::MAX);
                            assert(0 <= x + y * w < self.pixels@.len());
                        }
                        let ghost before = self.pixels@;
                        let ghost prev = *self;
                        let idx: usize = x + y * w;
                        self.pixels.set(idx, *color);
                        proof {
                            assert forall|px: int, py: int| 0 <= px < w && 0 <= py < h implies (
                            #[trigger] self.at(px, py)) == (if (x0 <= px < x1 && y0 <= py < y) || (py
                                == y && x0 <= px < x + 1) {
                                *color
                            } else {
                                old(self).at(px, py)
                            }) by {
                                cells_are_apart(x as int, y as int, px, py, w as int, h as int);
                                cells_are_apart(px, py, x as int, y as int, w as int, h as int);
                                assert(prev.at(px, py) == before[px + py * w]);
                                if px + py * w != idx {
                                    assert(self.pixels@[px + py * w] == before[px + py * w]);
                                }
                            }
                        }
                        x = x + 1;
                    }
                    y = y + 1;
                }
            },
        }
    }
}

/// Draws a tree of boxes on a white canvas as wide and high as `bounds`.
pub fn paint(layout_root: &LayoutBox, bounds: Rect) -> (canvas: Canvas)
    requires
        all_bounded(layout_root),
        (if bounds.width < 0 { 0 } else { bounds.width as int }) * (if bounds.height < 0 {
            0
        } else {
            bounds.height as int
        }) <= usize::MAX,
        bounds.width <= usize::MAX,
        bounds.height <= usize::MAX,
    ensures
        canvas.wf(),
        canvas.width == (if bounds.width < 0 { 0 } else { bounds.width as int }),
        canvas.height == (if bounds.height < 0 { 0 } else { bounds.height as int }),
        forall|x: int, y: int|
            0 <= x < canvas.width && 0 <= y < canvas.height ==> #[trigger] canvas.at(x, y)
                == painted(commands(layout_root), x, y),
{
    let display_list = build_display_list(layout_root);
    let width: usize = if bounds.width < 0 { 0 } else { bounds.width as usize };
    let height: usize = if bounds.height < 0 { 0 } else { bounds.height as usize };
    let mut canvas = Canvas::new(width, height);
    let mut i: usize = 0;
    proof {
        assert forall|x: int, y: int| 0 <= x < width && 0 <= y < height implies #[trigger] canvas.at(
            x,
            y,
        ) == painted(display_list@.take(0), x, y) by {
            cells_are_apart(x, y, x, y, width as int, height as int);
        }
    }
    while i < display_list.len()
        invariant
            i <= display_list@.len(),
            canvas.wf(),
            canvas.width == width,
            canvas.height == height,
            forall|x: int, y: int|
                0 <= x < width && 0 <= y < height ==> #[trigger] canvas.at(x, y) == painted(
                    display_list@.take(i as int),
                    x,
                    y,
                ),
        decreases display_list@.len() - i,
    {
        proof {
            assert(display_list@.take(i + 1).drop_last() == display_list@.take(i as int));
            assert(display_list@.take(i + 1).last() == display_list@[i as int]);
        }
        canvas.paint_item(&display_list[i]);
        i = i + 1;
    }
    proof {
        assert(display_list@.take(i as int) == display_list@);
    }
    canvas
}

} // verus!
