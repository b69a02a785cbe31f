//! Rectangles, and which pixels they cover.
use vstd::prelude::*;

use crate::num;

verus! {

/// A rectangle in whatever space the caller is working in. Screen
/// coordinates everywhere this crate is used, but nothing here depends on
/// that.
#[derive(Debug, Clone, Copy, PartialEq, Eq, Structural)]
pub struct Rect {
    pub x: i32,
    pub y: i32,
    pub w: i32,
    pub h: i32,
}

impl Rect {
    /// The right edge, exclusive, held to the range of the coordinates.
    pub open spec fn right(self) -> int {
        num::sat_add(self.x as int, self.w as int)
    }

    /// The bottom edge, exclusive, held to the range of the coordinates.
    pub open spec fn bottom(self) -> int {
        num::sat_add(self.y as int, self.h as int)
    }

    /// Half-open: a pixel on the right or bottom edge is *not* inside. A
    /// rectangle of negative width or height holds no pixel.
    pub open spec fn covers(self, px: int, py: int) -> bool {
        self.x <= px < self.right() && self.y <= py < self.bottom()
    }

    /// Width times height, the sign of a negative side included.
    pub open spec fn size(self) -> int {
        self.w * self.h
    }

    /// The horizontal middle, rounded towards the left edge.
    pub open spec fn middle_x(self) -> int {
        self.x + num::half(self.w as int)
    }

    /// The vertical middle, rounded towards the top edge.
    pub open spec fn middle_y(self) -> int {
        self.y + num::half(self.h as int)
    }

    /// The last column inside; the first one where there is none.
    pub open spec fn last_x(self) -> int {
        self.x + num::larger(self.w - 1, 0)
    }

    /// The last row inside; the first one where there is none.
    pub open spec fn last_y(self) -> int {
        self.y + num::larger(self.h - 1, 0)
    }

    /// Whether the last column and row are coordinates.
    pub open spec fn ends_fit(self) -> bool {
        num::fits(self.last_x()) && num::fits(self.last_y())
    }

    /// Whether a point lies between the first and last column and row.
    pub open spec fn confines(self, x: int, y: int) -> bool {
        self.x <= x <= self.last_x() && self.y <= y <= self.last_y()
    }

    /// The point, moved inside along each axis. The far edge is inside, not
    /// one past it.
    pub(crate) fn confine(&self, x: i64, y: i64) -> (p: (i32, i32))
        requires
            self.ends_fit(),
        ensures
            p.0 == num::clamped(x as int, self.x as int, self.last_x()),
            p.1 == num::clamped(y as int, self.y as int, self.last_y()),
            self.confines(p.0 as int, p.1 as int),
    {
        let last_x: i64 = self.x as i64 + if self.w > 0 {
            self.w as i64 - 1
        } else {
            0
        };
        let last_y: i64 = self.y as i64 + if self.h > 0 {
            self.h as i64 - 1
        } else {
            0
        };
        (
            num::clamp_wide(x, self.x as i64, last_x) as i32,
            num::clamp_wide(y, self.y as i64, last_y) as i32,
        )
    }

    pub fn new(x: i32, y: i32, w: i32, h: i32) -> (r: Self)
        ensures
            r == (Rect { x, y, w, h }),
    {
        Rect { x, y, w, h }
    }

    pub fn centre(&self) -> (c: (i32, i32))
        requires
            num::fits(self.middle_x()),
            num::fits(self.middle_y()),
        ensures
            c.0 == self.middle_x(),
            c.1 == self.middle_y(),
    {
        (self.x + self.w / 2, self.y + self.h / 2)
    }

    pub fn area(&self) -> (a: i64)
        ensures
            a == self.size(),
    {
        proof {
            let (w, h) = (self.w as int, self.h as int);
            assert(-0x4000_0000_0000_0000 <= w * h <= 0x4000_0000_0000_0000) by (nonlinear_arith)
                requires
                    -0x8000_0000 <= w <= 0x7fff_ffff,
                    -0x8000_0000 <= h <= 0x7fff_ffff,
            ;
        }
        self.w as i64 * self.h as i64
    }
}

/// Some rectangle of `rects` covers the pixel.
pub open spec fn covered(rects: Seq<Rect>, px: int, py: int) -> bool {
    exists|i: int| 0 <= i < rects.len() && (#[trigger] rects[i]).covers(px, py)
}

} // verus!
