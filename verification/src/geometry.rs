//! Integer geometry shared by rendering and hit testing.
use vstd::prelude::*;

verus! {

/// A rectangle of cells: its top-left corner and its size.
#[derive(Clone, Copy, Debug, Default, PartialEq, Eq, Structural)]
pub struct Rect {
    pub x: u16,
    pub y: u16,
    pub width: u16,
    pub height: u16,
}

/// The smaller of two integers.
pub open spec fn min_int(a: int, b: int) -> int {
    if a <= b { a } else { b }
}

/// The larger of two integers.
pub open spec fn max_int(a: int, b: int) -> int {
    if a >= b { a } else { b }
}

impl Rect {
    /// The column just past the right edge.
    pub open spec fn right(self) -> int {
        self.x + self.width
    }

    /// The row just past the bottom edge.
    pub open spec fn bottom(self) -> int {
        self.y + self.height
    }

    /// Whether a cell lies inside the rectangle.
    pub open spec fn has(self, x: int, y: int) -> bool {
        self.x <= x < self.right() && self.y <= y < self.bottom()
    }

    /// The overlap of two rectangles, as `intersection` computes it.
    pub open spec fn overlap(self, other: Self) -> Rect {
        let x = max_int(self.x as int, other.x as int);
        let y = max_int(self.y as int, other.y as int);
        Rect {
            x: x as u16,
            y: y as u16,
            width: max_int(0, min_int(self.right(), other.right()) - x) as u16,
            height: max_int(0, min_int(self.bottom(), other.bottom()) - y) as u16,
        }
    }

    pub fn new(x: u16, y: u16, width: u16, height: u16) -> (r: Self)
        ensures
            r == (Rect { x, y, width, height }),
    {
        Self { x, y, width, height }
    }

    /// The overlap of two rectangles. It starts at the larger corner, and is
    /// empty in a direction where they do not overlap.
    pub fn intersection(self, other: Self) -> (r: Self)
        ensures
            r == self.overlap(other),
    {
        let x = if self.x >= other.x { self.x } else { other.x };
        let y = if self.y >= other.y { self.y } else { other.y };
        let r1 = self.x as u32 + self.width as u32;
        let r2 = other.x as u32 + other.width as u32;
        let right = if r1 <= r2 { r1 } else { r2 };
        let b1 = self.y as u32 + self.height as u32;
        let b2 = other.y as u32 + other.height as u32;
        let bottom = if b1 <= b2 { b1 } else { b2 };
        let width = if right > x as u32 { (right - x as u32) as u16 } else { 0 };
        let height = if bottom > y as u32 { (bottom - y as u32) as u16 } else { 0 };
        Self::new(x, y, width, height)
    }

    /// Whether the cell at `(x, y)` lies inside.
    pub fn contains(self, x: u16, y: u16) -> (r: bool)
        ensures
            r == self.has(x as int, y as int),
    {
        x >= self.x && y >= self.y && (x as u32) < self.x as u32 + self.width as u32 && (y as u32)
            < self.y as u32 + self.height as u32
    }
}

/// A cell lies in the intersection of two rectangles exactly when it lies
/// in both.
pub proof fn intersection_is_common_area(a: Rect, b: Rect, x: int, y: int)
    ensures
        a.overlap(b).has(x, y) <==> (a.has(x, y) && b.has(x, y)),
{
}

/// Intersecting is symmetric.
pub proof fn intersection_commutes(a: Rect, b: Rect)
    ensures
        a.overlap(b) == b.overlap(a),
{
}

} // verus!
