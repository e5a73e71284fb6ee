use vstd::prelude::*;

verus! {

/// A tile coordinate on the grid.
#[derive(Clone, Copy, PartialEq, Eq, Structural, Debug)]
pub struct Position {
    pub x: i32,
    pub y: i32,
}

/// An axis-aligned rectangle given by two corners, both inclusive.
#[derive(Clone, Copy, PartialEq, Eq, Structural, Debug)]
pub struct Rect {
    pub x1: i32,
    pub y1: i32,
    pub x2: i32,
    pub y2: i32,
}

impl Rect {
    /// Two rectangles intersect when they share at least one point.
    pub open spec fn spec_intersect(self, other: Rect) -> bool {
        self.x1 <= other.x2 && self.x2 >= other.x1 && self.y1 <= other.y2 && self.y2
            >= other.y1
    }

    pub open spec fn spec_center(self) -> (int, int) {
        ((self.x1 + self.x2) / 2, (self.y1 + self.y2) / 2)
    }

    pub fn with_size(x: i32, y: i32, w: i32, h: i32) -> (r: Rect)
        requires
            0 <= w,
            0 <= h,
            x + w <= i32::MAX,
            y + h <= i32::MAX,
        ensures
            r.x1 == x,
            r.y1 == y,
            r.x2 == x + w,
            r.y2 == y + h,
    {
        Rect { x1: x, y1: y, x2: x + w, y2: y + h }
    }

    pub fn intersect(&self, other: &Rect) -> (r: bool)
        ensures
            r == self.spec_intersect(*other),
    {
        self.x1 <= other.x2 && self.x2 >= other.x1 && self.y1 <= other.y2 && self.y2
            >= other.y1
    }

    pub fn center(&self) -> (r: Position)
        requires
            0 <= self.x1 <= self.x2,
            0 <= self.y1 <= self.y2,
            self.x1 + self.x2 <= i32::MAX,
            self.y1 + self.y2 <= i32::MAX,
        ensures
            (r.x as int, r.y as int) == self.spec_center(),
    {
        Position { x: (self.x1 + self.x2) / 2, y: (self.y1 + self.y2) / 2 }
    }
}

/// Centers of two non-intersecting rectangles are distinct points.
pub proof fn lemma_centers_distinct(a: Rect, b: Rect)
    requires
        !a.spec_intersect(b),
        0 <= a.x1 <= a.x2,
        0 <= a.y1 <= a.y2,
        0 <= b.x1 <= b.x2,
        0 <= b.y1 <= b.y2,
    ensures
        a.spec_center() != b.spec_center(),
{
    assert(a.x1 <= (a.x1 + a.x2) / 2 <= a.x2) by (nonlinear_arith)
        requires
            0 <= a.x1 <= a.x2,
    ;
    assert(a.y1 <= (a.y1 + a.y2) / 2 <= a.y2) by (nonlinear_arith)
        requires
            0 <= a.y1 <= a.y2,
    ;
    assert(b.x1 <= (b.x1 + b.x2) / 2 <= b.x2) by (nonlinear_arith)
        requires
            0 <= b.x1 <= b.x2,
    ;
    assert(b.y1 <= (b.y1 + b.y2) / 2 <= b.y2) by (nonlinear_arith)
        requires
            0 <= b.y1 <= b.y2,
    ;
}

/// The center of a room rectangle with a one-tile margin lies strictly
/// inside the carved interior (x1, x2] x (y1, y2].
pub proof fn lemma_center_in_interior(r: Rect)
    by (nonlinear_arith)
    requires
        0 <= r.x1,
        r.x1 + 2 <= r.x2,
        0 <= r.y1,
        r.y1 + 2 <= r.y2,
    ensures
        r.x1 < r.spec_center().0 < r.x2,
        r.y1 < r.spec_center().1 < r.y2,
{
}

} // verus!
