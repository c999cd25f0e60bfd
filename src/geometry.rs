use vstd::prelude::*;

verus! {

/// A tile coordinate on the grid.
#[derive(Clone, Copy, PartialEq, Eq, Structural, Debug, Hash)]
pub struct Coord {
    pub x: i32,
    pub y: i32,
}

/// Squared Euclidean distance between two points, exact in integers.
pub open spec fn dist_sq(a: Coord, b: Coord) -> int {
    (a.x - b.x) * (a.x - b.x) + (a.y - b.y) * (a.y - b.y)
}

/// Two distinct points that touch, orthogonally or diagonally.
pub open spec fn adjacent(a: Coord, b: Coord) -> bool {
    a != b && -1 <= a.x - b.x <= 1 && -1 <= a.y - b.y <= 1
}

impl Coord {
    pub fn new(x: i32, y: i32) -> (r: Coord)
        ensures
            r.x == x,
            r.y == y,
    {
        Coord { x, y }
    }

    pub fn zero() -> (r: Coord)
        ensures
            r.x == 0,
            r.y == 0,
    {
        Coord { x: 0, y: 0 }
    }

    /// The point moved by a unit offset.
    pub fn offset(&self, dx: i32, dy: i32) -> (r: Coord)
        requires
            -1 <= dx <= 1,
            -1 <= dy <= 1,
            i32::MIN < self.x < i32::MAX,
            i32::MIN < self.y < i32::MAX,
        ensures
            r.x == self.x + dx,
            r.y == self.y + dy,
    {
        Coord { x: self.x + dx, y: self.y + dy }
    }
}

/// Squared distance between two points.
pub fn distance_sq(a: Coord, b: Coord) -> (r: i128)
    ensures
        r == dist_sq(a, b),
        r >= 0,
{
    let dx: i128 = a.x as i128 - b.x as i128;
    let dy: i128 = a.y as i128 - b.y as i128;
    assert(0 <= dx * dx <= 0x1_0000_0000_0000_0000) by (nonlinear_arith)
        requires -0x1_0000_0000 <= dx <= 0x1_0000_0000;
    assert(0 <= dy * dy <= 0x1_0000_0000_0000_0000) by (nonlinear_arith)
        requires -0x1_0000_0000 <= dy <= 0x1_0000_0000;
    dx * dx + dy * dy
}

/// The offset of the `k`-th neighbour: left, right, up, down, then the four diagonals.
pub open spec fn spec_neighbor_delta(k: int) -> (int, int) {
    if k == 0 {
        (-1, 0)
    } else if k == 1 {
        (1, 0)
    } else if k == 2 {
        (0, -1)
    } else if k == 3 {
        (0, 1)
    } else if k == 4 {
        (-1, -1)
    } else if k == 5 {
        (-1, 1)
    } else if k == 6 {
        (1, -1)
    } else {
        (1, 1)
    }
}

pub fn neighbor_delta(k: usize) -> (r: (i32, i32))
    requires
        k < 8,
    ensures
        r.0 == spec_neighbor_delta(k as int).0,
        r.1 == spec_neighbor_delta(k as int).1,
        -1 <= r.0 <= 1,
        -1 <= r.1 <= 1,
        r.0 != 0 || r.1 != 0,
{
    if k == 0 {
        (-1, 0)
    } else if k == 1 {
        (1, 0)
    } else if k == 2 {
        (0, -1)
    } else if k == 3 {
        (0, 1)
    } else if k == 4 {
        (-1, -1)
    } else if k == 5 {
        (-1, 1)
    } else if k == 6 {
        (1, -1)
    } else {
        (1, 1)
    }
}

/// An axis-aligned rectangle; `x2` and `y2` are exclusive for the tiles it covers.
#[derive(Clone, Copy, PartialEq, Eq, Structural, Debug)]
pub struct Rect {
    pub x1: i32,
    pub y1: i32,
    pub x2: i32,
    pub y2: i32,
}

/// The two rectangles touch or overlap (edges included).
pub open spec fn rects_intersect(a: Rect, b: Rect) -> bool {
    a.x1 <= b.x2 && a.x2 >= b.x1 && a.y1 <= b.y2 && a.y2 >= b.y1
}

/// A tile covered by the rectangle.
pub open spec fn rect_contains(r: Rect, p: Coord) -> bool {
    r.x1 <= p.x < r.x2 && r.y1 <= p.y < r.y2
}

pub open spec fn rect_center(r: Rect) -> Coord {
    Coord { x: ((r.x1 + r.x2) / 2) as i32, y: ((r.y1 + r.y2) / 2) as i32 }
}

impl Rect {
    pub open spec fn small(self) -> bool {
        0 <= self.x1 <= self.x2 <= 0x3fff_ffff && 0 <= self.y1 <= self.y2 <= 0x3fff_ffff
    }

    /// A rectangle from its corner and its size.
    pub fn with_size(x: i32, y: i32, w: i32, h: i32) -> (r: Rect)
        requires
            0 <= w,
            0 <= h,
            0 <= x,
            0 <= y,
            x + w <= 0x3fff_ffff,
            y + h <= 0x3fff_ffff,
        ensures
            r == (Rect { x1: x, y1: y, x2: (x + w) as i32, y2: (y + h) as i32 }),
            r.small(),
    {
        Rect { x1: x, y1: y, x2: x + w, y2: y + h }
    }

    pub fn intersect(&self, other: &Rect) -> (r: bool)
        ensures
            r == rects_intersect(*self, *other),
    {
        self.x1 <= other.x2 && self.x2 >= other.x1 && self.y1 <= other.y2 && self.y2 >= other.y1
    }

    /// The column of the centre.
    pub fn center_x(&self) -> (r: i32)
        requires
            self.small(),
        ensures
            r == rect_center(*self).x,
    {
        (self.x1 + self.x2) / 2
    }

    pub fn center(&self) -> (r: Coord)
        requires
            self.small(),
        ensures
            r == rect_center(*self),
            self.x1 <= r.x <= self.x2,
            self.y1 <= r.y <= self.y2,
    {
        Coord { x: (self.x1 + self.x2) / 2, y: (self.y1 + self.y2) / 2 }
    }
}

} // verus!
