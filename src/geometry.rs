use vstd::prelude::*;

verus! {

/// A point (or a displacement) in screen coordinates: x grows to the right and
/// y grows downwards.
#[derive(Debug, Clone, Copy, PartialEq, Eq, Structural)]
pub struct Point {
    pub x: i32,
    pub y: i32,
}

/// Whether `a + d` is representable, coordinate by coordinate.
pub open spec fn sum_fits(a: Point, d: Point) -> bool {
    &&& i32::MIN <= a.x + d.x <= i32::MAX
    &&& i32::MIN <= a.y + d.y <= i32::MAX
}

/// The point `a` moved by the displacement `d`.
pub open spec fn translate(a: Point, d: Point) -> Point
    recommends
        sum_fits(a, d),
{
    Point { x: (a.x + d.x) as i32, y: (a.y + d.y) as i32 }
}

/// Squared Euclidean distance between two points.
pub open spec fn dist_sq(a: Point, b: Point) -> int {
    (a.x - b.x) * (a.x - b.x) + (a.y - b.y) * (a.y - b.y)
}

/// Whether `p` lies strictly inside the circle of the given center and radius.
pub open spec fn inside_circle(p: Point, center: Point, radius: int) -> bool {
    dist_sq(p, center) < radius * radius
}

proof fn lemma_square_bound(d: i128)
    requires
        -0x1_0000_0000 <= d <= 0x1_0000_0000,
    ensures
        0 <= d * d <= 0x1_0000_0000_0000_0000,
{
    assert(0 <= d * d <= 0x1_0000_0000 * 0x1_0000_0000) by (nonlinear_arith)
        requires
            -0x1_0000_0000 <= d <= 0x1_0000_0000,
    ;
}

impl Point {
    pub fn new(x: i32, y: i32) -> (r: Point)
        ensures
            r == (Point { x, y }),
    {
        Point { x, y }
    }

    /// This point moved by `d`.
    pub fn offset(self, d: Point) -> (r: Point)
        requires
            sum_fits(self, d),
        ensures
            r == translate(self, d),
    {
        Point { x: self.x + d.x, y: self.y + d.y }
    }

    /// Whether this point lies strictly inside the circle around `center`
    /// with radius `radius`: its distance from the center is less than the
    /// radius.
    pub fn is_inside(self, center: Point, radius: i32) -> (r: bool)
        ensures
            r == inside_circle(self, center, radius as int),
    {
        let dx: i128 = self.x as i128 - center.x as i128;
        let dy: i128 = self.y as i128 - center.y as i128;
        let rr: i128 = radius as i128;
        proof {
            lemma_square_bound(dx);
            lemma_square_bound(dy);
            lemma_square_bound(rr);
        }
        dx * dx + dy * dy < rr * rr
    }
}

} // verus!
