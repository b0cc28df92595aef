//! Integer points, sizes and rectangles.
//!
//! Sums and differences of coordinates saturate at the bounds of `i32`, so no
//! position can wrap around to the other side of the screen.

use vstd::prelude::*;

verus! {

/// The integer nearest to `v` that fits in an `i32`.
pub open spec fn clamp_i32(v: int) -> int {
    if v < i32::MIN {
        i32::MIN as int
    } else if v > i32::MAX {
        i32::MAX as int
    } else {
        v
    }
}

/// Whether `v` fits in an `i32`.
pub open spec fn fits_i32(v: int) -> bool {
    i32::MIN <= v <= i32::MAX
}

/// Sum of two coordinates, saturating at the bounds.
pub fn saturating_sum(a: i32, b: i32) -> (r: i32)
    ensures
        r == clamp_i32(a + b),
{
    let s: i64 = a as i64 + b as i64;
    if s < i32::MIN as i64 {
        i32::MIN
    } else if s > i32::MAX as i64 {
        i32::MAX
    } else {
        s as i32
    }
}

/// Difference of two coordinates, saturating at the bounds.
pub fn saturating_difference(a: i32, b: i32) -> (r: i32)
    ensures
        r == clamp_i32(a - b),
{
    let s: i64 = a as i64 - b as i64;
    if s < i32::MIN as i64 {
        i32::MIN
    } else if s > i32::MAX as i64 {
        i32::MAX
    } else {
        s as i32
    }
}

/// The larger of two mathematical integers.
pub open spec fn max_int(a: int, b: int) -> int {
    if a >= b {
        a
    } else {
        b
    }
}

/// The smaller of two mathematical integers.
pub open spec fn min_int(a: int, b: int) -> int {
    if a <= b {
        a
    } else {
        b
    }
}

/// The larger of two coordinates.
pub fn max_i32(a: i32, b: i32) -> (r: i32)
    ensures
        r == max_int(a as int, b as int),
{
    if a >= b {
        a
    } else {
        b
    }
}

/// The smaller of two coordinates.
pub fn min_i32(a: i32, b: i32) -> (r: i32)
    ensures
        r == min_int(a as int, b as int),
{
    if a <= b {
        a
    } else {
        b
    }
}

/// A point in the plane.
#[derive(Debug, Clone, Copy, PartialEq, Eq, Structural)]
pub struct Point {
    pub x: i32,
    pub y: i32,
}

/// A width and a height.
#[derive(Debug, Clone, Copy, PartialEq, Eq, Structural)]
pub struct Size {
    pub w: i32,
    pub h: i32,
}

/// An axis-parallel rectangle: its top-left corner and its dimensions.
#[derive(Debug, Clone, Copy, PartialEq, Eq, Structural)]
pub struct Rectangle {
    pub loc: Point,
    pub size: Size,
}

impl Point {
    /// The point translated by `other`, coordinate by coordinate, saturating.
    pub open spec fn spec_plus(self, other: Point) -> Point {
        Point {
            x: clamp_i32(self.x + other.x) as i32,
            y: clamp_i32(self.y + other.y) as i32,
        }
    }

    /// The point translated back by `other`, coordinate by coordinate, saturating.
    pub open spec fn spec_minus(self, other: Point) -> Point {
        Point {
            x: clamp_i32(self.x - other.x) as i32,
            y: clamp_i32(self.y - other.y) as i32,
        }
    }

    /// Whether translating by `other` stays clear of the bounds.
    pub open spec fn plus_fits(self, other: Point) -> bool {
        fits_i32(self.x + other.x) && fits_i32(self.y + other.y)
    }

    /// Whether translating back by `other` stays clear of the bounds.
    pub open spec fn minus_fits(self, other: Point) -> bool {
        fits_i32(self.x - other.x) && fits_i32(self.y - other.y)
    }

    pub fn new(x: i32, y: i32) -> (r: Point)
        ensures
            r == (Point { x, y }),
    {
        Point { x, y }
    }

    /// Translates by `other`.
    pub fn plus(self, other: Point) -> (r: Point)
        ensures
            r == self.spec_plus(other),
    {
        Point { x: saturating_sum(self.x, other.x), y: saturating_sum(self.y, other.y) }
    }

    /// Translates back by `other`.
    pub fn minus(self, other: Point) -> (r: Point)
        ensures
            r == self.spec_minus(other),
    {
        Point {
            x: saturating_difference(self.x, other.x),
            y: saturating_difference(self.y, other.y),
        }
    }
}

impl Size {
    /// Whether neither dimension is negative.
    pub open spec fn wf(self) -> bool {
        self.w >= 0 && self.h >= 0
    }

    pub fn new(w: i32, h: i32) -> (r: Size)
        requires
            w >= 0,
            h >= 0,
        ensures
            r == (Size { w, h }),
            r.wf(),
    {
        Size { w, h }
    }
}

impl Rectangle {
    /// First column right of the rectangle.
    pub open spec fn right(self) -> int {
        clamp_i32(self.loc.x + self.size.w)
    }

    /// First row below the rectangle.
    pub open spec fn bottom(self) -> int {
        clamp_i32(self.loc.y + self.size.h)
    }

    /// Whether the point lies in the rectangle; the left and top edges belong to
    /// it, the right and bottom edges do not.
    pub open spec fn spec_contains(self, p: Point) -> bool {
        self.loc.x <= p.x < self.right() && self.loc.y <= p.y < self.bottom()
    }

    /// Whether the two rectangles share more than an edge.
    pub open spec fn spec_overlaps(self, other: Rectangle) -> bool {
        self.loc.x < other.right() && other.loc.x < self.right() && self.loc.y < other.bottom()
            && other.loc.y < self.bottom()
    }

    /// The rectangle spanned by the inner edges of both.
    pub open spec fn spec_common(self, other: Rectangle) -> Rectangle {
        let x = max_int(self.loc.x as int, other.loc.x as int);
        let y = max_int(self.loc.y as int, other.loc.y as int);
        Rectangle {
            loc: Point { x: x as i32, y: y as i32 },
            size: Size {
                w: clamp_i32(min_int(self.right(), other.right()) - x) as i32,
                h: clamp_i32(min_int(self.bottom(), other.bottom()) - y) as i32,
            },
        }
    }

    /// The common part of two rectangles, if they overlap.
    pub open spec fn spec_intersection(self, other: Rectangle) -> Option<Rectangle> {
        if self.spec_overlaps(other) {
            Some(self.spec_common(other))
        } else {
            None
        }
    }

    /// Whether right and bottom edges are clear of the bounds and no dimension is
    /// negative.
    pub open spec fn regular(self) -> bool {
        self.size.wf() && fits_i32(self.loc.x + self.size.w) && fits_i32(self.loc.y + self.size.h)
    }

    pub fn new(loc: Point, size: Size) -> (r: Rectangle)
        ensures
            r == (Rectangle { loc, size }),
    {
        Rectangle { loc, size }
    }

    /// The rectangle of the given size at the origin.
    pub fn from_size(size: Size) -> (r: Rectangle)
        ensures
            r == (Rectangle { loc: Point { x: 0, y: 0 }, size }),
    {
        Rectangle { loc: Point { x: 0, y: 0 }, size }
    }

    /// Whether the point lies in the rectangle.
    pub fn contains(&self, p: Point) -> (r: bool)
        ensures
            r == self.spec_contains(p),
    {
        p.x >= self.loc.x && p.x < saturating_sum(self.loc.x, self.size.w) && p.y >= self.loc.y
            && p.y < saturating_sum(self.loc.y, self.size.h)
    }

    /// Whether the two rectangles share more than an edge.
    pub fn overlaps(&self, other: &Rectangle) -> (r: bool)
        ensures
            r == self.spec_overlaps(*other),
    {
        self.loc.x < saturating_sum(other.loc.x, other.size.w) && other.loc.x < saturating_sum(
            self.loc.x,
            self.size.w,
        ) && self.loc.y < saturating_sum(other.loc.y, other.size.h) && other.loc.y
            < saturating_sum(self.loc.y, self.size.h)
    }

    /// The common part of two rectangles, or `None` if they do not overlap.
    pub fn intersection(&self, other: &Rectangle) -> (r: Option<Rectangle>)
        ensures
            r == self.spec_intersection(*other),
    {
        if !self.overlaps(other) {
            return None;
        }
        let x: i32 = max_i32(self.loc.x, other.loc.x);
        let y: i32 = max_i32(self.loc.y, other.loc.y);
        let right: i32 = min_i32(
            saturating_sum(self.loc.x, self.size.w),
            saturating_sum(other.loc.x, other.size.w),
        );
        let bottom: i32 = min_i32(
            saturating_sum(self.loc.y, self.size.h),
            saturating_sum(other.loc.y, other.size.h),
        );
        Some(
            Rectangle {
                loc: Point { x, y },
                size: Size { w: saturating_difference(right, x), h: saturating_difference(bottom, y) },
            },
        )
    }
}

/// Overlapping is symmetric.
pub proof fn law_overlaps_symmetric(a: Rectangle, b: Rectangle)
    ensures
        a.spec_overlaps(b) == b.spec_overlaps(a),
{
}

/// A point lies in the intersection of two rectangles exactly if it lies in both;
/// rectangles without an intersection have no point in common.
pub proof fn law_intersection_is_common_part(a: Rectangle, b: Rectangle, p: Point)
    requires
        a.regular(),
        b.regular(),
    ensures
        match a.spec_intersection(b) {
            Some(c) => c.spec_contains(p) <==> a.spec_contains(p) && b.spec_contains(p),
            None => !(a.spec_contains(p) && b.spec_contains(p)),
        },
{
}

/// The intersection is never empty: both of its dimensions are at least one.
pub proof fn law_intersection_not_empty(a: Rectangle, b: Rectangle)
    requires
        a.regular(),
        b.regular(),
        a.size.w > 0 && a.size.h > 0,
        b.size.w > 0 && b.size.h > 0,
    ensures
        a.spec_intersection(b) matches Some(c) ==> c.size.w >= 1 && c.size.h >= 1 && c.regular(),
{
}

/// A rectangle contains a point that is neither left of it nor above it, and less than its
/// dimensions away from its corner.
pub proof fn law_contains(r: Rectangle, p: Point)
    requires
        r.regular(),
    ensures
        r.spec_contains(p) <==> 0 <= p.x - r.loc.x < r.size.w && 0 <= p.y - r.loc.y < r.size.h,
{
}

/// Two rectangles that are not empty overlap exactly if they have a point in common: the
/// corner where the later of their left edges meets the lower of their upper edges.
pub proof fn law_overlaps_at_corner(a: Rectangle, b: Rectangle, p: Point)
    requires
        a.regular(),
        b.regular(),
        a.size.w > 0 && a.size.h > 0,
        b.size.w > 0 && b.size.h > 0,
    ensures
        ({
            let corner = Point {
                x: if a.loc.x >= b.loc.x {
                    a.loc.x
                } else {
                    b.loc.x
                },
                y: if a.loc.y >= b.loc.y {
                    a.loc.y
                } else {
                    b.loc.y
                },
            };
            let in_a = 0 <= corner.x - a.loc.x < a.size.w && 0 <= corner.y - a.loc.y < a.size.h;
            let in_b = 0 <= corner.x - b.loc.x < b.size.w && 0 <= corner.y - b.loc.y < b.size.h;
            &&& a.spec_overlaps(b) <==> in_a && in_b
            &&& 0 <= p.x - a.loc.x < a.size.w && 0 <= p.y - a.loc.y < a.size.h && 0 <= p.x
                - b.loc.x < b.size.w && 0 <= p.y - b.loc.y < b.size.h ==> a.spec_overlaps(b)
        }),
{
}

/// A point that is translated has the sums of the coordinates, and one that is translated back
/// the differences, as long as they are within the bounds; beyond them it stops at the bound.
pub proof fn law_translation(p: Point, q: Point)
    ensures
        i32::MIN <= p.x + q.x <= i32::MAX ==> p.spec_plus(q).x == p.x + q.x,
        i32::MIN <= p.y + q.y <= i32::MAX ==> p.spec_plus(q).y == p.y + q.y,
        i32::MIN <= p.x - q.x <= i32::MAX ==> p.spec_minus(q).x == p.x - q.x,
        i32::MIN <= p.y - q.y <= i32::MAX ==> p.spec_minus(q).y == p.y - q.y,
        p.x + q.x > i32::MAX ==> p.spec_plus(q).x == i32::MAX,
        p.y + q.y > i32::MAX ==> p.spec_plus(q).y == i32::MAX,
        p.x + q.x < i32::MIN ==> p.spec_plus(q).x == i32::MIN,
        p.y + q.y < i32::MIN ==> p.spec_plus(q).y == i32::MIN,
        p.x - q.x > i32::MAX ==> p.spec_minus(q).x == i32::MAX,
        p.y - q.y > i32::MAX ==> p.spec_minus(q).y == i32::MAX,
        p.x - q.x < i32::MIN ==> p.spec_minus(q).x == i32::MIN,
        p.y - q.y < i32::MIN ==> p.spec_minus(q).y == i32::MIN,
{
}

} // verus!
