//! Axis-aligned boxes over the virtual desktop and the intersection test used
//! to pick a monitor.

use vstd::prelude::*;

verus! {

/// A point in virtual-desktop pixel space; `y` grows downwards.
#[derive(Clone, Copy, Debug, PartialEq, Eq, Structural)]
pub struct Coord {
    pub x: i32,
    pub y: i32,
}

/// The mathematical model of a box: its four edges as integers.
pub ghost struct Rect {
    pub left: int,
    pub top: int,
    pub right: int,
    pub bottom: int,
}

impl Rect {
    /// The boxes intersect unless one lies entirely to the left of, to the
    /// right of, above or below the other, a shared boundary line counting as
    /// lying beside. So boxes that merely touch along an edge do not overlap.
    /// This is the per-axis reading (each box's span reaches strictly into the
    /// other's): a box of zero width or height that lies strictly inside
    /// another does overlap it, although the area they share is zero.
    pub open spec fn overlaps(self, other: Rect) -> bool {
        &&& self.left < other.right
        &&& other.left < self.right
        &&& self.top < other.bottom
        &&& other.top < self.bottom
    }

    /// Left edge not right of the right edge, top edge not below the bottom edge.
    pub open spec fn is_ordered(self) -> bool {
        self.left <= self.right && self.top <= self.bottom
    }

    /// Strictly positive width and height.
    pub open spec fn has_area(self) -> bool {
        self.left < self.right && self.top < self.bottom
    }

    /// `inner` lies within `self`, edges included.
    pub open spec fn contains(self, inner: Rect) -> bool {
        &&& self.left <= inner.left
        &&& inner.right <= self.right
        &&& self.top <= inner.top
        &&& inner.bottom <= self.bottom
    }

    /// An edge of one box lies on the line of the opposite edge of the other.
    pub open spec fn shares_edge_with(self, other: Rect) -> bool {
        ||| self.right == other.left
        ||| other.right == self.left
        ||| self.bottom == other.top
        ||| other.bottom == self.top
    }
}

pub open spec fn min_int(a: int, b: int) -> int {
    if a <= b { a } else { b }
}

pub open spec fn max_int(a: int, b: int) -> int {
    if a >= b { a } else { b }
}

/// The ordered box that has `a` and `b` as opposite corners.
pub open spec fn corner_span(a: Coord, b: Coord) -> Rect {
    Rect {
        left: min_int(a.x as int, b.x as int),
        top: min_int(a.y as int, b.y as int),
        right: max_int(a.x as int, b.x as int),
        bottom: max_int(a.y as int, b.y as int),
    }
}

/// A box given by its four corners.
#[derive(Clone, Copy, Debug, PartialEq, Eq, Structural)]
pub struct BoundingBox {
    pub top_left: Coord,
    pub top_right: Coord,
    pub bottom_left: Coord,
    pub bottom_right: Coord,
}

impl View for BoundingBox {
    type V = Rect;

    open spec fn view(&self) -> Rect {
        Rect {
            left: self.top_left.x as int,
            top: self.top_left.y as int,
            right: self.bottom_right.x as int,
            bottom: self.bottom_right.y as int,
        }
    }
}

impl BoundingBox {
    /// The four corners describe one axis-aligned rectangle: corners on the
    /// same side share that side's coordinate.
    pub open spec fn wf(&self) -> bool {
        &&& self.top_left.x == self.bottom_left.x
        &&& self.top_right.x == self.bottom_right.x
        &&& self.top_left.y == self.top_right.y
        &&& self.bottom_left.y == self.bottom_right.y
    }

    /// The box with top-left corner `(x, y)` and the given size.
    pub fn new(x: i32, y: i32, width: i32, height: i32) -> (r: Self)
        requires
            width >= 0,
            height >= 0,
            x + width <= i32::MAX,
            y + height <= i32::MAX,
        ensures
            r.wf(),
            r@ == (Rect { left: x as int, top: y as int, right: x + width, bottom: y + height }),
    {
        Self {
            top_left: Coord { x, y },
            top_right: Coord { x: x + width, y },
            bottom_left: Coord { x, y: y + height },
            bottom_right: Coord { x: x + width, y: y + height },
        }
    }

    /// The box with `(x, y)` as its top-left and `(x_2, y_2)` as its
    /// bottom-right corner, taken as given: nothing is reordered.
    pub fn new_from_coords(x: i32, y: i32, x_2: i32, y_2: i32) -> (r: Self)
        ensures
            r.wf(),
            r@ == (Rect { left: x as int, top: y as int, right: x_2 as int, bottom: y_2 as int }),
    {
        Self {
            top_left: Coord { x, y },
            top_right: Coord { x: x_2, y },
            bottom_left: Coord { x, y: y_2 },
            bottom_right: Coord { x: x_2, y: y_2 },
        }
    }

    /// The box spanned by two opposite corners given in either order, as a
    /// drag in any direction produces them.
    pub fn from_corners(a: Coord, b: Coord) -> (r: Self)
        ensures
            r.wf(),
            r@.is_ordered(),
            r@ == corner_span(a, b),
    {
        let (left, right) = if a.x <= b.x { (a.x, b.x) } else { (b.x, a.x) };
        let (top, bottom) = if a.y <= b.y { (a.y, b.y) } else { (b.y, a.y) };
        Self::new_from_coords(left, top, right, bottom)
    }

    /// Whether each box reaches strictly into the other's span on both axes (see
    /// `Rect::overlaps`): touching edges do not count, while a zero-width or
    /// zero-height box strictly inside another does.
    pub fn intersects(&self, other: &BoundingBox) -> (r: bool)
        requires
            self.wf(),
            other.wf(),
        ensures
            r == self@.overlaps(other@),
    {
        !(self.top_right.x <= other.bottom_left.x || self.bottom_left.x >= other.top_right.x
            || self.top_right.y >= other.bottom_left.y || self.bottom_left.y
            <= other.top_right.y)
    }
}

/// Intersection does not depend on the order of the two boxes.
pub proof fn lemma_intersects_symmetric(a: BoundingBox, b: BoundingBox)
    requires
        a.wf(),
        b.wf(),
    ensures
        a@.overlaps(b@) == b@.overlaps(a@),
{
}

/// Two boxes that meet along a boundary line do not intersect, whichever of
/// the two is asked.
pub proof fn lemma_shared_edge_not_intersecting(a: BoundingBox, b: BoundingBox)
    requires
        a.wf(),
        b.wf(),
        a@.shares_edge_with(b@),
    ensures
        !a@.overlaps(b@),
        !b@.overlaps(a@),
{
}

/// Two boxes whose extents overlap by at least one pixel on each axis
/// intersect, whichever of the two is asked.
pub proof fn lemma_pixel_overlap_intersects(a: BoundingBox, b: BoundingBox)
    requires
        a.wf(),
        b.wf(),
        min_int(a@.right, b@.right) - max_int(a@.left, b@.left) >= 1,
        min_int(a@.bottom, b@.bottom) - max_int(a@.top, b@.top) >= 1,
    ensures
        a@.overlaps(b@),
        b@.overlaps(a@),
{
}

/// A box inside another box intersects it, whichever of the two is asked,
/// unless it is a degenerate box lying on the outer box's boundary line.
pub proof fn lemma_contained_intersects(outer: BoundingBox, inner: BoundingBox)
    requires
        outer.wf(),
        inner.wf(),
        inner@.is_ordered(),
        outer@.contains(inner@),
        !inner@.shares_edge_with(outer@),
    ensures
        outer@.overlaps(inner@),
        inner@.overlaps(outer@),
{
}

} // verus!
