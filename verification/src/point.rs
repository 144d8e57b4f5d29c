//! Sizes, points, boxes, and distances between points.

use vstd::prelude::*;

verus! {

/// A width and a height, in pixels or in grid cells.
#[derive(Clone, Copy, Debug, PartialEq, Eq, Structural)]
pub struct Size16 {
    pub width: u16,
    pub height: u16,
}

impl Size16 {
    pub fn new(width: u16, height: u16) -> (size: Size16)
        ensures
            size.width == width,
            size.height == height,
    {
        Size16 { width, height }
    }
}

/// A coordinate into the canvas (a pixel) or into a level's grid (a cell).
#[derive(Clone, Copy, Debug, PartialEq, Eq, Structural)]
pub struct Point16 {
    pub x: u16,
    pub y: u16,
}

impl Point16 {
    /// The origin.
    pub fn default() -> (point: Point16)
        ensures
            point.x == 0,
            point.y == 0,
    {
        Point16 { x: 0, y: 0 }
    }

    pub fn new(x: u16, y: u16) -> (point: Point16)
        ensures
            point.x == x,
            point.y == y,
    {
        Point16 { x, y }
    }

    /// The component-wise difference `this - other`.
    pub fn substract(this: &Point16, other: &Point16) -> (point: Point16)
        requires
            other.x <= this.x,
            other.y <= this.y,
        ensures
            point.x == this.x - other.x,
            point.y == this.y - other.y,
    {
        Point16 { x: this.x - other.x, y: this.y - other.y }
    }

    /// The component-wise product.
    pub fn multiply(this: &Point16, other: &Point16) -> (point: Point16)
        requires
            this.x * other.x <= u16::MAX,
            this.y * other.y <= u16::MAX,
        ensures
            point.x == this.x * other.x,
            point.y == this.y * other.y,
    {
        Point16 { x: this.x * other.x, y: this.y * other.y }
    }

    /// The point scaled by a size: a grid cell's origin on the canvas.
    pub fn multiply_by_size(this: &Point16, other: &Size16) -> (point: Point16)
        requires
            this.x * other.width <= u16::MAX,
            this.y * other.height <= u16::MAX,
        ensures
            point.x == this.x * other.width,
            point.y == this.y * other.height,
    {
        Point16 { x: this.x * other.width, y: this.y * other.height }
    }
}

/// An axis-aligned box, given by its two corners.  The box that encloses
/// nothing has `bottom_left` at the largest and `top_right` at the smallest
/// coordinate, so that merging anything into it yields that thing.
#[derive(Clone, Copy, Debug, PartialEq, Eq, Structural)]
pub struct Bounds {
    pub bottom_left: Point16,
    pub top_right: Point16,
}

pub open spec fn min16(a: u16, b: u16) -> u16 {
    if b < a { b } else { a }
}

pub open spec fn max16(a: u16, b: u16) -> u16 {
    if b > a { b } else { a }
}

impl Bounds {
    /// The box that encloses nothing.
    pub open spec fn empty() -> Bounds {
        Bounds {
            bottom_left: Point16 { x: u16::MAX, y: u16::MAX },
            top_right: Point16 { x: u16::MIN, y: u16::MIN },
        }
    }

    /// The smallest box that encloses both `self` and `other`.
    pub open spec fn merge(self, other: Bounds) -> Bounds {
        Bounds {
            bottom_left: Point16 {
                x: min16(self.bottom_left.x, other.bottom_left.x),
                y: min16(self.bottom_left.y, other.bottom_left.y),
            },
            top_right: Point16 {
                x: max16(self.top_right.x, other.top_right.x),
                y: max16(self.top_right.y, other.top_right.y),
            },
        }
    }

    /// The smallest box that encloses `self` and the pixel `(x, y)`.
    pub open spec fn enclose(self, x: u16, y: u16) -> Bounds {
        self.merge(Bounds { bottom_left: Point16 { x, y }, top_right: Point16 { x, y } })
    }

    /// The smallest box that encloses all of `pixels`.
    pub open spec fn of_pixels(pixels: Seq<(u16, u16)>) -> Bounds
        decreases pixels.len(),
    {
        if pixels.len() == 0 {
            Bounds::empty()
        } else {
            Bounds::of_pixels(pixels.drop_last()).enclose(pixels.last().0, pixels.last().1)
        }
    }

    /// Whether the pixel `(x, y)` lies inside the box.
    pub open spec fn contains(self, x: u16, y: u16) -> bool {
        &&& self.bottom_left.x <= x <= self.top_right.x
        &&& self.bottom_left.y <= y <= self.top_right.y
    }
}

/// Merging boxes is associative, and the box that encloses nothing changes
/// no box that it is merged with.
pub proof fn lemma_merge_laws(a: Bounds, b: Bounds, c: Bounds)
    ensures
        a.merge(b).merge(c) == a.merge(b.merge(c)),
        a.merge(Bounds::empty()) == a,
        Bounds::empty().merge(a) == a,
        a.merge(b) == b.merge(a),
{
}

/// The smallest box around two pixel lists, one behind the other, is the
/// merge of their boxes.
pub proof fn lemma_of_pixels_concat(a: Seq<(u16, u16)>, b: Seq<(u16, u16)>)
    ensures
        Bounds::of_pixels(a + b) == Bounds::of_pixels(a).merge(Bounds::of_pixels(b)),
    decreases b.len(),
{
    if b.len() == 0 {
        assert(a + b =~= a);
    } else {
        assert((a + b).drop_last() =~= a + b.drop_last());
        lemma_of_pixels_concat(a, b.drop_last());
    }
}

/// A pixel of a list lies inside the smallest box around the list.
pub proof fn lemma_of_pixels_contains(pixels: Seq<(u16, u16)>, i: int)
    requires
        0 <= i < pixels.len(),
    ensures
        Bounds::of_pixels(pixels).contains(pixels[i].0, pixels[i].1),
    decreases pixels.len(),
{
    if i < pixels.len() - 1 {
        lemma_of_pixels_contains(pixels.drop_last(), i);
    }
}

/// Widens the box `(bottom_left, top_right)`, held as four coordinates, to
/// enclose the pixel `(x, y)`.
pub fn try_map_min_max_points(
    bottom_left_x: &mut u16,
    bottom_left_y: &mut u16,
    top_right_x: &mut u16,
    top_right_y: &mut u16,
    x: u16,
    y: u16,
)
    ensures
        *final(bottom_left_x) == min16(*old(bottom_left_x), x),
        *final(bottom_left_y) == min16(*old(bottom_left_y), y),
        *final(top_right_x) == max16(*old(top_right_x), x),
        *final(top_right_y) == max16(*old(top_right_y), y),
{
    if x < *bottom_left_x {
        *bottom_left_x = x;
    }
    if x > *top_right_x {
        *top_right_x = x;
    }
    if y < *bottom_left_y {
        *bottom_left_y = y;
    }
    if y > *top_right_y {
        *top_right_y = y;
    }
}

/// Widens the box held as four coordinates to enclose the box
/// `(rg_bottom_left, rg_top_right)`.
pub fn try_map_min_max_points_by_points(
    bottom_left_x: &mut u16,
    bottom_left_y: &mut u16,
    top_right_x: &mut u16,
    top_right_y: &mut u16,
    rg_bottom_left: &Point16,
    rg_top_right: &Point16,
)
    ensures
        *final(bottom_left_x) == min16(*old(bottom_left_x), rg_bottom_left.x),
        *final(bottom_left_y) == min16(*old(bottom_left_y), rg_bottom_left.y),
        *final(top_right_x) == max16(*old(top_right_x), rg_top_right.x),
        *final(top_right_y) == max16(*old(top_right_y), rg_top_right.y),
{
    if rg_bottom_left.x < *bottom_left_x {
        *bottom_left_x = rg_bottom_left.x;
    }
    if rg_top_right.x > *top_right_x {
        *top_right_x = rg_top_right.x;
    }
    if rg_bottom_left.y < *bottom_left_y {
        *bottom_left_y = rg_bottom_left.y;
    }
    if rg_top_right.y > *top_right_y {
        *top_right_y = rg_top_right.y;
    }
}

/// Widens the box `(pv_bottom_left, pv_top_right)` to enclose the box
/// `(rg_bottom_left, rg_top_right)`: the merge of a child's bounds into its
/// parent's.
pub fn try_map_points_min_max_points_by_points(
    pv_bottom_left: &mut Point16,
    pv_top_right: &mut Point16,
    rg_bottom_left: &Point16,
    rg_top_right: &Point16,
)
    ensures
        (Bounds { bottom_left: *final(pv_bottom_left), top_right: *final(pv_top_right) })
            == (Bounds { bottom_left: *old(pv_bottom_left), top_right: *old(pv_top_right) }).merge(
            Bounds { bottom_left: *rg_bottom_left, top_right: *rg_top_right },
        ),
{
    if rg_bottom_left.x < pv_bottom_left.x {
        pv_bottom_left.x = rg_bottom_left.x;
    }
    if rg_top_right.x > pv_top_right.x {
        pv_top_right.x = rg_top_right.x;
    }
    if rg_bottom_left.y < pv_bottom_left.y {
        pv_bottom_left.y = rg_bottom_left.y;
    }
    if rg_top_right.y > pv_top_right.y {
        pv_top_right.y = rg_top_right.y;
    }
}

/// The midpoint of `a` and `b`, each coordinate rounded down.
pub fn center_of_two_points(a: &Point16, b: &Point16) -> (center: Point16)
    ensures
        center.x == (a.x + b.x) / 2,
        center.y == (a.y + b.y) / 2,
{
    let sum_x: u32 = a.x as u32 + b.x as u32;
    let sum_y: u32 = a.y as u32 + b.y as u32;
    Point16 { x: (sum_x / 2) as u16, y: (sum_y / 2) as u16 }
}

/// The square of the Euclidean distance between two points.
pub open spec fn distance_squared_spec(a: Point16, b: Point16) -> int {
    (a.x - b.x) * (a.x - b.x) + (a.y - b.y) * (a.y - b.y)
}

/// The square of the Euclidean distance between `a` and `b`.  Squares order
/// as the distances themselves do, and they are exact.
pub fn calculate_distance(a: &Point16, b: &Point16) -> (squared: u64)
    ensures
        squared == distance_squared_spec(*a, *b),
{
    let dx: u64 = if a.x >= b.x { (a.x - b.x) as u64 } else { (b.x - a.x) as u64 };
    let dy: u64 = if a.y >= b.y { (a.y - b.y) as u64 } else { (b.y - a.y) as u64 };
    assert(dx * dx == (a.x - b.x) * (a.x - b.x)) by (nonlinear_arith)
        requires
            dx == a.x - b.x || dx == b.x - a.x,
    ;
    assert(dy * dy == (a.y - b.y) * (a.y - b.y)) by (nonlinear_arith)
        requires
            dy == a.y - b.y || dy == b.y - a.y,
    ;
    assert(dx * dx <= 65535 * 65535) by (nonlinear_arith)
        requires
            dx <= 65535,
    ;
    assert(dy * dy <= 65535 * 65535) by (nonlinear_arith)
        requires
            dy <= 65535,
    ;
    dx * dx + dy * dy
}

} // verus!
