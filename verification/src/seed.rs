//! The seed of the triangulation.  The triangulation beneath the diagram
//! starts from one triangle: the site nearest to the middle of the frame
//! around the sites, the site nearest to that one, and the site that makes
//! the smallest circumcircle with the two.  Every other site is then taken
//! in the order of its distance from the middle of that circle.  Where the
//! circle is huge, those distances can no longer be told apart and a site
//! may be lost; so the sites are tested here, in whole numbers, before a
//! diagram is asked for.

use vstd::prelude::*;
use crate::point::{max16, min16, Bounds, Point16};

verus! {

/// The largest square of the circumradius that the seed triangle may be
/// known to have: the square of 2^20 pixels, sixteen times the longest
/// canvas.
pub const MAX_SEED_RADIUS_SQUARED: u64 = 1_099_511_627_776;

/// The largest square of a distance between two sites, and the largest
/// doubled area of a triangle of sites.
pub const MAX_SPAN: u64 = 8_589_672_450;

/// The smallest box around the sites.
pub open spec fn frame(sites: Seq<Point16>) -> Bounds
    decreases sites.len(),
{
    if sites.len() == 0 {
        Bounds::empty()
    } else {
        frame(sites.drop_last()).enclose(sites.last().x, sites.last().y)
    }
}

/// The middle of the frame around the sites, each coordinate doubled.
pub open spec fn frame_middle_doubled(sites: Seq<Point16>) -> (int, int) {
    (
        frame(sites).bottom_left.x + frame(sites).top_right.x,
        frame(sites).bottom_left.y + frame(sites).top_right.y,
    )
}

/// The site, each coordinate doubled.
pub open spec fn doubled(site: Point16) -> (int, int) {
    (2 * site.x, 2 * site.y)
}

/// Four times the square of the distance from the site to the point whose
/// doubled coordinates are `twice`.
pub open spec fn gap(site: Point16, twice: (int, int)) -> int {
    (2 * site.x - twice.0) * (2 * site.x - twice.0) + (2 * site.y - twice.1) * (2 * site.y
        - twice.1)
}

/// Site `i` is the nearest to the point among the sites that do not lie on
/// the point, and the first of those that are as near.
pub open spec fn first_nearest(sites: Seq<Point16>, twice: (int, int), i: int) -> bool {
    &&& 0 <= i < sites.len()
    &&& gap(sites[i], twice) > 0
    &&& forall|j: int|
        0 <= j < sites.len() && gap(#[trigger] sites[j], twice) > 0 ==> gap(sites[i], twice) < gap(
            sites[j],
            twice,
        ) || (gap(sites[i], twice) == gap(sites[j], twice) && i <= j)
}

/// Twice the signed area of the triangle `a`, `b`, `c`: zero exactly where
/// the three lie on one line.
pub open spec fn turn(a: Point16, b: Point16, c: Point16) -> int {
    (b.x - a.x) * (c.y - a.y) - (b.y - a.y) * (c.x - a.x)
}

/// The square of the distance between two sites.
pub open spec fn span(a: Point16, b: Point16) -> int {
    (b.x - a.x) * (b.x - a.x) + (b.y - a.y) * (b.y - a.y)
}

/// The triangle `a`, `b`, `c` has a circumcircle, and the square of its
/// radius, the product of the squared sides over four times the squared
/// doubled area, is at most the bound.
pub open spec fn tight(a: Point16, b: Point16, c: Point16) -> bool {
    &&& turn(a, b, c) != 0
    &&& span(a, b) * span(a, c) * span(b, c) <= 4 * MAX_SEED_RADIUS_SQUARED * (turn(a, b, c)
        * turn(a, b, c))
}

/// Every site lies on the line through the sites `a` and `b`.
pub open spec fn on_one_line(sites: Seq<Point16>, a: int, b: int) -> bool {
    forall|q: int| 0 <= q < sites.len() ==> turn(sites[a], sites[b], #[trigger] sites[q]) == 0
}

/// Some site makes a triangle with the sites `a` and `b` whose circumradius
/// is within the bound.
pub open spec fn some_tight(sites: Seq<Point16>, a: int, b: int) -> bool {
    exists|q: int| 0 <= q < sites.len() && tight(sites[a], sites[b], #[trigger] sites[q])
}

/// The sites start the triangulation from a triangle of bounded size.
/// Take the first of the sites nearest to the middle of their frame, and
/// the first of the sites nearest to that one.  Then either every site
/// lies on the line through the two, and there is no triangle at all, or
/// some site makes a triangle with the two whose circumradius is within
/// the bound.
pub open spec fn seed_bounded(sites: Seq<Point16>) -> bool {
    forall|a: int, b: int|
        first_nearest(sites, frame_middle_doubled(sites), a) && #[trigger] first_nearest(
            sites,
            doubled(sites[a]),
            b,
        ) ==> on_one_line(sites, a, b) || some_tight(sites, a, b)
}

/// The smallest box around the sites.
fn frame_of(sites: &Vec<Point16>) -> (bounds: Bounds)
    ensures
        bounds == frame(sites@),
{
    let mut low_x: u16 = u16::MAX;
    let mut low_y: u16 = u16::MAX;
    let mut high_x: u16 = u16::MIN;
    let mut high_y: u16 = u16::MIN;
    let mut i: usize = 0;
    while i < sites.len()
        invariant
            i <= sites.len(),
            (Bounds {
                bottom_left: Point16 { x: low_x, y: low_y },
                top_right: Point16 { x: high_x, y: high_y },
            }) == frame(sites@.subrange(0, i as int)),
        decreases sites.len() - i,
    {
        proof {
            assert(sites@.subrange(0, i + 1).drop_last() =~= sites@.subrange(0, i as int));
            assert(sites@.subrange(0, i + 1).last() == sites[i as int]);
        }
        let site = sites[i];
        if site.x < low_x {
            low_x = site.x;
        }
        if site.x > high_x {
            high_x = site.x;
        }
        if site.y < low_y {
            low_y = site.y;
        }
        if site.y > high_y {
            high_y = site.y;
        }
        assert(low_x == min16(frame(sites@.subrange(0, i as int)).bottom_left.x, site.x));
        assert(high_x == max16(frame(sites@.subrange(0, i as int)).top_right.x, site.x));
        i += 1;
    }
    assert(sites@.subrange(0, i as int) =~= sites@);
    Bounds {
        bottom_left: Point16 { x: low_x, y: low_y },
        top_right: Point16 { x: high_x, y: high_y },
    }
}

/// Four times the square of the distance from the site to the point whose
/// doubled coordinates are given.
fn gap_of(site: Point16, twice_x: u32, twice_y: u32) -> (g: u64)
    requires
        twice_x <= 131070,
        twice_y <= 131070,
    ensures
        g == gap(site, (twice_x as int, twice_y as int)),
{
    let dx: i64 = 2 * (site.x as i64) - (twice_x as i64);
    let dy: i64 = 2 * (site.y as i64) - (twice_y as i64);
    assert(0 <= dx * dx <= 131070 * 131070) by (nonlinear_arith)
        requires
            -131070 <= dx <= 131070,
    ;
    assert(0 <= dy * dy <= 131070 * 131070) by (nonlinear_arith)
        requires
            -131070 <= dy <= 131070,
    ;
    (dx * dx + dy * dy) as u64
}

/// The first of the sites nearest to the point whose doubled coordinates
/// are given, among the sites that do not lie on the point.
fn nearest(sites: &Vec<Point16>, twice_x: u32, twice_y: u32) -> (found: Option<usize>)
    requires
        twice_x <= 131070,
        twice_y <= 131070,
    ensures
        match found {
            Some(i) => first_nearest(sites@, (twice_x as int, twice_y as int), i as int),
            None => forall|j: int|
                0 <= j < sites.len() ==> !(gap(#[trigger] sites[j], (twice_x as int, twice_y as int))
                    > 0),
        },
{
    let ghost twice = (twice_x as int, twice_y as int);
    let mut best: Option<usize> = None;
    let mut best_gap: u64 = 0;
    let mut i: usize = 0;
    while i < sites.len()
        invariant
            i <= sites.len(),
            twice_x <= 131070,
            twice_y <= 131070,
            twice == (twice_x as int, twice_y as int),
            match best {
                Some(k) => {
                    &&& k < i
                    &&& gap(sites[k as int], twice) == best_gap
                    &&& best_gap > 0
                    &&& forall|j: int|
                        0 <= j < i && gap(#[trigger] sites[j], twice) > 0 ==> best_gap < gap(
                            sites[j],
                            twice,
                        ) || (best_gap == gap(sites[j], twice) && k <= j)
                },
                None => forall|j: int| 0 <= j < i ==> !(gap(#[trigger] sites[j], twice) > 0),
            },
        decreases sites.len() - i,
    {
        let g: u64 = gap_of(sites[i], twice_x, twice_y);
        if g > 0 && (best.is_none() || g < best_gap) {
            best = Some(i);
            best_gap = g;
        }
        i += 1;
    }
    best
}

/// Twice the signed area of the triangle.
fn turn_of(a: Point16, b: Point16, c: Point16) -> (t: i64)
    ensures
        t == turn(a, b, c),
        -(MAX_SPAN as int) <= t <= MAX_SPAN as int,
{
    let bx: i64 = (b.x as i64) - (a.x as i64);
    let by: i64 = (b.y as i64) - (a.y as i64);
    let cx: i64 = (c.x as i64) - (a.x as i64);
    let cy: i64 = (c.y as i64) - (a.y as i64);
    assert(-(65535 * 65535) <= bx * cy <= 65535 * 65535) by (nonlinear_arith)
        requires
            -65535 <= bx <= 65535,
            -65535 <= cy <= 65535,
    ;
    assert(-(65535 * 65535) <= by * cx <= 65535 * 65535) by (nonlinear_arith)
        requires
            -65535 <= by <= 65535,
            -65535 <= cx <= 65535,
    ;
    bx * cy - by * cx
}

/// The square of the distance between two sites.
fn span_of(a: Point16, b: Point16) -> (s: u64)
    ensures
        s == span(a, b),
        s <= MAX_SPAN,
{
    let dx: i64 = (b.x as i64) - (a.x as i64);
    let dy: i64 = (b.y as i64) - (a.y as i64);
    assert(0 <= dx * dx <= 65535 * 65535) by (nonlinear_arith)
        requires
            -65535 <= dx <= 65535,
    ;
    assert(0 <= dy * dy <= 65535 * 65535) by (nonlinear_arith)
        requires
            -65535 <= dy <= 65535,
    ;
    (dx * dx + dy * dy) as u64
}

/// Whether the triangle has a circumcircle of a radius within the bound.
fn is_tight(a: Point16, b: Point16, c: Point16) -> (verdict: bool)
    ensures
        verdict == tight(a, b, c),
{
    let t: i64 = turn_of(a, b, c);
    if t == 0 {
        return false;
    }
    let area: u128 = if t < 0 {
        (-t) as u128
    } else {
        t as u128
    };
    let first: u128 = span_of(a, b) as u128;
    let second: u128 = span_of(a, c) as u128;
    let third: u128 = span_of(b, c) as u128;
    assert(first * second <= 8_589_672_450 * 8_589_672_450) by (nonlinear_arith)
        requires
            first <= 8_589_672_450,
            second <= 8_589_672_450,
    ;
    assert(first * second * third <= 8_589_672_450 * 8_589_672_450 * 8_589_672_450)
        by (nonlinear_arith)
        requires
            first * second <= 8_589_672_450 * 8_589_672_450,
            third <= 8_589_672_450,
    ;
    assert(area * area <= 8_589_672_450 * 8_589_672_450) by (nonlinear_arith)
        requires
            area <= 8_589_672_450,
    ;
    assert(area * area == t * t) by (nonlinear_arith)
        requires
            area == t || area == -t,
    ;
    assert(4 * 1_099_511_627_776 * (area * area) <= 4 * 1_099_511_627_776 * (8_589_672_450
        * 8_589_672_450)) by (nonlinear_arith)
        requires
            area * area <= 8_589_672_450 * 8_589_672_450,
    ;
    let squared: u128 = area * area;
    let limit: u128 = 4 * (MAX_SEED_RADIUS_SQUARED as u128) * squared;
    first * second * third <= limit
}

/// Whether the sites start the triangulation from a triangle of bounded
/// size.
pub fn seed_fits(sites: &Vec<Point16>) -> (fits: bool)
    ensures
        fits == seed_bounded(sites@),
{
    let bounds = frame_of(sites);
    let middle_x: u32 = (bounds.bottom_left.x as u32) + (bounds.top_right.x as u32);
    let middle_y: u32 = (bounds.bottom_left.y as u32) + (bounds.top_right.y as u32);
    let ghost middle = frame_middle_doubled(sites@);
    assert(middle == (middle_x as int, middle_y as int));
    let a: usize = match nearest(sites, middle_x, middle_y) {
        Some(a) => a,
        None => {
            return true;
        },
    };
    let first = sites[a];
    let ghost around = doubled(first);
    assert(around == ((2 * (first.x as u32)) as int, (2 * (first.y as u32)) as int));
    let b: usize = match nearest(sites, 2 * (first.x as u32), 2 * (first.y as u32)) {
        Some(b) => b,
        None => {
            assert forall|i: int, j: int|
                first_nearest(sites@, middle, i) && #[trigger] first_nearest(
                    sites@,
                    doubled(sites[i]),
                    j,
                ) implies false by {
                assert(i == a);
            }
            return true;
        },
    };
    let second = sites[b];
    let mut any_turn = false;
    let mut any_tight = false;
    let mut q: usize = 0;
    while q < sites.len()
        invariant
            q <= sites.len(),
            any_turn ==> exists|k: int| 0 <= k < q && turn(first, second, #[trigger] sites[k]) != 0,
            !any_turn ==> forall|k: int| 0 <= k < q ==> turn(first, second, #[trigger] sites[k]) == 0,
            any_tight ==> exists|k: int| 0 <= k < q && tight(first, second, #[trigger] sites[k]),
            !any_tight ==> forall|k: int| 0 <= k < q ==> !tight(first, second, #[trigger] sites[k]),
        decreases sites.len() - q,
    {
        let third = sites[q];
        if turn_of(first, second, third) != 0 {
            any_turn = true;
        }
        if is_tight(first, second, third) {
            any_tight = true;
        }
        q += 1;
    }
    proof {
        if !any_turn || any_tight {
            assert forall|i: int, j: int|
                first_nearest(sites@, middle, i) && #[trigger] first_nearest(
                    sites@,
                    doubled(sites[i]),
                    j,
                ) implies on_one_line(sites@, i, j) || some_tight(sites@, i, j) by {
                assert(i == a);
                assert(j == b);
            }
        } else {
            assert(first_nearest(sites@, middle, a as int));
            assert(first_nearest(sites@, doubled(sites[a as int]), b as int));
            let k = choose|k: int| 0 <= k < sites.len() && turn(first, second, #[trigger] sites[k]) != 0;
            assert(turn(sites[a as int], sites[b as int], sites[k]) != 0);
        }
    }
    !any_turn || any_tight
}

} // verus!
