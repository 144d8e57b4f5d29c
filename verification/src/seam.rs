//! The fold of the generation margin into the seam strip.

use vstd::prelude::*;
use crate::continent::{Continent, ContinentView};
use crate::error::WorldError;
use crate::grid::{lemma_grid_ext, ContinentGrid, GridView};
use crate::point::{center_of_two_points, try_map_points_min_max_points_by_points, Point16, Size16};

verus! {

/// The midpoint of two sites, each coordinate rounded down.
pub open spec fn midpoint(a: Point16, b: Point16) -> Point16 {
    Point16 { x: ((a.x + b.x) / 2) as u16, y: ((a.y + b.y) / 2) as u16 }
}

/// `keeper` after it took over the realms of `donor`, behind its own, and
/// grew its box around the donor's.
pub open spec fn absorbed(keeper: ContinentView, donor: ContinentView) -> ContinentView {
    ContinentView {
        bottom_left: keeper.bounds().merge(donor.bounds()).bottom_left,
        top_right: keeper.bounds().merge(donor.bounds()).top_right,
        realms: keeper.realms + donor.realms,
        ..keeper
    }
}

/// `continent` moved to the grid cell `coord`.
pub open spec fn reindexed(continent: ContinentView, coord: Point16) -> ContinentView {
    ContinentView { grid_coord: coord, ..continent }
}

/// The seam continent at `coord` that `keeper` and its outward neighbour
/// `donor` fold into: it sits midway between the two sites.
pub open spec fn folded(
    keeper: ContinentView,
    donor: ContinentView,
    coord: Point16,
) -> ContinentView {
    ContinentView {
        grid_coord: coord,
        site_point: midpoint(keeper.site_point, donor.site_point),
        ..absorbed(keeper, donor)
    }
}

/// The corner of the seam: the cell `keeper` with the three cells around
/// the margin corner folded into it, in the order `top`, `left`, `diagonal`.
pub open spec fn folded_corner(
    keeper: ContinentView,
    top: ContinentView,
    left: ContinentView,
    diagonal: ContinentView,
) -> ContinentView {
    ContinentView {
        grid_coord: Point16 { x: 0, y: 0 },
        site_point: midpoint(keeper.site_point, diagonal.site_point),
        ..absorbed(absorbed(absorbed(keeper, top), left), diagonal)
    }
}

/// The fold can run on `source`: the grid has the margin ring to strip and
/// a cell beyond it, and every cell holds a continent, those of the margin
/// ring in column 0 and row 0 too.  A map that has been folded has no
/// margin ring left, so the fold refuses it.
pub open spec fn fold_ready(source: GridView) -> bool {
    &&& source.wf()
    &&& source.size.width >= 3
    &&& source.size.height >= 3
    &&& forall|x: int, y: int|
        0 <= x < source.size.width && 0 <= y < source.size.height ==> (#[trigger] source.at(
            x,
            y,
        )).is_some()
}

/// The size of the grids that the fold of a grid of size `source` yields.
pub open spec fn folded_size(source: Size16) -> Size16 {
    Size16 { width: (source.width - 2) as u16, height: (source.height - 2) as u16 }
}

/// What the seam strip holds at cell `(x, y)` after the fold of `source`.
pub open spec fn seam_cell(source: GridView, x: int, y: int) -> Option<ContinentView> {
    if x == 0 && y == 0 {
        Some(
            folded_corner(
                source.at(2, 2).unwrap(),
                source.at(2, 1).unwrap(),
                source.at(1, 2).unwrap(),
                source.at(1, 1).unwrap(),
            ),
        )
    } else if x == 0 && 1 <= y < source.size.height - 2 {
        Some(
            folded(
                source.at(2, y + 2).unwrap(),
                source.at(1, y + 2).unwrap(),
                Point16 { x: 0, y: y as u16 },
            ),
        )
    } else if y == 0 && 1 <= x < source.size.width - 2 {
        Some(
            folded(
                source.at(x + 2, 2).unwrap(),
                source.at(x + 2, 1).unwrap(),
                Point16 { x: x as u16, y: 0 },
            ),
        )
    } else {
        None
    }
}

/// What the interior holds at cell `(x, y)` after the fold of `source`.
pub open spec fn interior_cell(source: GridView, x: int, y: int) -> Option<ContinentView> {
    if 1 <= x < source.size.width - 2 && 1 <= y < source.size.height - 2 {
        Some(reindexed(source.at(x + 2, y + 2).unwrap(), Point16 { x: x as u16, y: y as u16 }))
    } else {
        None
    }
}

/// The seam strip that the fold of `source` yields.
pub open spec fn folded_seam(source: GridView) -> GridView {
    GridView {
        size: folded_size(source.size),
        columns: Seq::new(
            (source.size.width - 2) as nat,
            |x: int| Seq::new((source.size.height - 2) as nat, |y: int| seam_cell(source, x, y)),
        ),
    }
}

/// The interior that the fold of `source` yields.
pub open spec fn folded_interior(source: GridView) -> GridView {
    GridView {
        size: folded_size(source.size),
        columns: Seq::new(
            (source.size.width - 2) as nat,
            |x: int|
                Seq::new((source.size.height - 2) as nat, |y: int| interior_cell(source, x, y)),
        ),
    }
}

/// Whether the fold can run on the grid.
fn can_fold(continents: &ContinentGrid) -> (ready: bool)
    requires
        continents@.wf(),
    ensures
        ready == fold_ready(continents@),
{
    let width: u16 = continents.size.width;
    let height: u16 = continents.size.height;
    if width < 3 || height < 3 {
        return false;
    }
    let mut x: u16 = 0;
    while x < width
        invariant
            x <= width,
            3 <= height,
            width == continents.size.width,
            height == continents.size.height,
            continents@.wf(),
            forall|i: int, j: int|
                0 <= i < x && 0 <= j < height ==> (#[trigger] continents@.at(i, j)).is_some(),
        decreases width - x,
    {
        let mut y: u16 = 0;
        while y < height
            invariant
                x < width,
                y <= height,
                width == continents.size.width,
                height == continents.size.height,
                continents@.wf(),
                forall|i: int, j: int|
                    0 <= i < x && 0 <= j < height ==> (#[trigger] continents@.at(i, j)).is_some(),
                forall|j: int| 0 <= j < y ==> (#[trigger] continents@.at(x as int, j)).is_some(),
            decreases height - y,
        {
            if !continents.contains_key(x, y) {
                return false;
            }
            y += 1;
        }
        x += 1;
    }
    true
}

/// Moves the realms of `donor` behind those of `keeper` and grows the
/// keeper's box around the donor's.
fn absorb(keeper: &mut Continent, donor: Continent)
    ensures
        final(keeper)@ == absorbed(old(keeper)@, donor@),
        forall|px: (u16, u16)| #[trigger]
            final(keeper)@.pixel_count(px) == old(keeper)@.pixel_count(px) + donor@.pixel_count(px),
{
    let mut donor = donor;
    let ghost given = donor@;
    try_map_points_min_max_points_by_points(
        &mut keeper.bottom_left,
        &mut keeper.top_right,
        &donor.bottom_left,
        &donor.top_right,
    );
    keeper.realms.append(&mut donor.realms);
    assert(keeper@.realms =~= old(keeper)@.realms + given.realms);
    assert forall|px: (u16, u16)| #[trigger]
        keeper@.pixel_count(px) == old(keeper)@.pixel_count(px) + given.pixel_count(px) by {
        crate::sums::lemma_sum_concat(
            old(keeper)@.realms,
            given.realms,
            crate::continent::realm_weight(px),
        );
    }
}

/// Takes the continent at `keep` and its outward neighbour at `give` out of
/// the grid and puts what they fold into at `to` on the seam strip.
fn fold_pair(
    continents: &mut ContinentGrid,
    seam: &mut ContinentGrid,
    keep: Point16,
    give: Point16,
    to: Point16,
)
    requires
        old(continents)@.wf(),
        old(seam)@.wf(),
        old(continents)@.at(keep.x as int, keep.y as int).is_some(),
        old(continents)@.at(give.x as int, give.y as int).is_some(),
        keep != give,
        old(seam)@.has_cell(to.x as int, to.y as int),
        old(seam)@.at(to.x as int, to.y as int).is_none(),
    ensures
        final(continents)@.wf(),
        final(seam)@.wf(),
        final(continents)@.size == old(continents)@.size,
        final(seam)@.size == old(seam)@.size,
        forall|i: int, j: int| #[trigger]
            final(continents)@.at(i, j) == if (i == keep.x && j == keep.y) || (i == give.x && j
                == give.y) {
                None
            } else {
                old(continents)@.at(i, j)
            },
        forall|i: int, j: int| #[trigger]
            final(seam)@.at(i, j) == if i == to.x && j == to.y {
                Some(
                    folded(
                        old(continents)@.at(keep.x as int, keep.y as int).unwrap(),
                        old(continents)@.at(give.x as int, give.y as int).unwrap(),
                        to,
                    ),
                )
            } else {
                old(seam)@.at(i, j)
            },
        forall|px: (u16, u16)|
            final(seam)@.pixel_count(px) + #[trigger] final(continents)@.pixel_count(px) == old(
                seam,
            )@.pixel_count(px) + old(continents)@.pixel_count(px),
{
    let ghost c0 = continents@;
    let ghost s0 = seam@;
    let mut keeper = continents.take(keep.x, keep.y);
    let ghost c1 = continents@;
    let ghost k0 = keeper@;
    let donor = continents.take(give.x, give.y);
    let ghost d0 = donor@;
    let site = center_of_two_points(&keeper.site_point, &donor.site_point);
    absorb(&mut keeper, donor);
    let ghost k1 = keeper@;
    keeper.grid_coord = to;
    keeper.site_point = site;
    let ghost k2 = keeper@;
    seam.insert(to.x, to.y, keeper);
    proof {
        assert forall|px: (u16, u16)|
            seam@.pixel_count(px) + #[trigger] continents@.pixel_count(px) == s0.pixel_count(px)
                + c0.pixel_count(px) by {
            assert(c1.pixel_count(px) + k0.pixel_count(px) == c0.pixel_count(px));
            assert(continents@.pixel_count(px) + d0.pixel_count(px) == c1.pixel_count(px));
            assert(k1.pixel_count(px) == k0.pixel_count(px) + d0.pixel_count(px));
            assert(k2.pixel_count(px) == k1.pixel_count(px));
            assert(seam@.pixel_count(px) + crate::continent::cell_weight(px)(
                s0.at(to.x as int, to.y as int),
            ) == s0.pixel_count(px) + k2.pixel_count(px));
        }
    }
}

/// Takes the four continents around the margin corner out of the grid and
/// puts what they fold into at the origin of the seam strip.
fn fold_corner(continents: &mut ContinentGrid, seam: &mut ContinentGrid)
    requires
        old(continents)@.wf(),
        old(seam)@.wf(),
        old(continents)@.at(2, 2).is_some(),
        old(continents)@.at(2, 1).is_some(),
        old(continents)@.at(1, 2).is_some(),
        old(continents)@.at(1, 1).is_some(),
        old(seam)@.has_cell(0, 0),
        old(seam)@.at(0, 0).is_none(),
    ensures
        final(continents)@.wf(),
        final(seam)@.wf(),
        final(continents)@.size == old(continents)@.size,
        final(seam)@.size == old(seam)@.size,
        forall|i: int, j: int| #[trigger]
            final(continents)@.at(i, j) == if 1 <= i <= 2 && 1 <= j <= 2 {
                None
            } else {
                old(continents)@.at(i, j)
            },
        forall|i: int, j: int| #[trigger]
            final(seam)@.at(i, j) == if i == 0 && j == 0 {
                Some(
                    folded_corner(
                        old(continents)@.at(2, 2).unwrap(),
                        old(continents)@.at(2, 1).unwrap(),
                        old(continents)@.at(1, 2).unwrap(),
                        old(continents)@.at(1, 1).unwrap(),
                    ),
                )
            } else {
                old(seam)@.at(i, j)
            },
        forall|px: (u16, u16)|
            final(seam)@.pixel_count(px) + #[trigger] final(continents)@.pixel_count(px) == old(
                seam,
            )@.pixel_count(px) + old(continents)@.pixel_count(px),
{
    let ghost c0 = continents@;
    let ghost s0 = seam@;
    let mut corner = continents.take(2, 2);
    let ghost c1 = continents@;
    let ghost k0 = corner@;
    let top = continents.take(2, 1);
    let ghost c2 = continents@;
    let ghost t0 = top@;
    let left = continents.take(1, 2);
    let ghost c3 = continents@;
    let ghost l0 = left@;
    let diagonal = continents.take(1, 1);
    let ghost d0 = diagonal@;
    let corner_site = center_of_two_points(&corner.site_point, &diagonal.site_point);
    absorb(&mut corner, top);
    let ghost k1 = corner@;
    absorb(&mut corner, left);
    let ghost k2 = corner@;
    absorb(&mut corner, diagonal);
    let ghost k3 = corner@;
    corner.grid_coord = Point16::new(0, 0);
    corner.site_point = corner_site;
    let ghost k4 = corner@;
    seam.insert(0, 0, corner);
    proof {
        assert forall|px: (u16, u16)|
            seam@.pixel_count(px) + #[trigger] continents@.pixel_count(px) == s0.pixel_count(px)
                + c0.pixel_count(px) by {
            assert(c1.pixel_count(px) + k0.pixel_count(px) == c0.pixel_count(px));
            assert(c2.pixel_count(px) + t0.pixel_count(px) == c1.pixel_count(px));
            assert(c3.pixel_count(px) + l0.pixel_count(px) == c2.pixel_count(px));
            assert(continents@.pixel_count(px) + d0.pixel_count(px) == c3.pixel_count(px));
            assert(k1.pixel_count(px) == k0.pixel_count(px) + t0.pixel_count(px));
            assert(k2.pixel_count(px) == k1.pixel_count(px) + l0.pixel_count(px));
            assert(k3.pixel_count(px) == k2.pixel_count(px) + d0.pixel_count(px));
            assert(k4.pixel_count(px) == k3.pixel_count(px));
            assert(seam@.pixel_count(px) + crate::continent::cell_weight(px)(s0.at(0, 0))
                == s0.pixel_count(px) + k4.pixel_count(px));
        }
    }
}

/// Takes the continent at `(x, y)` out of the grid and puts it two cells
/// down and left into the interior.
fn reindex(continents: &mut ContinentGrid, interior: &mut ContinentGrid, x: u16, y: u16)
    requires
        old(continents)@.wf(),
        old(interior)@.wf(),
        x >= 2,
        y >= 2,
        old(continents)@.at(x as int, y as int).is_some(),
        old(interior)@.has_cell(x - 2, y - 2),
        old(interior)@.at(x - 2, y - 2).is_none(),
    ensures
        final(continents)@.wf(),
        final(interior)@.wf(),
        final(continents)@.size == old(continents)@.size,
        final(interior)@.size == old(interior)@.size,
        forall|i: int, j: int| #[trigger]
            final(continents)@.at(i, j) == if i == x && j == y {
                None
            } else {
                old(continents)@.at(i, j)
            },
        forall|i: int, j: int| #[trigger]
            final(interior)@.at(i, j) == if i == x - 2 && j == y - 2 {
                Some(
                    reindexed(
                        old(continents)@.at(x as int, y as int).unwrap(),
                        Point16 { x: (x - 2) as u16, y: (y - 2) as u16 },
                    ),
                )
            } else {
                old(interior)@.at(i, j)
            },
        forall|px: (u16, u16)|
            final(interior)@.pixel_count(px) + #[trigger] final(continents)@.pixel_count(px) == old(
                interior,
            )@.pixel_count(px) + old(continents)@.pixel_count(px),
{
    let ghost c0 = continents@;
    let ghost i0 = interior@;
    let mut continent = continents.take(x, y);
    let ghost k0 = continent@;
    continent.grid_coord = Point16::new(x - 2, y - 2);
    let ghost k1 = continent@;
    interior.insert(x - 2, y - 2, continent);
    proof {
        assert forall|px: (u16, u16)|
            interior@.pixel_count(px) + #[trigger] continents@.pixel_count(px) == i0.pixel_count(px)
                + c0.pixel_count(px) by {
            assert(continents@.pixel_count(px) + k0.pixel_count(px) == c0.pixel_count(px));
            assert(k1.pixel_count(px) == k0.pixel_count(px));
            assert(interior@.pixel_count(px) + crate::continent::cell_weight(px)(
                i0.at(x - 2, y - 2),
            ) == i0.pixel_count(px) + k1.pixel_count(px));
        }
    }
}

/// Folds the generation margin away.  The outer ring of the grid (column 0
/// and row 0) is dropped.  The four cells at `(1..=2, 1..=2)` become the
/// seam's corner at `(0, 0)`.  Along column 2 and along row 2, each cell
/// takes over its outward neighbour in column 1 or row 1 and becomes a cell
/// of the seam strip, at `(0, y - 2)` or `(x - 2, 0)`.  Every cell beyond
/// moves two cells down and left into the interior.  The grid is left
/// vacant, so a second fold of it finds no cell and fails.  No pixel is
/// made: what the seam strip and the interior hold, the grid held.
///
/// Returns the seam strip and the interior, in that order.  Fails, and
/// changes nothing, where the grid is smaller than three by three cells or
/// a cell of it is vacant, a cell of the margin ring too.  So a map
/// without its margin is refused: neither the seam strip nor the interior
/// that a fold returns can be folded again.
pub fn merge_continents(continents: &mut ContinentGrid) -> (merged: Result<
    (ContinentGrid, ContinentGrid),
    WorldError,
>)
    requires
        old(continents)@.wf(),
    ensures
        match merged {
            Ok((seam, interior)) => {
                &&& fold_ready(old(continents)@)
                &&& seam@ == folded_seam(old(continents)@)
                &&& interior@ == folded_interior(old(continents)@)
                &&& final(continents)@ == GridView::vacant(old(continents)@.size)
                &&& forall|px: (u16, u16)|
                    seam@.pixel_count(px) + #[trigger] interior@.pixel_count(px) <= old(
                        continents,
                    )@.pixel_count(px)
            },
            Err(error) => {
                &&& error == WorldError::MissingEntity
                &&& !fold_ready(old(continents)@)
                &&& final(continents)@ == old(continents)@
            },
        },
{
    if !can_fold(continents) {
        return Err(WorldError::MissingEntity);
    }
    let ghost source = continents@;
    let width: u16 = continents.size.width;
    let height: u16 = continents.size.height;
    let out_size = Size16::new(width - 2, height - 2);
    let mut seam = ContinentGrid::new(out_size);
    let mut interior = ContinentGrid::new(out_size);
    proof {
        assert forall|px: (u16, u16)|
            seam@.pixel_count(px) + interior@.pixel_count(px) + #[trigger] continents@.pixel_count(
                px,
            ) == source.pixel_count(px) by {
            crate::grid::lemma_vacant_holds_nothing(out_size, px);
        }
    }

    assert(source.at(2, 2).is_some() && source.at(2, 1).is_some() && source.at(1, 2).is_some()
        && source.at(1, 1).is_some());
    fold_corner(continents, &mut seam);

    let mut y: u16 = 3;
    while y < height
        invariant
            3 <= y <= height,
            3 <= width,
            fold_ready(source),
            source.size == continents@.size,
            width == source.size.width,
            height == source.size.height,
            continents@.wf(),
            seam@.wf(),
            seam@.size == out_size,
            out_size == folded_size(source.size),
            forall|i: int, j: int|
                (3 <= i < width && 1 <= j < height) || (1 <= i < 3 && y <= j < height)
                    ==> #[trigger] continents@.at(i, j) == source.at(i, j),
            forall|i: int, j: int|
                seam@.has_cell(i, j) ==> #[trigger] seam@.at(i, j) == if i == 0 && j < y - 2 {
                    seam_cell(source, i, j)
                } else {
                    None
                },
            forall|px: (u16, u16)|
                seam@.pixel_count(px) + interior@.pixel_count(px) + #[trigger] continents@.pixel_count(
                    px,
                ) == source.pixel_count(px),
        decreases height - y,
    {
        assert(source.at(2, y as int).is_some() && source.at(1, y as int).is_some());
        assert(seam@.has_cell(0, y - 2));
        fold_pair(
            continents,
            &mut seam,
            Point16::new(2, y),
            Point16::new(1, y),
            Point16::new(0, y - 2),
        );
        y += 1;
    }

    let mut x: u16 = 3;
    while x < width
        invariant
            3 <= x <= width,
            3 <= height,
            fold_ready(source),
            source.size == continents@.size,
            width == source.size.width,
            height == source.size.height,
            continents@.wf(),
            seam@.wf(),
            seam@.size == out_size,
            out_size == folded_size(source.size),
            forall|i: int, j: int|
                3 <= i < width && 1 <= j < height && (3 <= j || x <= i)
                    ==> #[trigger] continents@.at(i, j) == source.at(i, j),
            forall|i: int, j: int|
                seam@.has_cell(i, j) ==> #[trigger] seam@.at(i, j) == if i == 0 || (j == 0 && i < x
                    - 2) {
                    seam_cell(source, i, j)
                } else {
                    None
                },
            forall|px: (u16, u16)|
                seam@.pixel_count(px) + interior@.pixel_count(px) + #[trigger] continents@.pixel_count(
                    px,
                ) == source.pixel_count(px),
        decreases width - x,
    {
        assert(source.at(x as int, 2).is_some() && source.at(x as int, 1).is_some());
        assert(seam@.has_cell(x - 2, 0));
        fold_pair(
            continents,
            &mut seam,
            Point16::new(x, 2),
            Point16::new(x, 1),
            Point16::new(x - 2, 0),
        );
        x += 1;
    }

    let mut x: u16 = 3;
    while x < width
        invariant
            3 <= x <= width,
            3 <= height,
            fold_ready(source),
            source.size == continents@.size,
            width == source.size.width,
            height == source.size.height,
            continents@.wf(),
            interior@.wf(),
            interior@.size == out_size,
            out_size == folded_size(source.size),
            forall|i: int, j: int|
                x <= i < width && 3 <= j < height ==> #[trigger] continents@.at(i, j) == source.at(
                    i,
                    j,
                ),
            forall|i: int, j: int|
                interior@.has_cell(i, j) ==> #[trigger] interior@.at(i, j) == if i < x - 2 {
                    interior_cell(source, i, j)
                } else {
                    None
                },
            forall|px: (u16, u16)|
                seam@.pixel_count(px) + interior@.pixel_count(px) + #[trigger] continents@.pixel_count(
                    px,
                ) == source.pixel_count(px),
        decreases width - x,
    {
        let mut y: u16 = 3;
        while y < height
            invariant
                3 <= x < width,
                3 <= y <= height,
                fold_ready(source),
                source.size == continents@.size,
                width == source.size.width,
                height == source.size.height,
                continents@.wf(),
                interior@.wf(),
                interior@.size == out_size,
                out_size == folded_size(source.size),
                forall|i: int, j: int|
                    (x < i < width && 3 <= j < height) || (i == x && y <= j < height)
                        ==> #[trigger] continents@.at(i, j) == source.at(i, j),
                forall|i: int, j: int|
                    interior@.has_cell(i, j) ==> #[trigger] interior@.at(i, j) == if i < x - 2 || (i
                        == x - 2 && j < y - 2) {
                        interior_cell(source, i, j)
                    } else {
                        None
                    },
                forall|px: (u16, u16)|
                    seam@.pixel_count(px) + interior@.pixel_count(px)
                        + #[trigger] continents@.pixel_count(px) == source.pixel_count(px),
            decreases height - y,
        {
            assert(source.at(x as int, y as int).is_some());
            assert(interior@.has_cell(x - 2, y - 2));
            reindex(continents, &mut interior, x, y);
            y += 1;
        }
        x += 1;
    }

    proof {
        let left = continents@;
        assert forall|px: (u16, u16)|
            seam@.pixel_count(px) + #[trigger] interior@.pixel_count(px) <= source.pixel_count(
                px,
            ) by {
            assert(seam@.pixel_count(px) + interior@.pixel_count(px) + left.pixel_count(px)
                == source.pixel_count(px));
        }
    }
    *continents = ContinentGrid::new(continents.size);
    proof {
        lemma_grid_ext(seam@, folded_seam(source));
        lemma_grid_ext(interior@, folded_interior(source));
    }
    Ok((seam, interior))
}

} // verus!
