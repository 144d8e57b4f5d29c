//! What the move and the merge of the seams guarantee.

use vstd::prelude::*;
use crate::continent::{
    cell_weight, column_weight, lemma_bounds_concat, lemma_bounds_push, province_weight,
    realm_pixel_bounds, realm_weight, region_weight, seq_bounds, ContinentView, ProvinceView,
    RealmView, RegionView,
};
use crate::grid::{GridView, PlanetView};
use crate::point::{lemma_merge_laws, Bounds, Size16};
use crate::pixels_laws::{
    lemma_flagged_holds, lemma_flat_pixels_count, lemma_noting_walk_holds_once,
    lemma_sifted_continent_fewer, lemma_sifted_continent_pruned, lemma_sifted_continent_removed,
    lemma_unflagged_holds,
};
use crate::pixels_utils::{flagged, flat_pixels, sifted_continent, unflagged, Sift};
use crate::seamless::{
    cell_sound, centered_interior_cell, emptied, centered_planet, centered_ready, centered_seam,
    centered_seam_cell, column_marks, corner_00, culled, gathered_cell, gathered_planet,
    in_interior, moved_cell, moved_interior, moved_seam, on_seam, row_marks, scrubbed,
    seam_marks, shifted_continent, shifted_province, shifted_realm, shifted_region, tidy_cell,
    with_realms_of, wrapped,
};
use crate::sums::{is_pixel, lemma_sum_pointwise, lemma_sum_zero};

verus! {

/// The coordinate that the move brings to `v`, on an axis of length
/// `extent` that wraps around.
pub open spec fn unwrapped(v: u16, shift: u16, extent: u16) -> u16 {
    if v + shift < extent {
        (v + shift) as u16
    } else {
        (v + shift - extent) as u16
    }
}

/// The pixel that the move brings to `px`.
pub open spec fn origin_of(px: (u16, u16), by: Size16, canvas: Size16) -> (u16, u16) {
    (unwrapped(px.0, by.width, canvas.width), unwrapped(px.1, by.height, canvas.height))
}

/// Whether `px` lies on the canvas.
pub open spec fn on_canvas(px: (u16, u16), canvas: Size16) -> bool {
    px.0 < canvas.width && px.1 < canvas.height
}

/// On the canvas the move is one to one: it brings a coordinate to `q`
/// exactly where the coordinate is the origin of `q`, and it leaves the
/// canvas nowhere.
pub proof fn lemma_wrapped_one_to_one(v: u16, q: u16, shift: u16, extent: u16)
    requires
        shift <= extent,
        v < extent,
    ensures
        wrapped(v, shift, extent) < extent,
        q < extent ==> (wrapped(v, shift, extent) == q <==> v == unwrapped(q, shift, extent)),
{
}

pub proof fn lemma_shifted_region_count(
    region: RegionView,
    by: Size16,
    canvas: Size16,
    px: (u16, u16),
)
    requires
        by.width <= canvas.width,
        by.height <= canvas.height,
        region.within(canvas),
    ensures
        shifted_region(region, by, canvas).within(canvas),
        shifted_region(region, by, canvas).pixel_count(px) == if on_canvas(px, canvas) {
            region.pixel_count(origin_of(px, by, canvas))
        } else {
            0
        },
{
    let moved = shifted_region(region, by, canvas);
    assert forall|i: int| 0 <= i < moved.pixels.len() implies (#[trigger] moved.pixels[i]).0
        < canvas.width && moved.pixels[i].1 < canvas.height by {
        let from = region.pixels[i];
        lemma_wrapped_one_to_one(from.0, 0, by.width, canvas.width);
        lemma_wrapped_one_to_one(from.1, 0, by.height, canvas.height);
    }
    if on_canvas(px, canvas) {
        let origin = origin_of(px, by, canvas);
        assert forall|i: int| 0 <= i < moved.pixels.len() implies is_pixel(px)(
            #[trigger] moved.pixels[i],
        ) == is_pixel(origin)(region.pixels[i]) by {
            let from = region.pixels[i];
            lemma_wrapped_one_to_one(from.0, px.0, by.width, canvas.width);
            lemma_wrapped_one_to_one(from.1, px.1, by.height, canvas.height);
        }
        lemma_sum_pointwise(moved.pixels, is_pixel(px), region.pixels, is_pixel(origin));
    } else {
        assert forall|i: int| 0 <= i < moved.pixels.len() implies is_pixel(px)(
            #[trigger] moved.pixels[i],
        ) == 0 by {}
        lemma_sum_zero(moved.pixels, is_pixel(px));
    }
}

pub proof fn lemma_shifted_province_count(
    province: ProvinceView,
    by: Size16,
    canvas: Size16,
    px: (u16, u16),
)
    requires
        by.width <= canvas.width,
        by.height <= canvas.height,
        province.within(canvas),
    ensures
        shifted_province(province, by, canvas).within(canvas),
        shifted_province(province, by, canvas).pixel_count(px) == if on_canvas(px, canvas) {
            province.pixel_count(origin_of(px, by, canvas))
        } else {
            0
        },
{
    let moved = shifted_province(province, by, canvas);
    assert forall|i: int| 0 <= i < moved.regions.len() implies (#[trigger] moved.regions[i]).within(
        canvas,
    ) by {
        lemma_shifted_region_count(province.regions[i], by, canvas, px);
    }
    if on_canvas(px, canvas) {
        let origin = origin_of(px, by, canvas);
        assert forall|i: int| 0 <= i < moved.regions.len() implies region_weight(px)(
            #[trigger] moved.regions[i],
        ) == region_weight(origin)(province.regions[i]) by {
            lemma_shifted_region_count(province.regions[i], by, canvas, px);
        }
        lemma_sum_pointwise(moved.regions, region_weight(px), province.regions, region_weight(origin));
    } else {
        assert forall|i: int| 0 <= i < moved.regions.len() implies region_weight(px)(
            #[trigger] moved.regions[i],
        ) == 0 by {
            lemma_shifted_region_count(province.regions[i], by, canvas, px);
        }
        lemma_sum_zero(moved.regions, region_weight(px));
    }
}

pub proof fn lemma_shifted_realm_count(realm: RealmView, by: Size16, canvas: Size16, px: (u16, u16))
    requires
        by.width <= canvas.width,
        by.height <= canvas.height,
        realm.within(canvas),
    ensures
        shifted_realm(realm, by, canvas).within(canvas),
        shifted_realm(realm, by, canvas).pixel_count(px) == if on_canvas(px, canvas) {
            realm.pixel_count(origin_of(px, by, canvas))
        } else {
            0
        },
{
    let moved = shifted_realm(realm, by, canvas);
    assert forall|i: int| 0 <= i < moved.provinces.len() implies (
    #[trigger] moved.provinces[i]).within(canvas) by {
        lemma_shifted_province_count(realm.provinces[i], by, canvas, px);
    }
    if on_canvas(px, canvas) {
        let origin = origin_of(px, by, canvas);
        assert forall|i: int| 0 <= i < moved.provinces.len() implies province_weight(px)(
            #[trigger] moved.provinces[i],
        ) == province_weight(origin)(realm.provinces[i]) by {
            lemma_shifted_province_count(realm.provinces[i], by, canvas, px);
        }
        lemma_sum_pointwise(
            moved.provinces,
            province_weight(px),
            realm.provinces,
            province_weight(origin),
        );
    } else {
        assert forall|i: int| 0 <= i < moved.provinces.len() implies province_weight(px)(
            #[trigger] moved.provinces[i],
        ) == 0 by {
            lemma_shifted_province_count(realm.provinces[i], by, canvas, px);
        }
        lemma_sum_zero(moved.provinces, province_weight(px));
    }
}

/// A moved continent holds a pixel as often as it held, before the move,
/// the pixel that the move brings there; and it stays on the canvas.
pub proof fn lemma_shifted_continent_count(
    continent: ContinentView,
    by: Size16,
    canvas: Size16,
    px: (u16, u16),
)
    requires
        by.width <= canvas.width,
        by.height <= canvas.height,
        continent.within(canvas),
    ensures
        shifted_continent(continent, by, canvas).within(canvas),
        shifted_continent(continent, by, canvas).pixel_count(px) == if on_canvas(px, canvas) {
            continent.pixel_count(origin_of(px, by, canvas))
        } else {
            0
        },
{
    let moved = shifted_continent(continent, by, canvas);
    assert forall|i: int| 0 <= i < moved.realms.len() implies (#[trigger] moved.realms[i]).within(
        canvas,
    ) by {
        lemma_shifted_realm_count(continent.realms[i], by, canvas, px);
    }
    if on_canvas(px, canvas) {
        let origin = origin_of(px, by, canvas);
        assert forall|i: int| 0 <= i < moved.realms.len() implies realm_weight(px)(
            #[trigger] moved.realms[i],
        ) == realm_weight(origin)(continent.realms[i]) by {
            lemma_shifted_realm_count(continent.realms[i], by, canvas, px);
        }
        lemma_sum_pointwise(moved.realms, realm_weight(px), continent.realms, realm_weight(origin));
    } else {
        assert forall|i: int| 0 <= i < moved.realms.len() implies realm_weight(px)(
            #[trigger] moved.realms[i],
        ) == 0 by {
            lemma_shifted_realm_count(continent.realms[i], by, canvas, px);
        }
        lemma_sum_zero(moved.realms, realm_weight(px));
    }
}

/// Every continent of the grid keeps its pixels on the canvas.
pub open spec fn grid_within(grid: GridView, canvas: Size16) -> bool {
    forall|x: int, y: int|
        (#[trigger] grid.at(x, y)) matches Some(continent) ==> continent.within(canvas)
}

/// A grid of which every continent was moved holds a pixel as often as it
/// held, before the move, the pixel that the move brings there.
pub proof fn lemma_moved_grid_count(
    grid: GridView,
    after: GridView,
    by: Size16,
    canvas: Size16,
    px: (u16, u16),
)
    requires
        by.width <= canvas.width,
        by.height <= canvas.height,
        grid.wf(),
        after.wf(),
        after.size == grid.size,
        grid_within(grid, canvas),
        forall|x: int, y: int|
            grid.has_cell(x, y) ==> #[trigger] after.at(x, y) == moved_cell(
                grid.at(x, y),
                by,
                canvas,
            ),
    ensures
        after.pixel_count(px) == if on_canvas(px, canvas) {
            grid.pixel_count(origin_of(px, by, canvas))
        } else {
            0
        },
        grid_within(after, canvas),
{
    let origin = origin_of(px, by, canvas);
    assert forall|x: int, y: int| grid.has_cell(x, y) implies cell_weight(px)(
        #[trigger] after.at(x, y),
    ) == if on_canvas(px, canvas) {
        cell_weight(origin)(grid.at(x, y))
    } else {
        0
    } by {
        match grid.at(x, y) {
            Some(continent) => {
                lemma_shifted_continent_count(continent, by, canvas, px);
            },
            None => {},
        }
    }
    assert forall|x: int, y: int| (#[trigger] after.at(x, y)).is_some() implies after.at(
        x,
        y,
    ).unwrap().within(canvas) by {
        if grid.has_cell(x, y) {
            match grid.at(x, y) {
                Some(continent) => {
                    lemma_shifted_continent_count(continent, by, canvas, px);
                },
                None => {},
            }
        }
    }
    if on_canvas(px, canvas) {
        assert forall|x: int| 0 <= x < after.columns.len() implies column_weight(px)(
            #[trigger] after.columns[x],
        ) == column_weight(origin)(grid.columns[x]) by {
            assert forall|y: int| 0 <= y < after.columns[x].len() implies cell_weight(px)(
                #[trigger] after.columns[x][y],
            ) == cell_weight(origin)(grid.columns[x][y]) by {
                assert(grid.has_cell(x, y));
                assert(after.at(x, y) == after.columns[x][y]);
                assert(grid.at(x, y) == grid.columns[x][y]);
            }
            lemma_sum_pointwise(
                after.columns[x],
                cell_weight(px),
                grid.columns[x],
                cell_weight(origin),
            );
        }
        lemma_sum_pointwise(after.columns, column_weight(px), grid.columns, column_weight(origin));
    } else {
        assert forall|x: int| 0 <= x < after.columns.len() implies column_weight(px)(
            #[trigger] after.columns[x],
        ) == 0 by {
            assert forall|y: int| 0 <= y < after.columns[x].len() implies cell_weight(px)(
                #[trigger] after.columns[x][y],
            ) == 0 by {
                assert(grid.has_cell(x, y));
                assert(after.at(x, y) == after.columns[x][y]);
            }
            lemma_sum_zero(after.columns[x], cell_weight(px));
        }
        lemma_sum_zero(after.columns, column_weight(px));
    }
}

/// The map is laid out on the final grid: the interior holds continents on
/// interior cells only, the seam strip on seam cells only.
pub open spec fn laid_out(planet: PlanetView, final_grid: Size16) -> bool {
    &&& forall|x: int, y: int|
        !in_interior(final_grid, x, y) ==> (#[trigger] planet.continents.at(x, y)).is_none()
    &&& forall|x: int, y: int|
        !on_seam(final_grid, x, y) ==> (#[trigger] planet.edge_continents.at(x, y)).is_none()
}

/// The move keeps pixels apart.  On a map that is laid out on the final
/// grid and keeps its pixels on the canvas, the move brings each pixel to a
/// place of its own: after it, a pixel of the canvas is held as often as
/// the pixel that the move brings there was held before, and no pixel off
/// the canvas is held.  So where no pixel was held twice, none is.
pub proof fn lemma_move_keeps_pixels_apart(
    planet: PlanetView,
    final_grid: Size16,
    by: Size16,
    canvas: Size16,
    px: (u16, u16),
)
    requires
        by.width <= canvas.width,
        by.height <= canvas.height,
        planet.wf(),
        laid_out(planet, final_grid),
        grid_within(planet.continents, canvas),
        grid_within(planet.edge_continents, canvas),
    ensures
        ({
            let after = PlanetView {
                continents: moved_interior(planet.continents, final_grid, by, canvas),
                edge_continents: moved_seam(planet.edge_continents, final_grid, by, canvas),
            };
            &&& after.pixel_count(px) == if on_canvas(px, canvas) {
                planet.pixel_count(origin_of(px, by, canvas))
            } else {
                0
            }
            &&& grid_within(after.continents, canvas)
            &&& grid_within(after.edge_continents, canvas)
            &&& laid_out(after, final_grid)
            &&& (forall|p: (u16, u16)| planet.pixel_count(p) <= 1) ==> after.pixel_count(px) <= 1
        }),
{
    let interior = moved_interior(planet.continents, final_grid, by, canvas);
    let seam = moved_seam(planet.edge_continents, final_grid, by, canvas);
    assert forall|x: int, y: int| planet.continents.has_cell(x, y) implies (#[trigger] interior.at(
        x,
        y,
    )) == moved_cell(planet.continents.at(x, y), by, canvas) by {
        if !in_interior(final_grid, x, y) {
            assert(planet.continents.at(x, y).is_none());
        }
    }
    assert forall|x: int, y: int| planet.edge_continents.has_cell(x, y) implies (#[trigger] seam.at(
        x,
        y,
    )) == moved_cell(planet.edge_continents.at(x, y), by, canvas) by {
        if !on_seam(final_grid, x, y) {
            assert(planet.edge_continents.at(x, y).is_none());
        }
    }
    lemma_moved_grid_count(planet.continents, interior, by, canvas, px);
    lemma_moved_grid_count(planet.edge_continents, seam, by, canvas, px);
    assert forall|x: int, y: int| !in_interior(final_grid, x, y) implies (#[trigger] interior.at(
        x,
        y,
    )).is_none() by {
        assert(planet.continents.at(x, y).is_none());
    }
    assert forall|x: int, y: int| !on_seam(final_grid, x, y) implies (#[trigger] seam.at(
        x,
        y,
    )).is_none() by {
        assert(planet.edge_continents.at(x, y).is_none());
    }
}

/// A map whose seams have been merged cannot be merged again: the merge
/// takes the last continent of the seam's column 0 off the map, and a
/// second merge would read it.
pub proof fn lemma_centered_cannot_repeat(planet: PlanetView, grid: Size16)
    requires
        centered_ready(planet, grid),
    ensures
        !centered_ready(centered_planet(planet, grid), grid),
{
    let gathered = gathered_planet(planet, grid);
    let after = centered_planet(planet, grid);
    assert(planet.edge_continents.at(0, grid.height - 1).is_some());
    assert(planet.edge_continents.has_cell(0, grid.height - 1));
    assert(gathered.edge_continents.at(0, grid.height - 1) == centered_seam_cell(
        planet.edge_continents,
        grid,
        0,
        grid.height - 1,
    ));
    assert(after.edge_continents.at(0, grid.height - 1) == tidy_cell(
        gathered.edge_continents.at(0, grid.height - 1),
    ));
}

/// The corner of the merged seam holds no pixel twice, whatever the
/// continents that went into it held.
pub proof fn lemma_corner_holds_once(seam: GridView, grid: Size16, px: (u16, u16))
    ensures
        corner_00(seam, grid).pixel_count(px) <= 1,
{
    let merged = with_realms_of(
        with_realms_of(seam.at(0, 0).unwrap(), seam.at(0, grid.height - 1).unwrap()),
        seam.at(grid.width - 1, 0).unwrap(),
    );
    lemma_noting_walk_holds_once(
        sifted_continent(merged, Map::empty(), Sift::Held),
        Map::empty(),
        px,
    );
}

/// A continent that gave up what another holds has no pixel of the
/// other's, and nothing vacant beneath it.
pub proof fn lemma_culled_apart(continent: ContinentView, taken: Seq<(u16, u16)>, px: (u16, u16))
    ensures
        culled(continent, taken).pruned(),
        culled(continent, taken).pixel_count(px) <= continent.pixel_count(px),
        taken.contains(px) ==> culled(continent, taken).pixel_count(px) == 0,
{
    let own = unflagged(Map::empty(), flat_pixels(continent));
    let marks = flagged(own, taken);
    lemma_sifted_continent_pruned(continent, marks, Sift::Flagged);
    lemma_sifted_continent_fewer(continent, marks, Sift::Flagged, px);
    if taken.contains(px) && continent.pixel_count(px) > 0 {
        lemma_flat_pixels_count(continent, px);
        lemma_unflagged_holds(Map::empty(), flat_pixels(continent), px);
        lemma_flagged_holds(own, taken, px);
        lemma_sifted_continent_removed(continent, marks, Sift::Flagged, px);
    }
}

/// A continent that gave up what the marks hold has no pixel of theirs,
/// and nothing vacant beneath it.
pub proof fn lemma_scrubbed_apart(
    continent: ContinentView,
    marks: Map<(u16, u16), bool>,
    px: (u16, u16),
)
    ensures
        scrubbed(continent, marks).pruned(),
        scrubbed(continent, marks).pixel_count(px) <= continent.pixel_count(px),
        marks.contains_key(px) ==> scrubbed(continent, marks).pixel_count(px) == 0,
{
    let cleaned = sifted_continent(continent, Map::empty(), Sift::Held);
    lemma_sifted_continent_pruned(cleaned, marks, Sift::Held);
    lemma_sifted_continent_fewer(continent, Map::empty(), Sift::Held, px);
    lemma_sifted_continent_fewer(cleaned, marks, Sift::Held, px);
    if marks.contains_key(px) {
        lemma_sifted_continent_removed(cleaned, marks, Sift::Held, px);
    }
}

/// The marks of row 0 hold what they started from and every pixel of the
/// cells that went into them.
pub proof fn lemma_row_marks_hold(
    marks: Map<(u16, u16), bool>,
    seam: GridView,
    n: nat,
    x: int,
    px: (u16, u16),
)
    ensures
        marks.contains_key(px) ==> row_marks(marks, seam, n).contains_key(px),
        1 <= x < n && seam.at(x, 0).unwrap().pixel_count(px) > 0 ==> row_marks(
            marks,
            seam,
            n,
        ).contains_key(px),
    decreases n,
{
    if n > 1 {
        lemma_row_marks_hold(marks, seam, (n - 1) as nat, x, px);
        let cell = seam.at(n - 1, 0).unwrap();
        lemma_unflagged_holds(row_marks(marks, seam, (n - 1) as nat), flat_pixels(cell), px);
        lemma_flat_pixels_count(cell, px);
    }
}

/// The marks of column 0 hold what they started from and every pixel of
/// the cells that went into them.
pub proof fn lemma_column_marks_hold(
    marks: Map<(u16, u16), bool>,
    seam: GridView,
    n: nat,
    y: int,
    px: (u16, u16),
)
    ensures
        marks.contains_key(px) ==> column_marks(marks, seam, n).contains_key(px),
        1 <= y < n && seam.at(0, y).unwrap().pixel_count(px) > 0 ==> column_marks(
            marks,
            seam,
            n,
        ).contains_key(px),
    decreases n,
{
    if n > 1 {
        lemma_column_marks_hold(marks, seam, (n - 1) as nat, y, px);
        let cell = seam.at(0, n - 1).unwrap();
        lemma_unflagged_holds(column_marks(marks, seam, (n - 1) as nat), flat_pixels(cell), px);
        lemma_flat_pixels_count(cell, px);
    }
}

/// Whether the gathered seam strip holds the pixel `px`: its corner, or a
/// cell of its row 0 or of its column 0.
pub open spec fn seam_holds(seam: GridView, grid: Size16, px: (u16, u16)) -> bool {
    let merged = centered_seam(seam, grid);
    ||| corner_00(seam, grid).pixel_count(px) > 0
    ||| exists|x: int|
        1 <= x < grid.width - 1 && (#[trigger] merged.at(x, 0)).unwrap().pixel_count(px) > 0
    ||| exists|y: int|
        1 <= y < grid.height - 1 && (#[trigger] merged.at(0, y)).unwrap().pixel_count(px) > 0
}

/// The gathering of the seams takes apart what the move laid over each
/// other.  Whatever the map held before: the corner of the seam holds no
/// pixel twice; the seam cells next to the two that left hold no pixel of
/// the corner's; and the interior cells that took the realms of the last
/// row and the last column hold no pixel of the seam strip's.
pub proof fn lemma_gathered_takes_apart(planet: PlanetView, grid: Size16, px: (u16, u16))
    requires
        centered_ready(planet, grid),
    ensures
        ({
            let after = gathered_planet(planet, grid);
            let corner = after.edge_continents.at(0, 0).unwrap();
            &&& after.edge_continents.at(0, 0).is_some()
            &&& corner.pixel_count(px) <= 1
            &&& corner.pixel_count(px) > 0 ==> {
                &&& after.edge_continents.at(grid.width - 2, 0).unwrap().pixel_count(px) == 0
                &&& after.edge_continents.at(0, grid.height - 2).unwrap().pixel_count(px) == 0
            }
            &&& seam_holds(planet.edge_continents, grid, px) ==> forall|x: int, y: int|
                in_interior(grid, x, y) && (x == grid.width - 2 || y == grid.height - 2)
                    ==> cell_weight(px)(#[trigger] after.continents.at(x, y)) == 0
        }),
{
    let seam = planet.edge_continents;
    let after = gathered_planet(planet, grid);
    let w = grid.width as int;
    let h = grid.height as int;
    assert(seam.at(0, 0).is_some());
    assert(seam.at(w - 2, 0).is_some());
    assert(seam.at(0, h - 2).is_some());
    assert(after.edge_continents.at(0, 0) == centered_seam_cell(seam, grid, 0, 0));
    assert(after.edge_continents.at(w - 2, 0) == centered_seam_cell(seam, grid, w - 2, 0));
    assert(after.edge_continents.at(0, h - 2) == centered_seam_cell(seam, grid, 0, h - 2));
    let corner = corner_00(seam, grid);
    lemma_corner_holds_once(seam, grid, px);
    lemma_flat_pixels_count(corner, px);
    lemma_culled_apart(seam.at(w - 2, 0).unwrap(), flat_pixels(corner), px);
    lemma_culled_apart(seam.at(0, h - 2).unwrap(), flat_pixels(corner), px);
    if seam_holds(seam, grid, px) {
        let merged = centered_seam(seam, grid);
        let marks = seam_marks(seam, grid);
        let start = unflagged(Map::empty(), flat_pixels(corner));
        let rows = row_marks(start, merged, (w - 1) as nat);
        lemma_unflagged_holds(Map::empty(), flat_pixels(corner), px);
        lemma_row_marks_hold(start, merged, (w - 1) as nat, 0, px);
        lemma_column_marks_hold(rows, merged, (h - 1) as nat, 0, px);
        if exists|x: int|
            1 <= x < grid.width - 1 && (#[trigger] merged.at(x, 0)).unwrap().pixel_count(px) > 0 {
            let x = choose|x: int|
                1 <= x < grid.width - 1 && (#[trigger] merged.at(x, 0)).unwrap().pixel_count(px)
                    > 0;
            lemma_row_marks_hold(start, merged, (w - 1) as nat, x, px);
        }
        if exists|y: int|
            1 <= y < grid.height - 1 && (#[trigger] merged.at(0, y)).unwrap().pixel_count(px) > 0 {
            let y = choose|y: int|
                1 <= y < grid.height - 1 && (#[trigger] merged.at(0, y)).unwrap().pixel_count(px)
                    > 0;
            lemma_column_marks_hold(rows, merged, (h - 1) as nat, y, px);
        }
        assert(marks.contains_key(px));
        assert forall|x: int, y: int|
            in_interior(grid, x, y) && (x == grid.width - 2 || y == grid.height - 2)
                implies cell_weight(px)(#[trigger] after.continents.at(x, y)) == 0 by {
            assert(planet.continents.at(x, y).is_some());
            assert(after.continents.at(x, y) == centered_interior_cell(
                planet.continents,
                grid,
                marks,
                x,
                y,
            ));
            let gathered = gathered_cell(planet.continents, grid, x, y);
            if x <= w - 2 && y <= h - 2 {
                lemma_scrubbed_apart(gathered.unwrap(), marks, px);
                lemma_scrubbed_apart(scrubbed(gathered.unwrap(), marks), marks, px);
            }
        }
    }
}

/// Tidying a cell adds no pixel to it.
pub proof fn lemma_tidy_cell_fewer(cell: Option<ContinentView>, px: (u16, u16))
    ensures
        cell_weight(px)(tidy_cell(cell)) <= cell_weight(px)(cell),
{
    if cell.is_some() {
        crate::pixels_laws::lemma_sifted_continent_fewer(
            cell.unwrap(),
            Map::empty(),
            Sift::Held,
            px,
        );
    }
}

/// A tidied cell is vacant, or holds a continent with a realm, with
/// nothing vacant beneath it, and with every box the smallest around the
/// pixels beneath it.
pub proof fn lemma_tidy_cell_sound(cell: Option<ContinentView>)
    ensures
        cell_sound(tidy_cell(cell)),
{
    if cell.is_some() {
        crate::pixels_laws::lemma_sifted_continent_pruned(cell.unwrap(), Map::empty(), Sift::Held);
        crate::pixels_laws::lemma_sifted_continent_exact(cell.unwrap(), Map::empty(), Sift::Held);
    }
}

/// No container is left vacant by the merge of the seams, and every box
/// is right: each continent of the merged map has a realm, each realm a
/// province, each province a region and each region a pixel, and the box
/// of each is the smallest around the pixels beneath it.
pub proof fn lemma_centered_is_sound(planet: PlanetView, grid: Size16)
    requires
        planet.wf(),
    ensures
        forall|x: int, y: int|
            cell_sound(#[trigger] centered_planet(planet, grid).edge_continents.at(x, y)),
        forall|x: int, y: int|
            cell_sound(#[trigger] centered_planet(planet, grid).continents.at(x, y)),
{
    let gathered = gathered_planet(planet, grid);
    let after = centered_planet(planet, grid);
    assert forall|x: int, y: int| cell_sound(#[trigger] after.edge_continents.at(x, y)) by {
        if after.edge_continents.has_cell(x, y) {
            lemma_tidy_cell_sound(gathered.edge_continents.at(x, y));
        }
    }
    assert forall|x: int, y: int| cell_sound(#[trigger] after.continents.at(x, y)) by {
        if after.continents.has_cell(x, y) {
            lemma_tidy_cell_sound(gathered.continents.at(x, y));
        }
    }
}

/// The move leaves every box of the region, the province, the realm and
/// the continent the smallest around the moved pixels.
pub proof fn lemma_shifted_region_exact(region: RegionView, by: Size16, canvas: Size16)
    ensures
        shifted_region(region, by, canvas).bounds_exact(),
{
}

pub proof fn lemma_shifted_province_exact(province: ProvinceView, by: Size16, canvas: Size16)
    ensures
        shifted_province(province, by, canvas).bounds_exact(),
{
    let moved = shifted_province(province, by, canvas);
    assert forall|i: int| 0 <= i < moved.regions.len() implies (#[trigger] moved.regions[i]).bounds_exact() by {
        lemma_shifted_region_exact(province.regions[i], by, canvas);
    }
}

pub proof fn lemma_shifted_realm_exact(realm: RealmView, by: Size16, canvas: Size16)
    ensures
        shifted_realm(realm, by, canvas).bounds_exact(),
{
    let moved = shifted_realm(realm, by, canvas);
    assert forall|i: int| 0 <= i < moved.provinces.len() implies (#[trigger] moved.provinces[i]).bounds_exact() by {
        lemma_shifted_province_exact(realm.provinces[i], by, canvas);
    }
}

pub proof fn lemma_shifted_continent_exact(continent: ContinentView, by: Size16, canvas: Size16)
    ensures
        shifted_continent(continent, by, canvas).bounds_exact(),
{
    let moved = shifted_continent(continent, by, canvas);
    assert forall|i: int| 0 <= i < moved.realms.len() implies (#[trigger] moved.realms[i]).bounds_exact() by {
        lemma_shifted_realm_exact(continent.realms[i], by, canvas);
    }
}

/// The merge of the seams takes apart what the move laid over each other,
/// and the tidying at its end brings nothing back.  Whatever the map held
/// before: the corner of the seam holds no pixel twice; where it holds a
/// pixel, the seam cells next to the two that left do not; and what the
/// gathered seam strip holds, the interior cells that took the realms of
/// the last row and the last column do not.
pub proof fn lemma_centered_takes_apart(planet: PlanetView, grid: Size16, px: (u16, u16))
    requires
        centered_ready(planet, grid),
    ensures
        ({
            let after = centered_planet(planet, grid);
            &&& cell_weight(px)(after.edge_continents.at(0, 0)) <= 1
            &&& cell_weight(px)(after.edge_continents.at(0, 0)) > 0 ==> {
                &&& cell_weight(px)(after.edge_continents.at(grid.width - 2, 0)) == 0
                &&& cell_weight(px)(after.edge_continents.at(0, grid.height - 2)) == 0
            }
            &&& seam_holds(planet.edge_continents, grid, px) ==> forall|x: int, y: int|
                in_interior(grid, x, y) && (x == grid.width - 2 || y == grid.height - 2)
                    ==> cell_weight(px)(#[trigger] after.continents.at(x, y)) == 0
        }),
{
    let gathered = gathered_planet(planet, grid);
    let after = centered_planet(planet, grid);
    let w = grid.width as int;
    let h = grid.height as int;
    lemma_gathered_takes_apart(planet, grid, px);
    assert(planet.edge_continents.at(0, 0).is_some());
    assert(planet.edge_continents.at(w - 2, 0).is_some());
    assert(planet.edge_continents.at(0, h - 2).is_some());
    assert(after.edge_continents.at(0, 0) == tidy_cell(gathered.edge_continents.at(0, 0)));
    assert(after.edge_continents.at(w - 2, 0) == tidy_cell(gathered.edge_continents.at(w - 2, 0)));
    assert(after.edge_continents.at(0, h - 2) == tidy_cell(gathered.edge_continents.at(0, h - 2)));
    lemma_tidy_cell_fewer(gathered.edge_continents.at(0, 0), px);
    lemma_tidy_cell_fewer(gathered.edge_continents.at(w - 2, 0), px);
    lemma_tidy_cell_fewer(gathered.edge_continents.at(0, h - 2), px);
    if seam_holds(planet.edge_continents, grid, px) {
        assert forall|x: int, y: int|
            in_interior(grid, x, y) && (x == grid.width - 2 || y == grid.height - 2)
                implies cell_weight(px)(#[trigger] after.continents.at(x, y)) == 0 by {
            assert(planet.continents.at(x, y).is_some());
            assert(after.continents.at(x, y) == tidy_cell(gathered.continents.at(x, y)));
            lemma_tidy_cell_fewer(gathered.continents.at(x, y), px);
            assert(cell_weight(px)(gathered.continents.at(x, y)) == 0);
        }
    }
}

/// The box around a list of boxes does not depend on the order in which
/// the list is walked.
pub proof fn lemma_bounds_reverse<T>(s: Seq<T>, f: spec_fn(T) -> Bounds)
    ensures
        seq_bounds(s.reverse(), f) == seq_bounds(s, f),
    decreases s.len(),
{
    if s.len() > 0 {
        let head = s.drop_last();
        let first = Seq::<T>::empty().push(s.last());
        lemma_bounds_reverse(head, f);
        assert(s.reverse() =~= first + head.reverse());
        lemma_bounds_concat(first, head.reverse(), f);
        lemma_bounds_push(Seq::<T>::empty(), s.last(), f);
        lemma_merge_laws(f(s.last()), seq_bounds(head, f), Bounds::empty());
    }
}

/// The transfer of realms keeps the boxes right.  Where the boxes of the
/// continent that takes the realms and of the one that gives them are the
/// smallest around their pixels, so are the boxes of the first after the
/// transfer; and the second, left without a realm, has the box that
/// encloses nothing.
pub proof fn lemma_with_realms_exact(keeper: ContinentView, donor: ContinentView)
    requires
        keeper.bounds_exact(),
        donor.bounds_exact(),
    ensures
        with_realms_of(keeper, donor).bounds_exact(),
        emptied(donor).bounds_exact(),
{
    let merged = with_realms_of(keeper, donor);
    lemma_bounds_reverse(donor.realms, realm_pixel_bounds());
    lemma_bounds_concat(keeper.realms, donor.realms.reverse(), realm_pixel_bounds());
    assert forall|i: int| 0 <= i < merged.realms.len() implies (#[trigger] merged.realms[i]).bounds_exact() by {
        if i < keeper.realms.len() {
            assert(merged.realms[i] == keeper.realms[i]);
        } else {
            let k = i - keeper.realms.len();
            assert(merged.realms[i] == donor.realms.reverse()[k]);
            assert(donor.realms.reverse()[k] == donor.realms[donor.realms.len() - 1 - k]);
        }
    }
    assert(emptied(donor).realms.len() == 0);
}

} // verus!
