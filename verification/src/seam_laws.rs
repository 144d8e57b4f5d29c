//! What the fold keeps, and why it cannot run twice on one grid.

use vstd::prelude::*;
use crate::continent::{lemma_bounds_concat, realm_pixel_bounds, ContinentView};
use crate::grid::{GridView, PlanetView};
use crate::point::Size16;
use crate::seam::{
    absorbed, fold_ready, folded, folded_interior, folded_seam, folded_size, interior_cell,
    seam_cell,
};
use crate::seamless_laws::{grid_within, laid_out};

verus! {

/// A grid that has been folded cannot be folded again: the fold leaves it
/// vacant, and a vacant grid lacks the cells that a fold reads.
pub proof fn lemma_folded_grid_cannot_fold(size: Size16)
    ensures
        !fold_ready(GridView::vacant(size)),
{
    let grid = GridView::vacant(size);
    if size.width >= 3 && size.height >= 3 {
        assert(grid.at(1, 1).is_none());
    }
}

/// A folded map cannot be folded again.  The interior that a fold returns
/// has no continent in its column 0 and row 0, and the seam strip has none
/// off them; the fold refuses both, whatever their size, for want of a
/// margin ring to strip.
pub proof fn lemma_folded_map_cannot_fold(source: GridView)
    requires
        fold_ready(source),
    ensures
        !fold_ready(folded_interior(source)),
        !fold_ready(folded_seam(source)),
{
    let interior = folded_interior(source);
    let seam = folded_seam(source);
    if interior.size.width >= 3 && interior.size.height >= 3 {
        assert(interior.has_cell(0, 0));
        assert(interior.at(0, 0) == interior_cell(source, 0, 0));
        assert(interior.at(0, 0).is_none());
        assert(seam.has_cell(1, 1));
        assert(seam.at(1, 1) == seam_cell(source, 1, 1));
        assert(seam.at(1, 1).is_none());
    }
}

/// A map that is laid out on its final grid cannot be folded: its interior
/// has no continent at `(0, 0)` and its seam strip none at `(1, 1)`.  So
/// neither grid of a finished planet is taken for a grid with a margin,
/// whether or not its pixels were moved and its seams merged after the
/// fold.
pub proof fn lemma_laid_out_map_cannot_fold(planet: PlanetView, final_grid: Size16)
    requires
        planet.wf(),
        laid_out(planet, final_grid),
    ensures
        !fold_ready(planet.continents),
        !fold_ready(planet.edge_continents),
{
    if planet.continents.size.width >= 3 && planet.continents.size.height >= 3 {
        assert(!crate::seamless::in_interior(final_grid, 0, 0));
        assert(planet.continents.at(0, 0).is_none());
    }
    if planet.edge_continents.size.width >= 3 && planet.edge_continents.size.height >= 3 {
        assert(!crate::seamless::on_seam(final_grid, 1, 1));
        assert(planet.edge_continents.at(1, 1).is_none());
    }
}

/// Where two continents have the right boxes, so has the one that took the
/// other's realms.
pub proof fn lemma_absorbed_bounds(keeper: ContinentView, donor: ContinentView)
    requires
        keeper.bounds_exact(),
        donor.bounds_exact(),
    ensures
        absorbed(keeper, donor).bounds_exact(),
{
    lemma_bounds_concat(keeper.realms, donor.realms, realm_pixel_bounds());
    let merged = absorbed(keeper, donor);
    assert forall|i: int| 0 <= i < merged.realms.len() implies (
    #[trigger] merged.realms[i]).bounds_exact() by {
        if i < keeper.realms.len() {
            assert(merged.realms[i] == keeper.realms[i]);
        } else {
            assert(merged.realms[i] == donor.realms[i - keeper.realms.len()]);
        }
    }
}

/// The fold keeps the boxes right: where the box of every continent that
/// the fold reads, and of everything beneath it, is the smallest around
/// the pixels beneath it, it is so for every continent of the seam strip
/// and of the interior.
pub proof fn lemma_fold_keeps_bounds(source: GridView)
    requires
        fold_ready(source),
        forall|x: int, y: int|
            1 <= x < source.size.width && 1 <= y < source.size.height ==> (#[trigger] source.at(
                x,
                y,
            )).unwrap().bounds_exact(),
    ensures
        forall|x: int, y: int|
            (#[trigger] folded_seam(source).at(x, y)) matches Some(continent)
                ==> continent.bounds_exact(),
        forall|x: int, y: int|
            (#[trigger] folded_interior(source).at(x, y)) matches Some(continent)
                ==> continent.bounds_exact(),
{
    assert forall|x: int, y: int| (#[trigger] folded_seam(source).at(x, y)).is_some() implies folded_seam(
        source,
    ).at(x, y).unwrap().bounds_exact() by {
        let continent = folded_seam(source).at(x, y).unwrap();
        assert(folded_seam(source).at(x, y) == seam_cell(source, x, y));
        if x == 0 && y == 0 {
            let keeper = source.at(2, 2).unwrap();
            let top = source.at(2, 1).unwrap();
            let left = source.at(1, 2).unwrap();
            let diagonal = source.at(1, 1).unwrap();
            lemma_absorbed_bounds(keeper, top);
            lemma_absorbed_bounds(absorbed(keeper, top), left);
            lemma_absorbed_bounds(absorbed(absorbed(keeper, top), left), diagonal);
            let all = absorbed(absorbed(absorbed(keeper, top), left), diagonal);
            assert(continent.realms == all.realms);
        } else if x == 0 {
            let keeper = source.at(2, y + 2).unwrap();
            let donor = source.at(1, y + 2).unwrap();
            lemma_absorbed_bounds(keeper, donor);
            assert(continent.realms == absorbed(keeper, donor).realms);
        } else {
            let keeper = source.at(x + 2, 2).unwrap();
            let donor = source.at(x + 2, 1).unwrap();
            lemma_absorbed_bounds(keeper, donor);
            assert(continent.realms == absorbed(keeper, donor).realms);
        }
    }
    assert forall|x: int, y: int| (#[trigger] folded_interior(source).at(x, y)).is_some() implies folded_interior(
        source,
    ).at(x, y).unwrap().bounds_exact() by {
        let continent = folded_interior(source).at(x, y).unwrap();
        assert(folded_interior(source).at(x, y) == interior_cell(source, x, y));
        let moved = source.at(x + 2, y + 2).unwrap();
        assert(continent.realms == moved.realms);
    }
}

/// Where two continents keep their pixels on the canvas, so does the one
/// that took the other's realms.
pub proof fn lemma_absorbed_within(keeper: ContinentView, donor: ContinentView, canvas: Size16)
    requires
        keeper.within(canvas),
        donor.within(canvas),
    ensures
        absorbed(keeper, donor).within(canvas),
{
    let merged = absorbed(keeper, donor);
    assert forall|i: int| 0 <= i < merged.realms.len() implies (#[trigger] merged.realms[i]).within(
        canvas,
    ) by {
        if i < keeper.realms.len() {
            assert(merged.realms[i] == keeper.realms[i]);
        } else {
            assert(merged.realms[i] == donor.realms[i - keeper.realms.len()]);
        }
    }
}

/// The fold lays the map out on the final grid, and it keeps the pixels on
/// the canvas: the seam strip holds continents on seam cells only, the
/// interior on interior cells only, and where every continent that the
/// fold reads kept its pixels on the canvas, so does every continent of
/// the map.
pub proof fn lemma_fold_lays_out(source: GridView, canvas: Size16)
    requires
        fold_ready(source),
    ensures
        ({
            let planet = PlanetView {
                edge_continents: folded_seam(source),
                continents: folded_interior(source),
            };
            &&& planet.wf()
            &&& laid_out(planet, folded_size(source.size))
            &&& grid_within(source, canvas) ==> grid_within(planet.edge_continents, canvas)
                && grid_within(planet.continents, canvas)
        }),
{
    let seam = folded_seam(source);
    let interior = folded_interior(source);
    let grid = folded_size(source.size);
    assert forall|x: int, y: int| seam.has_cell(x, y) implies #[trigger] seam.at(x, y) == seam_cell(
        source,
        x,
        y,
    ) by {}
    assert forall|x: int, y: int| interior.has_cell(x, y) implies #[trigger] interior.at(x, y)
        == interior_cell(source, x, y) by {}
    assert forall|x: int, y: int| !crate::seamless::on_seam(grid, x, y) implies (#[trigger] seam.at(
        x,
        y,
    )).is_none() by {
        if seam.has_cell(x, y) {
            assert(seam.at(x, y) == seam_cell(source, x, y));
        }
    }
    assert forall|x: int, y: int| !crate::seamless::in_interior(grid, x, y) implies (
    #[trigger] interior.at(x, y)).is_none() by {
        if interior.has_cell(x, y) {
            assert(interior.at(x, y) == interior_cell(source, x, y));
        }
    }
    if grid_within(source, canvas) {
        assert forall|x: int, y: int| (#[trigger] seam.at(x, y)).is_some() implies seam.at(
            x,
            y,
        ).unwrap().within(canvas) by {
            assert(seam.at(x, y) == seam_cell(source, x, y));
            let continent = seam.at(x, y).unwrap();
            if x == 0 && y == 0 {
                let keeper = source.at(2, 2).unwrap();
                let top = source.at(2, 1).unwrap();
                let left = source.at(1, 2).unwrap();
                let diagonal = source.at(1, 1).unwrap();
                lemma_absorbed_within(keeper, top, canvas);
                lemma_absorbed_within(absorbed(keeper, top), left, canvas);
                lemma_absorbed_within(absorbed(absorbed(keeper, top), left), diagonal, canvas);
                assert(continent.realms == absorbed(
                    absorbed(absorbed(keeper, top), left),
                    diagonal,
                ).realms);
            } else if x == 0 {
                let keeper = source.at(2, y + 2).unwrap();
                let donor = source.at(1, y + 2).unwrap();
                lemma_absorbed_within(keeper, donor, canvas);
                assert(continent.realms == absorbed(keeper, donor).realms);
            } else {
                let keeper = source.at(x + 2, 2).unwrap();
                let donor = source.at(x + 2, 1).unwrap();
                lemma_absorbed_within(keeper, donor, canvas);
                assert(continent.realms == absorbed(keeper, donor).realms);
            }
        }
        assert forall|x: int, y: int| (#[trigger] interior.at(x, y)).is_some() implies interior.at(
            x,
            y,
        ).unwrap().within(canvas) by {
            assert(interior.at(x, y) == interior_cell(source, x, y));
            let moved = source.at(x + 2, y + 2).unwrap();
            assert(interior.at(x, y).unwrap().realms == moved.realms);
        }
    }
}

} // verus!
