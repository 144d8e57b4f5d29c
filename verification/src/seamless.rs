//! The move of the map into the space of the final image, and the merge of
//! the seams that the move lays over each other.

use vstd::prelude::*;
use crate::continent::{
    province_pixel_bounds, provinces_box, realm_pixel_bounds, realms_box, realms_view,
    region_pixel_bounds, regions_box, seq_bounds, Continent, ContinentView, Province,
    ProvinceView, Realm, RealmView, Region, RegionView,
};
use crate::error::WorldError;
use crate::grid::{lemma_grid_ext, ContinentGrid, GridView, Planet, PlanetView};
use crate::marks::PixelMarks;
use crate::pixels_utils::{
    clean_continent, collect_pixels, flagged, flat_pixels, mark_overlaping_pixels, note_pixels,
    remove_overlaping_pixels_from_regions, remove_pixels_from_continent, sifted_continent,
    unflagged, Sift,
};
use crate::point::{try_map_points_min_max_points_by_points, Bounds, Point16, Size16};
use crate::settings::{PlanetSettings, CONTINENT_MARGIN};

verus! {

/// A coordinate moved down by `shift` on an axis of length `extent` that
/// wraps around: what falls below zero comes back in at the far end.
pub open spec fn wrapped(v: u16, shift: u16, extent: u16) -> u16 {
    if v >= shift {
        (v - shift) as u16
    } else {
        (v - shift + extent) as u16
    }
}

/// The move of a pixel by `by` on a canvas that wraps around on both axes.
pub open spec fn pixel_shift(by: Size16, canvas: Size16) -> spec_fn((u16, u16)) -> (u16, u16) {
    |px: (u16, u16)| (wrapped(px.0, by.width, canvas.width), wrapped(px.1, by.height, canvas.height))
}

/// The region with each pixel moved, and its box drawn anew around them.
pub open spec fn shifted_region(region: RegionView, by: Size16, canvas: Size16) -> RegionView {
    let pixels = region.pixels.map_values(pixel_shift(by, canvas));
    RegionView {
        pixels,
        bottom_left: Bounds::of_pixels(pixels).bottom_left,
        top_right: Bounds::of_pixels(pixels).top_right,
        ..region
    }
}

pub open spec fn region_shift(by: Size16, canvas: Size16) -> spec_fn(RegionView) -> RegionView {
    |region: RegionView| shifted_region(region, by, canvas)
}

pub open spec fn shifted_province(
    province: ProvinceView,
    by: Size16,
    canvas: Size16,
) -> ProvinceView {
    let regions = province.regions.map_values(region_shift(by, canvas));
    ProvinceView {
        regions,
        bottom_left: seq_bounds(regions, region_pixel_bounds()).bottom_left,
        top_right: seq_bounds(regions, region_pixel_bounds()).top_right,
        ..province
    }
}

pub open spec fn province_shift(
    by: Size16,
    canvas: Size16,
) -> spec_fn(ProvinceView) -> ProvinceView {
    |province: ProvinceView| shifted_province(province, by, canvas)
}

pub open spec fn shifted_realm(realm: RealmView, by: Size16, canvas: Size16) -> RealmView {
    let provinces = realm.provinces.map_values(province_shift(by, canvas));
    RealmView {
        provinces,
        bottom_left: seq_bounds(provinces, province_pixel_bounds()).bottom_left,
        top_right: seq_bounds(provinces, province_pixel_bounds()).top_right,
        ..realm
    }
}

pub open spec fn realm_shift(by: Size16, canvas: Size16) -> spec_fn(RealmView) -> RealmView {
    |realm: RealmView| shifted_realm(realm, by, canvas)
}

/// The continent with every pixel beneath it moved by `by` on the canvas,
/// and every box, from the regions up, drawn anew around the moved pixels.
/// Sites, plate direction and elevation stay as they were.
pub open spec fn shifted_continent(
    continent: ContinentView,
    by: Size16,
    canvas: Size16,
) -> ContinentView {
    let realms = continent.realms.map_values(realm_shift(by, canvas));
    ContinentView {
        realms,
        bottom_left: seq_bounds(realms, realm_pixel_bounds()).bottom_left,
        top_right: seq_bounds(realms, realm_pixel_bounds()).top_right,
        ..continent
    }
}

fn wrap(v: u16, shift: u16, extent: u16) -> (moved: u16)
    requires
        shift <= extent,
    ensures
        moved == wrapped(v, shift, extent),
{
    if v >= shift {
        v - shift
    } else {
        v + (extent - shift)
    }
}

fn move_region(region: &mut Region, by: &Size16, canvas: &Size16)
    requires
        by.width <= canvas.width,
        by.height <= canvas.height,
    ensures
        final(region)@ == shifted_region(old(region)@, *by, *canvas),
        final(region)@.bounds_exact(),
{
    let mut moved: Vec<(u16, u16)> = Vec::new();
    let mut i: usize = 0;
    while i < region.pixels.len()
        invariant
            i <= region.pixels.len(),
            by.width <= canvas.width,
            by.height <= canvas.height,
            region@ == old(region)@,
            moved.len() == i,
            forall|j: int|
                0 <= j < i ==> (#[trigger] moved[j]) == pixel_shift(*by, *canvas)(region.pixels[j]),
        decreases region.pixels.len() - i,
    {
        let px = region.pixels[i];
        moved.push((wrap(px.0, by.width, canvas.width), wrap(px.1, by.height, canvas.height)));
        i += 1;
    }
    assert(moved@ =~= old(region)@.pixels.map_values(pixel_shift(*by, *canvas)));
    region.pixels = moved;
    region.fit_bounds();
}

fn move_province(province: &mut Province, by: &Size16, canvas: &Size16)
    requires
        by.width <= canvas.width,
        by.height <= canvas.height,
    ensures
        final(province)@ == shifted_province(old(province)@, *by, *canvas),
        final(province)@.bounds_exact(),
{
    let count: usize = province.regions.len();
    let mut i: usize = 0;
    while i < count
        invariant
            i <= count,
            by.width <= canvas.width,
            by.height <= canvas.height,
            province.regions.len() == count,
            count == old(province).regions.len(),
            province.grid_coord == old(province).grid_coord,
            province.site_point == old(province).site_point,
            province.average_grey_value == old(province).average_grey_value,
            forall|j: int| 0 <= j < i ==> (#[trigger] province.regions[j])@.bounds_exact(),
            forall|j: int|
                0 <= j < i ==> (#[trigger] province.regions[j])@ == shifted_region(
                    old(province).regions[j]@,
                    *by,
                    *canvas,
                ),
            forall|j: int| i <= j < count ==> (#[trigger] province.regions[j]) == old(
                province,
            ).regions[j],
        decreases count - i,
    {
        move_region(&mut province.regions[i], by, canvas);
        i += 1;
    }
    assert(province@.regions =~= old(province)@.regions.map_values(region_shift(*by, *canvas)));
    let bounds = regions_box(&province.regions);
    province.bottom_left = bounds.bottom_left;
    province.top_right = bounds.top_right;
}

fn move_realm(realm: &mut Realm, by: &Size16, canvas: &Size16)
    requires
        by.width <= canvas.width,
        by.height <= canvas.height,
    ensures
        final(realm)@ == shifted_realm(old(realm)@, *by, *canvas),
        final(realm)@.bounds_exact(),
{
    let count: usize = realm.provinces.len();
    let mut i: usize = 0;
    while i < count
        invariant
            i <= count,
            by.width <= canvas.width,
            by.height <= canvas.height,
            realm.provinces.len() == count,
            count == old(realm).provinces.len(),
            realm.grid_coord == old(realm).grid_coord,
            realm.site_point == old(realm).site_point,
            realm.average_grey_value == old(realm).average_grey_value,
            forall|j: int| 0 <= j < i ==> (#[trigger] realm.provinces[j])@.bounds_exact(),
            forall|j: int|
                0 <= j < i ==> (#[trigger] realm.provinces[j])@ == shifted_province(
                    old(realm).provinces[j]@,
                    *by,
                    *canvas,
                ),
            forall|j: int| i <= j < count ==> (#[trigger] realm.provinces[j]) == old(
                realm,
            ).provinces[j],
        decreases count - i,
    {
        move_province(&mut realm.provinces[i], by, canvas);
        i += 1;
    }
    assert(realm@.provinces =~= old(realm)@.provinces.map_values(province_shift(*by, *canvas)));
    let bounds = provinces_box(&realm.provinces);
    realm.bottom_left = bounds.bottom_left;
    realm.top_right = bounds.top_right;
}

/// Moves every pixel beneath the continent by `by` on a canvas that wraps
/// around: `by` is taken off each coordinate, and what would fall below
/// zero comes back in at the far end of the canvas.
pub fn move_pixels(continent: &mut Continent, by: &Size16, canvas: &Size16)
    requires
        by.width <= canvas.width,
        by.height <= canvas.height,
    ensures
        final(continent)@ == shifted_continent(old(continent)@, *by, *canvas),
        final(continent)@.bounds_exact(),
{
    let count: usize = continent.realms.len();
    let mut i: usize = 0;
    while i < count
        invariant
            i <= count,
            by.width <= canvas.width,
            by.height <= canvas.height,
            continent.realms.len() == count,
            count == old(continent).realms.len(),
            continent.grid_coord == old(continent).grid_coord,
            continent.site_point == old(continent).site_point,
            continent.plate_movement_direction == old(continent).plate_movement_direction,
            continent.elevation == old(continent).elevation,
            forall|j: int| 0 <= j < i ==> (#[trigger] continent.realms[j])@.bounds_exact(),
            forall|j: int|
                0 <= j < i ==> (#[trigger] continent.realms[j])@ == shifted_realm(
                    old(continent).realms[j]@,
                    *by,
                    *canvas,
                ),
            forall|j: int| i <= j < count ==> (#[trigger] continent.realms[j]) == old(
                continent,
            ).realms[j],
        decreases count - i,
    {
        move_realm(&mut continent.realms[i], by, canvas);
        i += 1;
    }
    assert(continent@.realms =~= old(continent)@.realms.map_values(realm_shift(*by, *canvas)));
    let bounds = realms_box(&continent.realms);
    continent.bottom_left = bounds.bottom_left;
    continent.top_right = bounds.top_right;
}

/// What a grid cell holds after its continent, if it has one, was moved.
pub open spec fn moved_cell(cell: Option<ContinentView>, by: Size16, canvas: Size16) -> Option<
    ContinentView,
> {
    match cell {
        Some(continent) => Some(shifted_continent(continent, by, canvas)),
        None => None,
    }
}

/// The cell is vacant, or every box of its continent, its own and those
/// beneath it, is the smallest around the pixels beneath it.
pub open spec fn cell_exact(cell: Option<ContinentView>) -> bool {
    match cell {
        Some(continent) => continent.bounds_exact(),
        None => true,
    }
}

/// Whether `(x, y)` is a cell of the interior of a final grid: any cell off
/// column 0 and row 0.
pub open spec fn in_interior(final_grid: Size16, x: int, y: int) -> bool {
    1 <= x < final_grid.width && 1 <= y < final_grid.height
}

/// Whether `(x, y)` is a cell of the seam strip of a final grid: any cell
/// on column 0 or row 0.
pub open spec fn on_seam(final_grid: Size16, x: int, y: int) -> bool {
    (y == 0 && 1 <= x < final_grid.width) || (x == 0 && 0 <= y < final_grid.height)
}

/// The interior after the move: every continent on an interior cell of the
/// final grid moved, and nothing else changed.
pub open spec fn moved_interior(
    grid: GridView,
    final_grid: Size16,
    by: Size16,
    canvas: Size16,
) -> GridView {
    GridView {
        size: grid.size,
        columns: Seq::new(
            grid.size.width as nat,
            |x: int|
                Seq::new(
                    grid.size.height as nat,
                    |y: int|
                        if in_interior(final_grid, x, y) {
                            moved_cell(grid.at(x, y), by, canvas)
                        } else {
                            grid.at(x, y)
                        },
                ),
        ),
    }
}

/// The seam strip after the move: every continent on a seam cell of the
/// final grid moved, and nothing else changed.
pub open spec fn moved_seam(
    grid: GridView,
    final_grid: Size16,
    by: Size16,
    canvas: Size16,
) -> GridView {
    GridView {
        size: grid.size,
        columns: Seq::new(
            grid.size.width as nat,
            |x: int|
                Seq::new(
                    grid.size.height as nat,
                    |y: int|
                        if on_seam(final_grid, x, y) {
                            moved_cell(grid.at(x, y), by, canvas)
                        } else {
                            grid.at(x, y)
                        },
                ),
        ),
    }
}

/// The distance of the move: the generation margin, in pixels.
pub open spec fn margin_shift(planet_settings: PlanetSettings) -> Size16 {
    Size16 {
        width: (planet_settings.continent_cell_size.width * CONTINENT_MARGIN) as u16,
        height: (planet_settings.continent_cell_size.height * CONTINENT_MARGIN) as u16,
    }
}

/// Moves the continent at cell `(x, y)`, if there is one.
fn move_cell(grid: &mut ContinentGrid, x: u16, y: u16, by: &Size16, canvas: &Size16)
    requires
        old(grid)@.wf(),
        by.width <= canvas.width,
        by.height <= canvas.height,
    ensures
        final(grid)@.wf(),
        final(grid)@.size == old(grid)@.size,
        forall|i: int, j: int| #[trigger]
            final(grid)@.at(i, j) == if i == x && j == y {
                moved_cell(old(grid)@.at(i, j), *by, *canvas)
            } else {
                old(grid)@.at(i, j)
            },
{
    match grid.remove(x, y) {
        Some(continent) => {
            let mut continent = continent;
            move_pixels(&mut continent, by, canvas);
            grid.insert(x, y, continent);
        },
        None => {},
    }
}

/// Moves every pixel of the map out of generation space into the space of
/// the final image: the generation margin (two continent cells, in pixels)
/// is taken off each coordinate, on a canvas that wraps around, so that
/// what the margin held comes back in at the opposite edge.  The walk
/// covers the interior cells of the final grid and the cells of its seam
/// strip.
pub fn move_continents_pixels_towards_edge(planet: &mut Planet, planet_settings: &PlanetSettings)
    requires
        old(planet)@.wf(),
        planet_settings.wf(),
    ensures
        final(planet)@.continents == moved_interior(
            old(planet)@.continents,
            planet_settings.final_continent_grid_size,
            margin_shift(*planet_settings),
            planet_settings.img_size,
        ),
        final(planet)@.edge_continents == moved_seam(
            old(planet)@.edge_continents,
            planet_settings.final_continent_grid_size,
            margin_shift(*planet_settings),
            planet_settings.img_size,
        ),
        final(planet)@.wf(),
        forall|x: int, y: int|
            in_interior(planet_settings.final_continent_grid_size, x, y) ==> cell_exact(
                #[trigger] final(planet)@.continents.at(x, y),
            ),
        forall|x: int, y: int|
            on_seam(planet_settings.final_continent_grid_size, x, y) ==> cell_exact(
                #[trigger] final(planet)@.edge_continents.at(x, y),
            ),
{
    assert(CONTINENT_MARGIN == 2);
    let by = Size16::new(
        planet_settings.continent_cell_size.width * 2,
        planet_settings.continent_cell_size.height * 2,
    );
    let canvas = planet_settings.img_size;
    let final_grid = planet_settings.final_continent_grid_size;
    let ghost interior = planet@.continents;
    let ghost seam = planet@.edge_continents;

    let mut x: u16 = 1;
    while x < final_grid.width
        invariant
            1 <= x,
            x <= final_grid.width || x == 1,
            by.width <= canvas.width,
            by.height <= canvas.height,
            planet@.continents.wf(),
            planet@.continents.size == interior.size,
            planet@.edge_continents == seam,
            forall|i: int, j: int| #[trigger]
                planet@.continents.at(i, j) == if 1 <= i < x && 1 <= j < final_grid.height {
                    moved_cell(interior.at(i, j), by, canvas)
                } else {
                    interior.at(i, j)
                },
        decreases final_grid.width - x,
    {
        let mut y: u16 = 1;
        while y < final_grid.height
            invariant
                1 <= x < final_grid.width,
                1 <= y,
                y <= final_grid.height || y == 1,
                by.width <= canvas.width,
                by.height <= canvas.height,
                planet@.continents.wf(),
                planet@.continents.size == interior.size,
                planet@.edge_continents == seam,
                forall|i: int, j: int| #[trigger]
                    planet@.continents.at(i, j) == if (1 <= i < x && 1 <= j < final_grid.height)
                        || (i == x && 1 <= j < y) {
                        moved_cell(interior.at(i, j), by, canvas)
                    } else {
                        interior.at(i, j)
                    },
            decreases final_grid.height - y,
        {
            move_cell(&mut planet.continents, x, y, &by, &canvas);
            y += 1;
        }
        x += 1;
    }
    proof {
        lemma_grid_ext(planet@.continents, moved_interior(interior, final_grid, by, canvas));
    }

    let mut x: u16 = 1;
    while x < final_grid.width
        invariant
            1 <= x,
            x <= final_grid.width || x == 1,
            by.width <= canvas.width,
            by.height <= canvas.height,
            planet@.edge_continents.wf(),
            planet@.edge_continents.size == seam.size,
            planet@.continents == moved_interior(interior, final_grid, by, canvas),
            planet@.continents.wf(),
            forall|i: int, j: int| #[trigger]
                planet@.edge_continents.at(i, j) == if j == 0 && 1 <= i < x {
                    moved_cell(seam.at(i, j), by, canvas)
                } else {
                    seam.at(i, j)
                },
        decreases final_grid.width - x,
    {
        move_cell(&mut planet.edge_continents, x, 0, &by, &canvas);
        x += 1;
    }

    let mut y: u16 = 0;
    while y < final_grid.height
        invariant
            y <= final_grid.height,
            by.width <= canvas.width,
            by.height <= canvas.height,
            planet@.edge_continents.wf(),
            planet@.edge_continents.size == seam.size,
            planet@.continents == moved_interior(interior, final_grid, by, canvas),
            planet@.continents.wf(),
            forall|i: int, j: int| #[trigger]
                planet@.edge_continents.at(i, j) == if (j == 0 && 1 <= i < final_grid.width) || (i
                    == 0 && 0 <= j < y) {
                    moved_cell(seam.at(i, j), by, canvas)
                } else {
                    seam.at(i, j)
                },
        decreases final_grid.height - y,
    {
        move_cell(&mut planet.edge_continents, 0, y, &by, &canvas);
        y += 1;
    }
    proof {
        lemma_grid_ext(planet@.edge_continents, moved_seam(seam, final_grid, by, canvas));
        assert forall|x: int, y: int| in_interior(final_grid, x, y) implies cell_exact(
            #[trigger] planet@.continents.at(x, y),
        ) by {
            if interior.at(x, y).is_some() {
                crate::seamless_laws::lemma_shifted_continent_exact(
                    interior.at(x, y).unwrap(),
                    by,
                    canvas,
                );
            }
        }
        assert forall|x: int, y: int| on_seam(final_grid, x, y) implies cell_exact(
            #[trigger] planet@.edge_continents.at(x, y),
        ) by {
            if seam.at(x, y).is_some() {
                crate::seamless_laws::lemma_shifted_continent_exact(
                    seam.at(x, y).unwrap(),
                    by,
                    canvas,
                );
            }
        }
    }
}

/// `keeper` with the realms of `donor` behind its own, the last first,
/// and its box widened to enclose the box of `donor`.
pub open spec fn with_realms_of(keeper: ContinentView, donor: ContinentView) -> ContinentView {
    ContinentView {
        realms: keeper.realms + donor.realms.reverse(),
        bottom_left: keeper.bounds().merge(donor.bounds()).bottom_left,
        top_right: keeper.bounds().merge(donor.bounds()).top_right,
        ..keeper
    }
}

/// `continent` without its realms, its box the one that encloses nothing.
pub open spec fn emptied(continent: ContinentView) -> ContinentView {
    ContinentView {
        realms: Seq::empty(),
        bottom_left: Bounds::empty().bottom_left,
        top_right: Bounds::empty().top_right,
        ..continent
    }
}

/// Moves the realms of the continent at `(from_x, from_y)` behind those of
/// the continent at `(to_x, to_y)`, the last first.  The box of the one
/// that takes them grows to enclose the box of the one that gives them,
/// which is left with the box that encloses nothing.
fn move_realms_to_continent(
    continents: &mut ContinentGrid,
    from_x: u16,
    to_x: u16,
    from_y: u16,
    to_y: u16,
)
    requires
        old(continents)@.wf(),
        old(continents)@.at(from_x as int, from_y as int).is_some(),
        old(continents)@.at(to_x as int, to_y as int).is_some(),
        from_x != to_x || from_y != to_y,
    ensures
        final(continents)@.wf(),
        final(continents)@.size == old(continents)@.size,
        forall|i: int, j: int| #[trigger]
            final(continents)@.at(i, j) == if i == to_x && j == to_y {
                Some(
                    with_realms_of(
                        old(continents)@.at(i, j).unwrap(),
                        old(continents)@.at(from_x as int, from_y as int).unwrap(),
                    ),
                )
            } else if i == from_x && j == from_y {
                Some(emptied(old(continents)@.at(i, j).unwrap()))
            } else {
                old(continents)@.at(i, j)
            },
        forall|px: (u16, u16)| #[trigger]
            final(continents)@.pixel_count(px) == old(continents)@.pixel_count(px),
{
    let ghost c0 = continents@;
    let mut donor = continents.take(from_x, from_y);
    let ghost c1 = continents@;
    let mut keeper = continents.take(to_x, to_y);
    let ghost c2 = continents@;
    let ghost d0 = donor@;
    let ghost k0 = keeper@;
    let ghost given = donor@.realms;
    let ghost kept = keeper@.realms;
    while donor.realms.len() > 0
        invariant
            donor.realms.len() <= given.len(),
            realms_view(donor.realms@) == given.subrange(0, donor.realms.len() as int),
            realms_view(keeper.realms@) == kept + given.subrange(
                donor.realms.len() as int,
                given.len() as int,
            ).reverse(),
            donor@ == (ContinentView { realms: realms_view(donor.realms@), ..old(continents)@.at(
                from_x as int,
                from_y as int,
            ).unwrap() }),
            keeper@ == (ContinentView { realms: realms_view(keeper.realms@), ..old(continents)@.at(
                to_x as int,
                to_y as int,
            ).unwrap() }),
        decreases donor.realms.len(),
    {
        let ghost left = donor.realms.len() as int;
        let ghost taken = realms_view(donor.realms@);
        let ghost had = realms_view(keeper.realms@);
        match donor.realms.pop() {
            Some(realm) => {
                keeper.realms.push(realm);
                proof {
                    assert(taken[left - 1] == realm@);
                    assert(given.subrange(0, left)[left - 1] == given[left - 1]);
                    assert(realms_view(donor.realms@) =~= given.subrange(0, left - 1));
                    assert(realms_view(keeper.realms@) =~= had.push(realm@));
                    assert(given.subrange(left - 1, given.len() as int).reverse() =~= given.subrange(
                        left,
                        given.len() as int,
                    ).reverse().push(given[left - 1]));
                    assert(realms_view(keeper.realms@) =~= kept + given.subrange(
                        left - 1,
                        given.len() as int,
                    ).reverse());
                }
            },
            None => {},
        }
    }
    proof {
        assert(given.subrange(0, given.len() as int) =~= given);
        assert(realms_view(donor.realms@) =~= Seq::empty());
    }
    try_map_points_min_max_points_by_points(
        &mut keeper.bottom_left,
        &mut keeper.top_right,
        &donor.bottom_left,
        &donor.top_right,
    );
    donor.bottom_left = Point16::new(u16::MAX, u16::MAX);
    donor.top_right = Point16::new(u16::MIN, u16::MIN);
    let ghost d1 = donor@;
    let ghost k1 = keeper@;
    continents.insert(from_x, from_y, donor);
    let ghost c3 = continents@;
    continents.insert(to_x, to_y, keeper);
    proof {
        assert forall|px: (u16, u16)| #[trigger]
            continents@.pixel_count(px) == c0.pixel_count(px) by {
            crate::sums::lemma_sum_reverse(given, crate::continent::realm_weight(px));
            crate::sums::lemma_sum_concat(kept, given.reverse(), crate::continent::realm_weight(px));
            assert(k1.pixel_count(px) == k0.pixel_count(px) + d0.pixel_count(px));
            assert(d1.pixel_count(px) == 0);
            assert(c1.pixel_count(px) + d0.pixel_count(px) == c0.pixel_count(px));
            assert(c2.pixel_count(px) + k0.pixel_count(px) == c1.pixel_count(px));
            assert(c3.pixel_count(px) + crate::continent::cell_weight(px)(
                c2.at(from_x as int, from_y as int),
            ) == c2.pixel_count(px) + d1.pixel_count(px));
            assert(continents@.pixel_count(px) + crate::continent::cell_weight(px)(
                c3.at(to_x as int, to_y as int),
            ) == c3.pixel_count(px) + k1.pixel_count(px));
        }
    }
}

/// The continent with each pixel that it holds twice kept once, and
/// nothing left beneath it that holds nothing.
pub open spec fn deduped(continent: ContinentView) -> ContinentView {
    sifted_continent(
        sifted_continent(continent, Map::empty(), Sift::Held),
        Map::empty(),
        Sift::HeldNoting,
    )
}

/// The continent without the pixels that `taken` holds too.
pub open spec fn culled(continent: ContinentView, taken: Seq<(u16, u16)>) -> ContinentView {
    sifted_continent(
        continent,
        flagged(unflagged(Map::empty(), flat_pixels(continent)), taken),
        Sift::Flagged,
    )
}

/// The continent without the pixels that `marks` holds.
pub open spec fn scrubbed(continent: ContinentView, marks: Map<(u16, u16), bool>) -> ContinentView {
    sifted_continent(sifted_continent(continent, Map::empty(), Sift::Held), marks, Sift::Held)
}

/// The map has every continent that the merge of the seams reads: the
/// final grid is at least three cells wide and high, the seam strip is
/// complete, and so are the last two rows and the last two columns of the
/// interior.
pub open spec fn centered_ready(planet: PlanetView, grid: Size16) -> bool {
    &&& planet.wf()
    &&& grid.width >= 3
    &&& grid.height >= 3
    &&& forall|x: int| 0 <= x < grid.width ==> (#[trigger] planet.edge_continents.at(x, 0)).is_some()
    &&& forall|y: int| 0 <= y < grid.height ==> (#[trigger] planet.edge_continents.at(0, y)).is_some()
    &&& forall|x: int, y: int|
        in_interior(grid, x, y) && (x >= grid.width - 2 || y >= grid.height - 2) ==> (
        #[trigger] planet.continents.at(x, y)).is_some()
}

/// The corner of the seam after the merge: the continent at `(0, 0)` with
/// the realms of the last continent of column 0 and then of the last of
/// row 0 behind its own, and no pixel held twice.
pub open spec fn corner_00(seam: GridView, grid: Size16) -> ContinentView {
    deduped(
        with_realms_of(
            with_realms_of(seam.at(0, 0).unwrap(), seam.at(0, grid.height - 1).unwrap()),
            seam.at(grid.width - 1, 0).unwrap(),
        ),
    )
}

/// What the seam strip holds at cell `(x, y)` after the merge.
pub open spec fn centered_seam_cell(seam: GridView, grid: Size16, x: int, y: int) -> Option<
    ContinentView,
> {
    if x == 0 && y == 0 {
        Some(corner_00(seam, grid))
    } else if (x == 0 && y == grid.height - 1) || (x == grid.width - 1 && y == 0) {
        None
    } else if (x == grid.width - 2 && y == 0) || (x == 0 && y == grid.height - 2) {
        Some(culled(seam.at(x, y).unwrap(), flat_pixels(corner_00(seam, grid))))
    } else {
        seam.at(x, y)
    }
}

/// The seam strip after the merge.
pub open spec fn centered_seam(seam: GridView, grid: Size16) -> GridView {
    GridView {
        size: seam.size,
        columns: Seq::new(
            seam.size.width as nat,
            |x: int|
                Seq::new(seam.size.height as nat, |y: int| centered_seam_cell(seam, grid, x, y)),
        ),
    }
}

/// The marks with the pixels of the seam's row 0 put in, from cell 1 up to
/// cell `n`, that one left out.
pub open spec fn row_marks(marks: Map<(u16, u16), bool>, seam: GridView, n: nat) -> Map<
    (u16, u16),
    bool,
>
    decreases n,
{
    if n <= 1 {
        marks
    } else {
        unflagged(
            row_marks(marks, seam, (n - 1) as nat),
            flat_pixels(seam.at(n - 1, 0).unwrap()),
        )
    }
}

/// The marks with the pixels of the seam's column 0 put in, from cell 1 up
/// to cell `n`, that one left out.
pub open spec fn column_marks(marks: Map<(u16, u16), bool>, seam: GridView, n: nat) -> Map<
    (u16, u16),
    bool,
>
    decreases n,
{
    if n <= 1 {
        marks
    } else {
        unflagged(
            column_marks(marks, seam, (n - 1) as nat),
            flat_pixels(seam.at(0, n - 1).unwrap()),
        )
    }
}

/// Every pixel of the merged seam strip: those of its corner, of its row
/// 0 and of its column 0.
pub open spec fn seam_marks(seam: GridView, grid: Size16) -> Map<(u16, u16), bool> {
    let merged = centered_seam(seam, grid);
    column_marks(
        row_marks(
            unflagged(Map::empty(), flat_pixels(corner_00(seam, grid))),
            merged,
            (grid.width - 1) as nat,
        ),
        merged,
        (grid.height - 1) as nat,
    )
}

/// What the interior holds at cell `(x, y)` once its last row and its last
/// column have given their realms to the row and the column before them.
pub open spec fn gathered_cell(interior: GridView, grid: Size16, x: int, y: int) -> Option<
    ContinentView,
> {
    let w = grid.width as int;
    let h = grid.height as int;
    if !in_interior(grid, x, y) {
        interior.at(x, y)
    } else if x == w - 1 || y == h - 1 {
        None
    } else if x == w - 2 && y == h - 2 {
        Some(
            with_realms_of(
                with_realms_of(interior.at(x, y).unwrap(), interior.at(x, h - 1).unwrap()),
                with_realms_of(
                    interior.at(w - 1, y).unwrap(),
                    interior.at(w - 1, h - 1).unwrap(),
                ),
            ),
        )
    } else if y == h - 2 {
        Some(with_realms_of(interior.at(x, y).unwrap(), interior.at(x, h - 1).unwrap()))
    } else if x == w - 2 {
        Some(with_realms_of(interior.at(x, y).unwrap(), interior.at(w - 1, y).unwrap()))
    } else {
        interior.at(x, y)
    }
}

/// What the interior holds at cell `(x, y)` after the merge: the gathered
/// cell, without the pixels of the seam strip where the cell lies in the
/// gathered last row or last column.
pub open spec fn centered_interior_cell(
    interior: GridView,
    grid: Size16,
    marks: Map<(u16, u16), bool>,
    x: int,
    y: int,
) -> Option<ContinentView> {
    let w = grid.width as int;
    let h = grid.height as int;
    let gathered = gathered_cell(interior, grid, x, y);
    if x == w - 2 && y == h - 2 {
        Some(scrubbed(scrubbed(gathered.unwrap(), marks), marks))
    } else if in_interior(grid, x, y) && (x == w - 2 || y == h - 2) && x <= w - 2 && y <= h - 2 {
        Some(scrubbed(gathered.unwrap(), marks))
    } else {
        gathered
    }
}

/// The interior after the merge.
pub open spec fn centered_interior(planet: PlanetView, grid: Size16) -> GridView {
    GridView {
        size: planet.continents.size,
        columns: Seq::new(
            planet.continents.size.width as nat,
            |x: int|
                Seq::new(
                    planet.continents.size.height as nat,
                    |y: int|
                        centered_interior_cell(
                            planet.continents,
                            grid,
                            seam_marks(planet.edge_continents, grid),
                            x,
                            y,
                        ),
                ),
        ),
    }
}

/// The map once the seams are merged and the pixels held twice are
/// removed, before it is tidied.
pub open spec fn gathered_planet(planet: PlanetView, grid: Size16) -> PlanetView {
    PlanetView {
        edge_continents: centered_seam(planet.edge_continents, grid),
        continents: centered_interior(planet, grid),
    }
}

/// What a cell holds once it is tidied: its continent with nothing vacant
/// beneath it and every box drawn anew, or nothing where the continent is
/// left without a realm.
pub open spec fn tidy_cell(cell: Option<ContinentView>) -> Option<ContinentView> {
    match cell {
        Some(continent) => {
            let kept = sifted_continent(continent, Map::empty(), Sift::Held);
            if kept.realms.len() > 0 {
                Some(kept)
            } else {
                None
            }
        },
        None => None,
    }
}

/// The grid with every cell tidied.
pub open spec fn tidy_grid(grid: GridView) -> GridView {
    GridView {
        size: grid.size,
        columns: Seq::new(
            grid.size.width as nat,
            |x: int| Seq::new(grid.size.height as nat, |y: int| tidy_cell(grid.at(x, y))),
        ),
    }
}

/// The map with every cell of both grids tidied.
pub open spec fn tidied(planet: PlanetView) -> PlanetView {
    PlanetView {
        edge_continents: tidy_grid(planet.edge_continents),
        continents: tidy_grid(planet.continents),
    }
}

/// The cell is vacant, or its continent has a realm, nothing beneath it is
/// vacant, and every box is the smallest around the pixels beneath it.
pub open spec fn cell_sound(cell: Option<ContinentView>) -> bool {
    match cell {
        Some(continent) => continent.populated() && continent.bounds_exact(),
        None => true,
    }
}

/// The map after the merge of the seams: gathered, then tidied.
pub open spec fn centered_planet(planet: PlanetView, grid: Size16) -> PlanetView {
    tidied(gathered_planet(planet, grid))
}

/// Tidies the cell `(x, y)`.
fn tidy_at(grid: &mut ContinentGrid, x: u16, y: u16)
    requires
        old(grid)@.wf(),
    ensures
        final(grid)@.wf(),
        final(grid)@.size == old(grid)@.size,
        forall|i: int, j: int| #[trigger]
            final(grid)@.at(i, j) == if i == x && j == y {
                tidy_cell(old(grid)@.at(i, j))
            } else {
                old(grid)@.at(i, j)
            },
        cell_sound(final(grid)@.at(x as int, y as int)),
        forall|px: (u16, u16)| #[trigger]
            final(grid)@.pixel_count(px) <= old(grid)@.pixel_count(px),
{
    let ghost g0 = grid@;
    match grid.remove(x, y) {
        Some(continent) => {
            let mut continent = continent;
            let ghost g1 = grid@;
            let ghost k0 = continent@;
            clean_continent(&mut continent);
            if continent.realms.len() > 0 {
                let ghost k1 = continent@;
                assert(g1.has_cell(x as int, y as int));
                grid.insert(x, y, continent);
                proof {
                    assert forall|px: (u16, u16)| #[trigger]
                        grid@.pixel_count(px) <= g0.pixel_count(px) by {
                        assert(g1.pixel_count(px) + k0.pixel_count(px) == g0.pixel_count(px));
                        assert(k1.pixel_count(px) <= k0.pixel_count(px));
                        assert(grid@.pixel_count(px) + crate::continent::cell_weight(px)(
                            g1.at(x as int, y as int),
                        ) == g1.pixel_count(px) + k1.pixel_count(px));
                    }
                }
            }
        },
        None => {},
    }
}

/// Tidies every cell of the grid.
fn tidy(grid: &mut ContinentGrid)
    requires
        old(grid)@.wf(),
    ensures
        final(grid)@ == tidy_grid(old(grid)@),
        final(grid)@.wf(),
        forall|x: int, y: int| cell_sound(#[trigger] final(grid)@.at(x, y)),
        forall|px: (u16, u16)| #[trigger]
            final(grid)@.pixel_count(px) <= old(grid)@.pixel_count(px),
{
    let ghost g0 = grid@;
    let size = grid.size;
    let mut x: u16 = 0;
    while x < size.width
        invariant
            x <= size.width,
            size == g0.size,
            g0.wf(),
            grid@.wf(),
            grid@.size == g0.size,
            forall|i: int, j: int| #[trigger]
                grid@.at(i, j) == if 0 <= i < x && 0 <= j < size.height {
                    tidy_cell(g0.at(i, j))
                } else {
                    g0.at(i, j)
                },
            forall|i: int, j: int|
                0 <= i < x && 0 <= j < size.height ==> cell_sound(#[trigger] grid@.at(i, j)),
            forall|px: (u16, u16)| #[trigger] grid@.pixel_count(px) <= g0.pixel_count(px),
        decreases size.width - x,
    {
        let mut y: u16 = 0;
        while y < size.height
            invariant
                x < size.width,
                y <= size.height,
                size == g0.size,
                g0.wf(),
                grid@.wf(),
                grid@.size == g0.size,
                forall|i: int, j: int| #[trigger]
                    grid@.at(i, j) == if (0 <= i < x && 0 <= j < size.height) || (i == x && 0 <= j
                        < y) {
                        tidy_cell(g0.at(i, j))
                    } else {
                        g0.at(i, j)
                    },
                forall|i: int, j: int|
                    (0 <= i < x && 0 <= j < size.height) || (i == x && 0 <= j < y) ==> cell_sound(
                        #[trigger] grid@.at(i, j),
                    ),
                forall|px: (u16, u16)| #[trigger] grid@.pixel_count(px) <= g0.pixel_count(px),
            decreases size.height - y,
        {
            let ghost before = grid@;
            tidy_at(grid, x, y);
            proof {
                assert forall|px: (u16, u16)| #[trigger]
                    grid@.pixel_count(px) <= g0.pixel_count(px) by {
                    assert(before.pixel_count(px) <= g0.pixel_count(px));
                }
            }
            y += 1;
        }
        x += 1;
    }
    proof {
        lemma_grid_ext(grid@, tidy_grid(g0));
        assert forall|i: int, j: int| cell_sound(#[trigger] grid@.at(i, j)) by {
            if !(0 <= i < size.width && 0 <= j < size.height) {
                assert(!g0.has_cell(i, j));
            }
        }
    }
}

/// Whether the map has every continent that the merge of the seams reads.
fn can_center(planet: &Planet, grid: &Size16) -> (ready: bool)
    requires
        planet@.wf(),
    ensures
        ready == centered_ready(planet@, *grid),
{
    if grid.width < 3 || grid.height < 3 {
        return false;
    }
    let mut x: u16 = 0;
    while x < grid.width
        invariant
            x <= grid.width,
            planet@.wf(),
            forall|i: int| 0 <= i < x ==> (#[trigger] planet@.edge_continents.at(i, 0)).is_some(),
        decreases grid.width - x,
    {
        if !planet.edge_continents.contains_key(x, 0) {
            return false;
        }
        x += 1;
    }
    let mut y: u16 = 0;
    while y < grid.height
        invariant
            y <= grid.height,
            planet@.wf(),
            forall|j: int| 0 <= j < y ==> (#[trigger] planet@.edge_continents.at(0, j)).is_some(),
        decreases grid.height - y,
    {
        if !planet.edge_continents.contains_key(0, y) {
            return false;
        }
        y += 1;
    }
    let mut x: u16 = 1;
    while x < grid.width
        invariant
            1 <= x <= grid.width,
            grid.height >= 3,
            planet@.wf(),
            forall|i: int, j: int|
                1 <= i < x && grid.height - 2 <= j < grid.height ==> (
                #[trigger] planet@.continents.at(i, j)).is_some(),
        decreases grid.width - x,
    {
        if !planet.continents.contains_key(x, grid.height - 2) || !planet.continents.contains_key(
            x,
            grid.height - 1,
        ) {
            return false;
        }
        x += 1;
    }
    let mut y: u16 = 1;
    while y < grid.height
        invariant
            1 <= y <= grid.height,
            grid.width >= 3,
            grid.height >= 3,
            planet@.wf(),
            forall|i: int, j: int|
                1 <= i < grid.width && grid.height - 2 <= j < grid.height ==> (
                #[trigger] planet@.continents.at(i, j)).is_some(),
            forall|i: int, j: int|
                grid.width - 2 <= i < grid.width && 1 <= j < y ==> (
                #[trigger] planet@.continents.at(i, j)).is_some(),
        decreases grid.height - y,
    {
        if !planet.continents.contains_key(grid.width - 2, y) || !planet.continents.contains_key(
            grid.width - 1,
            y,
        ) {
            return false;
        }
        y += 1;
    }
    true
}

/// Removes from the corner of the seam each pixel that it holds twice, and
/// hands out the pixels that it keeps.
fn get_pixels_at_00(edge_continents: &mut ContinentGrid) -> (pixels_at_00: Vec<(u16, u16)>)
    requires
        old(edge_continents)@.wf(),
        old(edge_continents)@.at(0, 0).is_some(),
    ensures
        final(edge_continents)@.wf(),
        final(edge_continents)@.size == old(edge_continents)@.size,
        pixels_at_00@ == flat_pixels(deduped(old(edge_continents)@.at(0, 0).unwrap())),
        forall|i: int, j: int| #[trigger]
            final(edge_continents)@.at(i, j) == if i == 0 && j == 0 {
                Some(deduped(old(edge_continents)@.at(0, 0).unwrap()))
            } else {
                old(edge_continents)@.at(i, j)
            },
        forall|px: (u16, u16)| #[trigger]
            final(edge_continents)@.pixel_count(px) <= old(edge_continents)@.pixel_count(px),
{
    let ghost g0 = edge_continents@;
    let mut continent_at_00 = edge_continents.take(0, 0);
    let ghost g1 = edge_continents@;
    let ghost k0 = continent_at_00@;
    clean_continent(&mut continent_at_00);
    let ghost k1 = continent_at_00@;
    let mut pixels = PixelMarks::new();
    remove_pixels_from_continent(&mut continent_at_00, &mut pixels, true);
    let ghost k2 = continent_at_00@;
    let pixels_at_00 = collect_pixels(&continent_at_00);
    edge_continents.insert(0, 0, continent_at_00);
    proof {
        assert forall|px: (u16, u16)| #[trigger]
            edge_continents@.pixel_count(px) <= g0.pixel_count(px) by {
            assert(g1.pixel_count(px) + k0.pixel_count(px) == g0.pixel_count(px));
            assert(k1.pixel_count(px) <= k0.pixel_count(px));
            assert(k2.pixel_count(px) <= k1.pixel_count(px));
            assert(edge_continents@.pixel_count(px) + crate::continent::cell_weight(px)(
                g1.at(0, 0),
            ) == g1.pixel_count(px) + k2.pixel_count(px));
        }
    }
    pixels_at_00
}

/// Removes from the seam continent at `(x, y)` the pixels that the corner
/// holds too.
fn cleanup_edge_pixels(
    edge_continents: &mut ContinentGrid,
    x: u16,
    y: u16,
    pixels_at_00: &Vec<(u16, u16)>,
)
    requires
        old(edge_continents)@.wf(),
        old(edge_continents)@.at(x as int, y as int).is_some(),
    ensures
        final(edge_continents)@.wf(),
        final(edge_continents)@.size == old(edge_continents)@.size,
        forall|i: int, j: int| #[trigger]
            final(edge_continents)@.at(i, j) == if i == x && j == y {
                Some(culled(old(edge_continents)@.at(i, j).unwrap(), pixels_at_00@))
            } else {
                old(edge_continents)@.at(i, j)
            },
        forall|px: (u16, u16)| #[trigger]
            final(edge_continents)@.pixel_count(px) <= old(edge_continents)@.pixel_count(px),
{
    let ghost g0 = edge_continents@;
    let mut edge_continent = edge_continents.take(x, y);
    let ghost g1 = edge_continents@;
    let ghost k0 = edge_continent@;
    let own = collect_pixels(&edge_continent);
    let mut edge_pixels = PixelMarks::new();
    note_pixels(&own, &mut edge_pixels);
    mark_overlaping_pixels(pixels_at_00, &mut edge_pixels);
    remove_overlaping_pixels_from_regions(&mut edge_continent, &mut edge_pixels);
    let ghost k1 = edge_continent@;
    edge_continents.insert(x, y, edge_continent);
    proof {
        assert forall|px: (u16, u16)| #[trigger]
            edge_continents@.pixel_count(px) <= g0.pixel_count(px) by {
            assert(g1.pixel_count(px) + k0.pixel_count(px) == g0.pixel_count(px));
            assert(k1.pixel_count(px) <= k0.pixel_count(px));
            assert(edge_continents@.pixel_count(px) + crate::continent::cell_weight(px)(
                g1.at(x as int, y as int),
            ) == g1.pixel_count(px) + k1.pixel_count(px));
        }
    }
}

/// Every pixel of the seam strip: those of the corner, handed in, and
/// those of row 0 and of column 0 short of their last cells.
fn get_all_pixels_on_edge(
    edge_continents: &ContinentGrid,
    pixels_at_00: &Vec<(u16, u16)>,
    width: u16,
    height: u16,
) -> (pixels_on_edge: PixelMarks)
    requires
        edge_continents@.wf(),
        forall|x: int| 1 <= x < width ==> (#[trigger] edge_continents@.at(x, 0)).is_some(),
        forall|y: int| 1 <= y < height ==> (#[trigger] edge_continents@.at(0, y)).is_some(),
    ensures
        pixels_on_edge@ == column_marks(
            row_marks(unflagged(Map::empty(), pixels_at_00@), edge_continents@, width as nat),
            edge_continents@,
            height as nat,
        ),
{
    let mut pixels_on_edge = PixelMarks::new();
    note_pixels(pixels_at_00, &mut pixels_on_edge);
    let ghost start = pixels_on_edge@;
    let mut x: u16 = 1;
    while x < width
        invariant
            1 <= x,
            x <= width || x == 1,
            edge_continents@.wf(),
            forall|x: int| 1 <= x < width ==> (#[trigger] edge_continents@.at(x, 0)).is_some(),
            pixels_on_edge@ == row_marks(start, edge_continents@, x as nat),
        decreases width - x,
    {
        match edge_continents.get(x, 0) {
            Some(edge_continent) => {
                let own = collect_pixels(edge_continent);
                note_pixels(&own, &mut pixels_on_edge);
            },
            None => {},
        }
        x += 1;
    }
    assert(pixels_on_edge@ == row_marks(start, edge_continents@, width as nat));
    let ghost rows = pixels_on_edge@;
    let mut y: u16 = 1;
    while y < height
        invariant
            1 <= y,
            y <= height || y == 1,
            edge_continents@.wf(),
            forall|y: int| 1 <= y < height ==> (#[trigger] edge_continents@.at(0, y)).is_some(),
            pixels_on_edge@ == column_marks(rows, edge_continents@, y as nat),
        decreases height - y,
    {
        match edge_continents.get(0, y) {
            Some(edge_continent) => {
                let own = collect_pixels(edge_continent);
                note_pixels(&own, &mut pixels_on_edge);
            },
            None => {},
        }
        y += 1;
    }
    pixels_on_edge
}

/// Removes from the interior continent at `(x, y)` the pixels that the
/// seam strip holds.
fn scrub_cell(continents: &mut ContinentGrid, x: u16, y: u16, pixels_on_edge: &mut PixelMarks)
    requires
        old(continents)@.wf(),
        old(continents)@.at(x as int, y as int).is_some(),
    ensures
        final(continents)@.wf(),
        final(continents)@.size == old(continents)@.size,
        final(pixels_on_edge)@ == old(pixels_on_edge)@,
        forall|i: int, j: int| #[trigger]
            final(continents)@.at(i, j) == if i == x && j == y {
                Some(scrubbed(old(continents)@.at(i, j).unwrap(), old(pixels_on_edge)@))
            } else {
                old(continents)@.at(i, j)
            },
        forall|px: (u16, u16)| #[trigger]
            final(continents)@.pixel_count(px) <= old(continents)@.pixel_count(px),
{
    let ghost g0 = continents@;
    let mut continent = continents.take(x, y);
    let ghost g1 = continents@;
    let ghost k0 = continent@;
    clean_continent(&mut continent);
    let ghost k1 = continent@;
    proof {
        crate::pixels_utils::lemma_noted_realms_same(
            pixels_on_edge@,
            continent@.realms,
            Sift::Held,
        );
    }
    remove_pixels_from_continent(&mut continent, pixels_on_edge, false);
    let ghost k2 = continent@;
    continents.insert(x, y, continent);
    proof {
        assert forall|px: (u16, u16)| #[trigger]
            continents@.pixel_count(px) <= g0.pixel_count(px) by {
            assert(g1.pixel_count(px) + k0.pixel_count(px) == g0.pixel_count(px));
            assert(k1.pixel_count(px) <= k0.pixel_count(px));
            assert(k2.pixel_count(px) <= k1.pixel_count(px));
            assert(continents@.pixel_count(px) + crate::continent::cell_weight(px)(
                g1.at(x as int, y as int),
            ) == g1.pixel_count(px) + k2.pixel_count(px));
        }
    }
}

/// Gathers the seam strip: the last continent of column 0 and the last of
/// row 0 give their realms to the corner and leave, the corner keeps each
/// of its pixels once, and the seam cells before the two that left give
/// up what the corner holds.  Hands out the pixels of the corner.
fn gather_seam(edge_continents: &mut ContinentGrid, grid: &Size16) -> (pixels_at_00: Vec<
    (u16, u16),
>)
    requires
        old(edge_continents)@.wf(),
        grid.width >= 3,
        grid.height >= 3,
        old(edge_continents)@.at(0, 0).is_some(),
        old(edge_continents)@.at(0, grid.height - 1).is_some(),
        old(edge_continents)@.at(grid.width - 1, 0).is_some(),
        old(edge_continents)@.at(grid.width - 2, 0).is_some(),
        old(edge_continents)@.at(0, grid.height - 2).is_some(),
    ensures
        final(edge_continents)@.wf(),
        final(edge_continents)@ == centered_seam(old(edge_continents)@, *grid),
        pixels_at_00@ == flat_pixels(corner_00(old(edge_continents)@, *grid)),
        forall|px: (u16, u16)| #[trigger]
            final(edge_continents)@.pixel_count(px) <= old(edge_continents)@.pixel_count(px),
{
    let ghost before = edge_continents@;
    let from_y: u16 = grid.height - 1;
    let from_x: u16 = grid.width - 1;
    let to_y: u16 = grid.height - 2;
    let to_x: u16 = grid.width - 2;
    assert(before.at(0, 0).is_some());
    assert(before.at(0, from_y as int).is_some());
    assert(before.at(from_x as int, 0).is_some());
    assert(before.at(to_x as int, 0).is_some());
    assert(before.at(0, to_y as int).is_some());
    move_realms_to_continent(edge_continents, 0, 0, from_y, 0);
    let ghost e1 = edge_continents@;
    move_realms_to_continent(edge_continents, from_x, 0, 0, 0);
    let ghost e2 = edge_continents@;
    let pixels_at_00 = get_pixels_at_00(edge_continents);
    let ghost e3 = edge_continents@;
    edge_continents.remove(0, from_y);
    let ghost e4 = edge_continents@;
    edge_continents.remove(from_x, 0);
    let ghost e5 = edge_continents@;
    cleanup_edge_pixels(edge_continents, to_x, 0, &pixels_at_00);
    let ghost e6 = edge_continents@;
    cleanup_edge_pixels(edge_continents, 0, to_y, &pixels_at_00);
    proof {
        lemma_grid_ext(edge_continents@, centered_seam(before, *grid));
        assert forall|px: (u16, u16)| #[trigger]
            edge_continents@.pixel_count(px) <= before.pixel_count(px) by {
            assert(e1.pixel_count(px) == before.pixel_count(px));
            assert(e2.pixel_count(px) == e1.pixel_count(px));
            assert(e3.pixel_count(px) <= e2.pixel_count(px));
            assert(e4.pixel_count(px) <= e3.pixel_count(px));
            assert(e5.pixel_count(px) <= e4.pixel_count(px));
            assert(e6.pixel_count(px) <= e5.pixel_count(px));
            assert(edge_continents@.pixel_count(px) <= e6.pixel_count(px));
        }
    }
    pixels_at_00
}

/// The interior has every continent that the gathering reads: those of
/// its last two rows and of its last two columns.
pub open spec fn rim_ready(interior: GridView, grid: Size16) -> bool {
    forall|x: int, y: int|
        in_interior(grid, x, y) && (x >= grid.width - 2 || y >= grid.height - 2) ==> (
        #[trigger] interior.at(x, y)).is_some()
}

/// Gathers the interior: its last row and its last column give their
/// realms to the row and the column before them, and leave.
fn gather_interior(continents: &mut ContinentGrid, grid: &Size16)
    requires
        old(continents)@.wf(),
        grid.width >= 3,
        grid.height >= 3,
        rim_ready(old(continents)@, *grid),
    ensures
        final(continents)@.wf(),
        final(continents)@.size == old(continents)@.size,
        forall|i: int, j: int| #[trigger]
            final(continents)@.at(i, j) == gathered_cell(old(continents)@, *grid, i, j),
        forall|px: (u16, u16)| #[trigger]
            final(continents)@.pixel_count(px) <= old(continents)@.pixel_count(px),
{
    let from_y: u16 = grid.height - 1;
    let from_x: u16 = grid.width - 1;
    let to_y: u16 = grid.height - 2;
    let to_x: u16 = grid.width - 2;
    let ghost g0 = continents@;
    let mut x: u16 = 1;
    while x < grid.width
        invariant
            1 <= x <= grid.width,
            grid.width >= 3,
            grid.height >= 3,
            from_y == grid.height - 1,
            to_y == grid.height - 2,
            rim_ready(g0, *grid),
            continents@.wf(),
            continents@.size == g0.size,
            forall|i: int, j: int| #[trigger]
                continents@.at(i, j) == if 1 <= i < x && j == to_y {
                    Some(with_realms_of(g0.at(i, j).unwrap(), g0.at(i, from_y as int).unwrap()))
                } else if 1 <= i < x && j == from_y {
                    Some(emptied(g0.at(i, j).unwrap()))
                } else {
                    g0.at(i, j)
                },
            forall|px: (u16, u16)| #[trigger]
                continents@.pixel_count(px) <= g0.pixel_count(px),
        decreases grid.width - x,
    {
        assert(g0.at(x as int, from_y as int).is_some() && g0.at(x as int, to_y as int).is_some());
        move_realms_to_continent(continents, x, x, from_y, to_y);
        x += 1;
    }

    let ghost g1 = continents@;
    let mut y: u16 = 1;
    while y < grid.height
        invariant
            1 <= y <= grid.height,
            grid.width >= 3,
            grid.height >= 3,
            from_x == grid.width - 1,
            to_x == grid.width - 2,
            continents@.wf(),
            continents@.size == g0.size,
            forall|j: int|
                1 <= j < grid.height ==> (#[trigger] g1.at(from_x as int, j)).is_some() && g1.at(
                    to_x as int,
                    j,
                ).is_some(),
            forall|i: int, j: int| #[trigger]
                continents@.at(i, j) == if i == to_x && 1 <= j < y {
                    Some(with_realms_of(g1.at(i, j).unwrap(), g1.at(from_x as int, j).unwrap()))
                } else if i == from_x && 1 <= j < y {
                    Some(emptied(g1.at(i, j).unwrap()))
                } else {
                    g1.at(i, j)
                },
            forall|px: (u16, u16)| #[trigger]
                continents@.pixel_count(px) <= g0.pixel_count(px),
        decreases grid.height - y,
    {
        assert(g1.at(from_x as int, y as int).is_some());
        move_realms_to_continent(continents, from_x, to_x, y, y);
        y += 1;
    }

    let ghost g2 = continents@;
    let mut x: u16 = 1;
    while x < grid.width
        invariant
            1 <= x <= grid.width,
            from_y == grid.height - 1,
            continents@.wf(),
            continents@.size == g0.size,
            forall|i: int, j: int| #[trigger]
                continents@.at(i, j) == if 1 <= i < x && j == from_y {
                    None
                } else {
                    g2.at(i, j)
                },
            forall|px: (u16, u16)| #[trigger]
                continents@.pixel_count(px) <= g0.pixel_count(px),
        decreases grid.width - x,
    {
        continents.remove(x, from_y);
        x += 1;
    }
    let mut y: u16 = 1;
    while y < grid.height
        invariant
            1 <= y <= grid.height,
            from_y == grid.height - 1,
            from_x == grid.width - 1,
            continents@.wf(),
            continents@.size == g0.size,
            forall|i: int, j: int| #[trigger]
                continents@.at(i, j) == if (1 <= i < grid.width && j == from_y) || (i
                    == from_x && 1 <= j < y) {
                    None
                } else {
                    g2.at(i, j)
                },
            forall|px: (u16, u16)| #[trigger]
                continents@.pixel_count(px) <= g0.pixel_count(px),
        decreases grid.height - y,
    {
        continents.remove(from_x, y);
        y += 1;
    }
    let ghost g3 = continents@;
    assert forall|i: int, j: int| #[trigger] g3.at(i, j) == gathered_cell(g0, *grid, i, j) by {
        let a = g1.at(i, j);
        let b = g2.at(i, j);
        let c = g1.at(from_x as int, j);
        let d = g0.at(i, from_y as int);
    }
}

/// The gathered interior has every continent that the scrubbing reads:
/// those of its last row and of its last column.
pub open spec fn strip_ready(interior: GridView, grid: Size16) -> bool {
    forall|x: int, y: int|
        scrubbed_cell(grid, x, y) ==> (#[trigger] interior.at(x, y)).is_some()
}

/// Whether `(x, y)` is a cell of the last row or of the last column of the
/// gathered interior.
pub open spec fn scrubbed_cell(grid: Size16, x: int, y: int) -> bool {
    in_interior(grid, x, y) && (x == grid.width - 2 || y == grid.height - 2) && x <= grid.width
        - 2 && y <= grid.height - 2
}

/// Takes what the seam strip holds out of the last row and the last
/// column of the gathered interior; the cell where the two meet is walked
/// twice.
fn scrub_interior(continents: &mut ContinentGrid, grid: &Size16, pixels_on_edge: &mut PixelMarks)
    requires
        old(continents)@.wf(),
        grid.width >= 3,
        grid.height >= 3,
        strip_ready(old(continents)@, *grid),
    ensures
        final(continents)@.wf(),
        final(continents)@.size == old(continents)@.size,
        final(pixels_on_edge)@ == old(pixels_on_edge)@,
        forall|i: int, j: int| #[trigger]
            final(continents)@.at(i, j) == if i == grid.width - 2 && j == grid.height - 2 {
                Some(
                    scrubbed(
                        scrubbed(old(continents)@.at(i, j).unwrap(), old(pixels_on_edge)@),
                        old(pixels_on_edge)@,
                    ),
                )
            } else if scrubbed_cell(*grid, i, j) {
                Some(scrubbed(old(continents)@.at(i, j).unwrap(), old(pixels_on_edge)@))
            } else {
                old(continents)@.at(i, j)
            },
        forall|px: (u16, u16)| #[trigger]
            final(continents)@.pixel_count(px) <= old(continents)@.pixel_count(px),
{
    let from_y: u16 = grid.height - 1;
    let from_x: u16 = grid.width - 1;
    let to_y: u16 = grid.height - 2;
    let to_x: u16 = grid.width - 2;
    let ghost g3 = continents@;
    let ghost marks = pixels_on_edge@;
    let mut x: u16 = 1;
    while x < from_x
        invariant
            1 <= x <= from_x,
            grid.width >= 3,
            grid.height >= 3,
            from_x == grid.width - 1,
            to_y == grid.height - 2,
            strip_ready(g3, *grid),
            pixels_on_edge@ == marks,
            continents@.wf(),
            continents@.size == g3.size,
            forall|i: int, j: int| #[trigger]
                continents@.at(i, j) == if 1 <= i < x && j == to_y {
                    Some(scrubbed(g3.at(i, j).unwrap(), marks))
                } else {
                    g3.at(i, j)
                },
            forall|px: (u16, u16)| #[trigger]
                continents@.pixel_count(px) <= g3.pixel_count(px),
        decreases from_x - x,
    {
        assert(g3.at(x as int, to_y as int).is_some());
        scrub_cell(continents, x, to_y, pixels_on_edge);
        x += 1;
    }
    let ghost g4 = continents@;
    let mut y: u16 = 1;
    while y < from_y
        invariant
            1 <= y <= from_y,
            grid.width >= 3,
            grid.height >= 3,
            from_y == grid.height - 1,
            to_x == grid.width - 2,
            to_y == grid.height - 2,
            strip_ready(g3, *grid),
            pixels_on_edge@ == marks,
            continents@.wf(),
            continents@.size == g3.size,
            forall|i: int, j: int| #[trigger]
                g4.at(i, j) == if 1 <= i < grid.width - 1 && j == to_y {
                    Some(scrubbed(g3.at(i, j).unwrap(), marks))
                } else {
                    g3.at(i, j)
                },
            forall|i: int, j: int| #[trigger]
                continents@.at(i, j) == if i == to_x && 1 <= j < y {
                    Some(scrubbed(g4.at(i, j).unwrap(), marks))
                } else {
                    g4.at(i, j)
                },
            forall|px: (u16, u16)| #[trigger]
                continents@.pixel_count(px) <= g3.pixel_count(px),
        decreases from_y - y,
    {
        assert(g3.at(to_x as int, y as int).is_some());
        assert(g4.at(to_x as int, y as int).is_some());
        scrub_cell(continents, to_x, y, pixels_on_edge);
        y += 1;
    }
    proof {
        assert forall|i: int, j: int| #[trigger]
            continents@.at(i, j) == if i == grid.width - 2 && j == grid.height - 2 {
                Some(scrubbed(scrubbed(g3.at(i, j).unwrap(), marks), marks))
            } else if scrubbed_cell(*grid, i, j) {
                Some(scrubbed(g3.at(i, j).unwrap(), marks))
            } else {
                g3.at(i, j)
            } by {
            let a = g4.at(i, j);
            let b = g3.at(i, j);
        }
    }
}

/// Closes the seam of a map whose pixels have been moved into the space of
/// the final image.
///
/// The last continent of the seam's column 0 and the last of its row 0 lie,
/// after the move, where the seam's corner lies: their realms go behind
/// those of the corner at `(0, 0)`, and the two leave the map.  Likewise
/// the last row and the last column of the interior give their realms to
/// the row and the column before them, and leave the map.  A pixel may then
/// be held more than once.  The corner keeps each of its pixels once; the
/// seam continents before the two that left give up what the corner holds;
/// and the interior continents that took realms give up what the seam strip
/// holds.  Wherever pixels are removed, a region left without a pixel is
/// dropped, then a province without a region, then a realm without a
/// province.
///
/// At the end every cell of the map is tidied: whatever is vacant beneath
/// a continent is dropped, every box is drawn anew around the pixels
/// beneath it, and a continent left without a realm leaves the map.  So
/// every continent of the map has a realm, every realm a province, every
/// province a region and every region a pixel, and every box is the
/// smallest around its pixels.
///
/// Fails, and changes nothing, where a continent that the merge reads is
/// missing.
pub fn merge_centered_continents(planet: &mut Planet, planet_settings: &PlanetSettings) -> (outcome:
    Result<(), WorldError>)
    requires
        old(planet)@.wf(),
    ensures
        match outcome {
            Ok(_) => {
                &&& centered_ready(old(planet)@, planet_settings.final_continent_grid_size)
                &&& final(planet)@ == centered_planet(
                    old(planet)@,
                    planet_settings.final_continent_grid_size,
                )
                &&& forall|x: int, y: int|
                    cell_sound(#[trigger] final(planet)@.edge_continents.at(x, y))
                &&& forall|x: int, y: int| cell_sound(#[trigger] final(planet)@.continents.at(x, y))
                &&& forall|px: (u16, u16)| #[trigger]
                    final(planet)@.pixel_count(px) <= old(planet)@.pixel_count(px)
            },
            Err(error) => {
                &&& error == WorldError::MissingEntity
                &&& !centered_ready(old(planet)@, planet_settings.final_continent_grid_size)
                &&& final(planet)@ == old(planet)@
            },
        },
{
    let grid = planet_settings.final_continent_grid_size;
    if !can_center(planet, &grid) {
        return Err(WorldError::MissingEntity);
    }
    let ghost before = planet@;
    let from_y: u16 = grid.height - 1;
    let from_x: u16 = grid.width - 1;

    assert(before.edge_continents.at(0, 0).is_some());
    assert(before.edge_continents.at(0, grid.height - 1).is_some());
    assert(before.edge_continents.at(grid.width - 1, 0).is_some());
    assert(before.edge_continents.at(grid.width - 2, 0).is_some());
    assert(before.edge_continents.at(0, grid.height - 2).is_some());
    let pixels_at_00 = gather_seam(&mut planet.edge_continents, &grid);
    let ghost seam_after = planet@.edge_continents;

    let ghost g0 = planet@.continents;
    gather_interior(&mut planet.continents, &grid);
    let ghost g3 = planet@.continents;
    proof {
        assert forall|x: int, y: int| scrubbed_cell(grid, x, y) implies (#[trigger] g3.at(
            x,
            y,
        )).is_some() by {
            assert(g0.at(x, y).is_some());
            assert(g3.at(x, y) == gathered_cell(g0, grid, x, y));
        }
    }

    let mut pixels_on_edge = get_all_pixels_on_edge(
        &planet.edge_continents,
        &pixels_at_00,
        from_x,
        from_y,
    );
    let ghost marks = pixels_on_edge@;
    assert(marks == seam_marks(before.edge_continents, grid));

    scrub_interior(&mut planet.continents, &grid, &mut pixels_on_edge);
    proof {
        let target = centered_interior(before, grid);
        assert forall|i: int, j: int| planet@.continents.has_cell(i, j) implies planet@.continents.at(
            i,
            j,
        ) == target.at(i, j) by {
            let b = g3.at(i, j);
            assert(g3.at(i, j) == gathered_cell(g0, grid, i, j));
            assert(target.at(i, j) == centered_interior_cell(g0, grid, marks, i, j));
        }
        lemma_grid_ext(planet@.continents, target);
    }
    let ghost gathered = planet@;
    assert(gathered == gathered_planet(before, grid));
    tidy(&mut planet.edge_continents);
    tidy(&mut planet.continents);
    proof {
        assert forall|px: (u16, u16)| #[trigger]
            planet@.pixel_count(px) <= before.pixel_count(px) by {
            assert(planet@.continents.pixel_count(px) <= gathered.continents.pixel_count(px));
            assert(planet@.edge_continents.pixel_count(px) <= seam_after.pixel_count(px));
            assert(gathered.continents.pixel_count(px) <= g0.pixel_count(px));
            assert(seam_after.pixel_count(px) <= before.edge_continents.pixel_count(px));
        }
    }
    Ok(())
}

} // verus!
