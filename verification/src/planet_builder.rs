//! The build of a planet from the sites up.

use vstd::prelude::*;
use rand::rngs::StdRng;
use crate::continent::{
    cell_weight, column_weight, province_weight, provinces_pixel_count, provinces_view,
    realm_weight, realms_pixel_count, realms_view, region_weight, regions_pixel_count,
    regions_view, ContinentView, Province, ProvinceView, Realm, RealmView, Region, RegionView,
};
use crate::error::WorldError;
use crate::grid::{lemma_grid_ext, ContinentGrid, GridView, Planet, PlanetView};
use crate::hierarchy::{
    adopt_provinces, adopt_regions, assign_provinces_to_realms, assign_realms_to_continents,
    adopt_realms, assign_regions_to_provinces, grid_complete, grid_table, province_keys,
    realm_keys, table_of,
};
use crate::hierarchy_laws::{
    lemma_adopt_provinces_pixels, lemma_adopt_provinces_within, lemma_adopt_realms_pixels,
    lemma_adopt_realms_within, lemma_adopt_regions_pixels, lemma_adopt_regions_within,
    lemma_each_province_in_one_realm, lemma_each_region_in_one_province,
};
use crate::point::{Bounds, Point16, Size16};
use crate::seam::{
    folded_interior, folded_seam, folded_size, interior_cell, merge_continents, seam_cell,
};
use crate::seam_laws::lemma_fold_lays_out;
use crate::seamless::{
    cell_exact, in_interior, margin_shift, move_continents_pixels_towards_edge, moved_interior,
    moved_seam, on_seam,
};
use crate::seamless_laws::{grid_within, laid_out, lemma_move_keeps_pixels_apart};
use crate::settings::{ContinentBuilderSettings, PlanetSettings, CONTINENT_MARGIN};
use crate::shader::{
    assign_continent_gradient_to_pixels, planet_shadeable, planet_textured, shaded_interior,
    shaded_seam, shading_error, textures_wf, GradientTexture,
};
use crate::shader_laws::lemma_shaded_grid_pixels;
use crate::sites::{
    build_continents_with_site, fresh_continent, PLATE_DIRECTIONS, build_provinces_and_generate_sites,
    build_realms_and_generate_sites, generate_scattered_sites, one_per_cell, region_site_count,
    well_scattered,
};
use crate::sums::lemma_sum_zero;
use crate::voronoi_builder::{
    build_regions_and_assign_sites, build_voronoi_and_apply_site_pixels_and_corners,
    canvas_center, lemma_rasterized_fits, rasterized, region_sites, voronoi_diagram,
};

verus! {

/// The regions keep their pixels on the canvas, and no two places hold
/// one pixel.
pub open spec fn regions_apart(regions: Seq<RegionView>, canvas: Size16) -> bool {
    &&& forall|i: int| 0 <= i < regions.len() ==> (#[trigger] regions[i]).within(canvas)
    &&& forall|px: (u16, u16)| #[trigger] regions_pixel_count(regions, px) <= 1
}

pub open spec fn provinces_apart(provinces: Seq<ProvinceView>, canvas: Size16) -> bool {
    &&& forall|i: int| 0 <= i < provinces.len() ==> (#[trigger] provinces[i]).within(canvas)
    &&& forall|px: (u16, u16)| #[trigger] provinces_pixel_count(provinces, px) <= 1
}

pub open spec fn realms_apart(realms: Seq<RealmView>, canvas: Size16) -> bool {
    &&& forall|i: int| 0 <= i < realms.len() ==> (#[trigger] realms[i]).within(canvas)
    &&& forall|px: (u16, u16)| #[trigger] realms_pixel_count(realms, px) <= 1
}

/// The continents of the grid keep their pixels on the canvas, and no two
/// places hold one pixel.
pub open spec fn grid_apart(grid: GridView, canvas: Size16) -> bool {
    &&& grid_within(grid, canvas)
    &&& forall|px: (u16, u16)| #[trigger] grid.pixel_count(px) <= 1
}

/// The map has the size of the final grid and is laid out on it, its
/// continents keep their pixels on the canvas, and no two places of the
/// whole map hold one pixel.
pub open spec fn planet_apart(planet: PlanetView, final_grid: Size16, canvas: Size16) -> bool {
    &&& planet.wf()
    &&& planet.continents.size == final_grid
    &&& planet.edge_continents.size == final_grid
    &&& laid_out(planet, final_grid)
    &&& grid_within(planet.continents, canvas)
    &&& grid_within(planet.edge_continents, canvas)
    &&& forall|px: (u16, u16)| #[trigger] planet.pixel_count(px) <= 1
}

/// A region without pixels around each of the sites, in their order: what
/// the regions are before the canvas is scanned.
pub open spec fn unscanned(sites: Seq<Point16>) -> Seq<RegionView> {
    Seq::new(
        sites.len(),
        |i: int|
            RegionView {
                site_point: sites[i],
                top_right: Bounds::empty().top_right,
                bottom_left: Bounds::empty().bottom_left,
                grey_value: 0,
                pixels: Seq::empty(),
            },
    )
}

/// The province as it was drawn: at its cell and site, with no region and
/// a box that encloses nothing.
pub open spec fn unpeopled_province(province: ProvinceView) -> ProvinceView {
    ProvinceView {
        grid_coord: province.grid_coord,
        site_point: province.site_point,
        top_right: Bounds::empty().top_right,
        bottom_left: Bounds::empty().bottom_left,
        average_grey_value: 0,
        regions: Seq::empty(),
    }
}

/// The provinces as they were drawn, before they were given any region.
pub open spec fn unpeopled_provinces(provinces: Seq<ProvinceView>) -> Seq<ProvinceView> {
    provinces.map_values(|province: ProvinceView| unpeopled_province(province))
}

/// The realm as it was drawn: at its cell and site, with no province and a
/// box that encloses nothing.
pub open spec fn unpeopled_realm(realm: RealmView) -> RealmView {
    RealmView {
        grid_coord: realm.grid_coord,
        site_point: realm.site_point,
        top_right: Bounds::empty().top_right,
        bottom_left: Bounds::empty().bottom_left,
        average_grey_value: 0,
        provinces: Seq::empty(),
    }
}

/// The realms as they were drawn, before they were given any province.
pub open spec fn unpeopled_realms(realms: Seq<RealmView>) -> Seq<RealmView> {
    realms.map_values(|realm: RealmView| unpeopled_realm(realm))
}

/// Scatters the sites of the regions and gives every scanned pixel of the
/// canvas to one of them.  There is a site for every two columns times
/// every two rows of the region grid.  The regions that come out stand
/// around those sites, in the order in which the sites were placed, and
/// hold what the scan of the canvas gives them under the Voronoi diagram
/// of the sites; so they keep their pixels on the canvas, no two of them
/// hold one pixel, and the box of each is the smallest around its pixels.
/// The sampler gives up for certain where the canvas has fewer pixels than
/// sites are asked for.
fn grow_regions(rng: &mut StdRng, planet_settings: &PlanetSettings) -> (outcome: Result<
    Vec<Region>,
    WorldError,
>)
    ensures
        outcome matches Ok(regions) ==> {
            let sites = region_sites(regions_view(regions@));
            &&& regions.len() == (planet_settings.region_grid_size.width / 2) * (
            planet_settings.region_grid_size.height / 2)
            &&& well_scattered(sites, planet_settings.img_size)
            &&& voronoi_diagram(
                canvas_center(planet_settings.img_size),
                planet_settings.img_size,
                sites,
            ) matches Some(diagram)
            &&& regions_view(regions@) == rasterized(
                unscanned(sites),
                diagram,
                planet_settings.img_size,
            )
            &&& regions_apart(regions_view(regions@), planet_settings.img_size)
            &&& forall|i: int| 0 <= i < regions.len() ==> (#[trigger] regions[i])@.bounds_exact()
        },
        outcome matches Err(error) ==> error == WorldError::SamplingExhaustion || error
            == WorldError::DegenerateSites,
        (planet_settings.region_grid_size.width / 2) * (planet_settings.region_grid_size.height
            / 2) > planet_settings.img_size.width * planet_settings.img_size.height
            ==> outcome == Err::<Vec<Region>, WorldError>(WorldError::SamplingExhaustion),
{
    let canvas = planet_settings.img_size;
    let count = region_site_count(&planet_settings.region_grid_size);
    let sites = match generate_scattered_sites(rng, &canvas, count) {
        Ok(sites) => sites,
        Err(error) => { return Err(error); },
    };
    let ghost placed = sites@;
    let mut regions = build_regions_and_assign_sites(sites);
    let ghost fresh = regions_view(regions@);
    proof {
        assert(fresh =~= unscanned(placed));
        assert(region_sites(fresh) =~= placed);
    }
    match build_voronoi_and_apply_site_pixels_and_corners(&canvas, &mut regions) {
        Ok(_) => {},
        Err(error) => { return Err(error); },
    }
    proof {
        let diagram = voronoi_diagram(canvas_center(canvas), canvas, placed).unwrap();
        let after = regions_view(regions@);
        assert(after == rasterized(fresh, diagram, canvas));
        assert(region_sites(after) =~= placed);
        assert forall|i: int| 0 <= i < after.len() implies (#[trigger] after[i]).within(canvas) by {
            assert(fresh[i].pixels.len() == 0);
            lemma_rasterized_fits(fresh, diagram, canvas, i);
        }
        assert forall|px: (u16, u16)| #[trigger] regions_pixel_count(after, px) <= 1 by {
            assert forall|i: int| 0 <= i < fresh.len() implies region_weight(px)(
                #[trigger] fresh[i],
            ) == 0 by {
                assert(fresh[i].pixels.len() == 0);
            }
            lemma_sum_zero(fresh, region_weight(px));
            if fresh.len() == 0 {
                assert(after.len() == 0);
            }
        }
    }
    Ok(regions)
}

/// Draws the provinces and gives them the regions.  A province is drawn
/// for every cell of the province grid, in the order of the walk over the
/// grid, with its site inside its cell; then every region goes to the
/// province with the nearest site.  The provinces that come out are those
/// that were drawn, after they adopted the regions; they keep their pixels
/// on the canvas, no two places beneath them hold one pixel, and every box
/// is the smallest around the pixels beneath it.  With one province drawn
/// for each cell, no region lacks a province.
fn grow_provinces(
    rng: &mut StdRng,
    regions: Vec<Region>,
    settings: &ContinentBuilderSettings,
) -> (outcome: Result<Vec<Province>, WorldError>)
    requires
        settings.wf(),
        regions_apart(regions_view(regions@), settings.img_size),
        forall|i: int| 0 <= i < regions.len() ==> (#[trigger] regions[i])@.bounds_exact(),
    ensures
        outcome matches Ok(provinces) && {
            let after = provinces_view(provinces@);
            &&& one_per_cell(
                province_keys(after),
                settings.province_grid_size,
                settings.province_cell_size,
            )
            &&& after == adopt_regions(
                unpeopled_provinces(after),
                regions_view(regions@),
                table_of(province_keys(after), settings.province_grid_size),
                settings.province_grid_size,
                settings.province_cell_size,
            )
            &&& provinces_apart(after, settings.img_size)
            &&& forall|i: int|
                0 <= i < provinces.len() ==> (#[trigger] provinces[i])@.bounds_exact()
        },
{
    let canvas = settings.img_size;
    let mut provinces = build_provinces_and_generate_sites(rng, settings);
    let ghost fresh = provinces_view(provinces@);
    let ghost children = regions_view(regions@);
    match assign_regions_to_provinces(regions, &mut provinces, settings) {
        Ok(_) => {},
        Err(error) => { return Err(error); },
    }
    proof {
        let after = provinces_view(provinces@);
        lemma_each_region_in_one_province(
            fresh,
            children,
            settings.province_grid_size,
            settings.province_cell_size,
        );
        assert(province_keys(after) =~= province_keys(fresh));
        assert(unpeopled_provinces(after) =~= fresh);
        assert forall|i: int| 0 <= i < fresh.len() implies (#[trigger] fresh[i]).bounds_exact() by {
            assert(fresh[i] == unpeopled_province(after[i]));
        }
        assert forall|i: int| 0 <= i < children.len() implies (#[trigger] children[i]).bounds_exact() by {
            assert(children[i] == regions[i]@);
        }
        crate::hierarchy_laws::lemma_adopt_regions_bounds(
            fresh,
            children,
            settings.province_grid_size,
            settings.province_cell_size,
        );
        assert forall|i: int| 0 <= i < provinces.len() implies (#[trigger] provinces[i])@.bounds_exact() by {
            assert(after[i] == provinces[i]@);
        }
        assert forall|i: int| 0 <= i < fresh.len() implies (#[trigger] fresh[i]).within(canvas) by {
            assert(fresh[i].regions.len() == 0);
        }
        lemma_adopt_regions_within(
            fresh,
            children,
            settings.province_grid_size,
            settings.province_cell_size,
            canvas,
        );
        assert forall|px: (u16, u16)| #[trigger] provinces_pixel_count(after, px) <= 1 by {
            assert forall|i: int| 0 <= i < fresh.len() implies province_weight(px)(
                #[trigger] fresh[i],
            ) == 0 by {
                assert(fresh[i].regions.len() == 0);
            }
            lemma_sum_zero(fresh, province_weight(px));
            lemma_adopt_regions_pixels(
                fresh,
                children,
                settings.province_grid_size,
                settings.province_cell_size,
                px,
            );
            assert(regions_pixel_count(children, px) <= 1);
        }
    }
    Ok(provinces)
}

/// Draws the realms and gives them the provinces.  A realm is drawn for
/// every cell of the realm grid, in the order of the walk over the grid,
/// with its site inside its cell; then every province goes to the realm
/// with the nearest site.  The realms that come out are those that were
/// drawn, after they adopted the provinces; they keep their pixels on the
/// canvas, no two places beneath them hold one pixel, and every box is the
/// smallest around the pixels beneath it.  With one realm drawn for each
/// cell, no province lacks a realm.
fn grow_realms(
    rng: &mut StdRng,
    provinces: Vec<Province>,
    settings: &ContinentBuilderSettings,
) -> (outcome: Result<Vec<Realm>, WorldError>)
    requires
        settings.wf(),
        provinces_apart(provinces_view(provinces@), settings.img_size),
        forall|i: int| 0 <= i < provinces.len() ==> (#[trigger] provinces[i])@.bounds_exact(),
    ensures
        outcome matches Ok(realms) && {
            let after = realms_view(realms@);
            &&& one_per_cell(realm_keys(after), settings.realm_grid_size, settings.realm_cell_size)
            &&& after == adopt_provinces(
                unpeopled_realms(after),
                provinces_view(provinces@),
                table_of(realm_keys(after), settings.realm_grid_size),
                settings.realm_grid_size,
                settings.realm_cell_size,
            )
            &&& realms_apart(after, settings.img_size)
            &&& forall|i: int| 0 <= i < realms.len() ==> (#[trigger] realms[i])@.bounds_exact()
        },
{
    let canvas = settings.img_size;
    let mut realms = build_realms_and_generate_sites(rng, settings);
    let ghost fresh = realms_view(realms@);
    let ghost children = provinces_view(provinces@);
    match assign_provinces_to_realms(provinces, &mut realms, settings) {
        Ok(_) => {},
        Err(error) => { return Err(error); },
    }
    proof {
        let after = realms_view(realms@);
        lemma_each_province_in_one_realm(
            fresh,
            children,
            settings.realm_grid_size,
            settings.realm_cell_size,
        );
        assert(realm_keys(after) =~= realm_keys(fresh));
        assert(unpeopled_realms(after) =~= fresh);
        assert forall|i: int| 0 <= i < fresh.len() implies (#[trigger] fresh[i]).bounds_exact() by {
            assert(fresh[i] == unpeopled_realm(after[i]));
        }
        assert forall|i: int| 0 <= i < children.len() implies (#[trigger] children[i]).bounds_exact() by {
            assert(children[i] == provinces[i]@);
        }
        crate::hierarchy_laws::lemma_adopt_provinces_bounds(
            fresh,
            children,
            settings.realm_grid_size,
            settings.realm_cell_size,
        );
        assert forall|i: int| 0 <= i < realms.len() implies (#[trigger] realms[i])@.bounds_exact() by {
            assert(after[i] == realms[i]@);
        }
        assert forall|i: int| 0 <= i < fresh.len() implies (#[trigger] fresh[i]).within(canvas) by {
            assert(fresh[i].provinces.len() == 0);
        }
        lemma_adopt_provinces_within(
            fresh,
            children,
            settings.realm_grid_size,
            settings.realm_cell_size,
            canvas,
        );
        assert forall|px: (u16, u16)| #[trigger] realms_pixel_count(after, px) <= 1 by {
            assert forall|i: int| 0 <= i < fresh.len() implies realm_weight(px)(
                #[trigger] fresh[i],
            ) == 0 by {
                assert(fresh[i].provinces.len() == 0);
            }
            lemma_sum_zero(fresh, realm_weight(px));
            lemma_adopt_provinces_pixels(
                fresh,
                children,
                settings.realm_grid_size,
                settings.realm_cell_size,
                px,
            );
            assert(provinces_pixel_count(children, px) <= 1);
        }
    }
    Ok(realms)
}

/// The continent as it was drawn: at its cell and site, with its plate
/// direction and elevation, with no realm and a box that encloses nothing.
pub open spec fn unpeopled_continent(continent: ContinentView) -> ContinentView {
    ContinentView {
        realms: Seq::empty(),
        top_right: Bounds::empty().top_right,
        bottom_left: Bounds::empty().bottom_left,
        ..continent
    }
}

/// The grid of continents as it was drawn, before any realm was given.
pub open spec fn unpeopled_grid(grid: GridView) -> GridView {
    GridView {
        size: grid.size,
        columns: Seq::new(
            grid.size.width as nat,
            |x: int|
                Seq::new(
                    grid.size.height as nat,
                    |y: int|
                        match grid.at(x, y) {
                            Some(continent) => Some(unpeopled_continent(continent)),
                            None => None,
                        },
                ),
        ),
    }
}

/// Draws the continents and gives them the realms: a continent is drawn
/// for every cell of the continent grid, with its site inside its cell and
/// with a plate direction and an elevation within their ranges; then every
/// realm goes to the continent with the nearest site.  The grid that comes
/// out is the one that was drawn, after it adopted the realms; its
/// continents keep their pixels on the canvas, no two places hold one
/// pixel, and every box is the smallest around the pixels beneath it.
fn grow_continents(
    rng: &mut StdRng,
    realms: Vec<Realm>,
    planet_settings: &PlanetSettings,
) -> (outcome: Result<ContinentGrid, WorldError>)
    requires
        planet_settings.wf(),
        realms_apart(realms_view(realms@), planet_settings.img_size),
        forall|i: int| 0 <= i < realms.len() ==> (#[trigger] realms[i])@.bounds_exact(),
    ensures
        outcome matches Ok(continents) && {
            let drawn = unpeopled_grid(continents@);
            &&& continents@.wf()
            &&& continents@.size == planet_settings.continent_grid_size
            &&& grid_complete(continents@)
            &&& forall|x: int, y: int|
                drawn.has_cell(x, y) ==> fresh_continent(
                    (#[trigger] drawn.at(x, y)).unwrap(),
                    x,
                    y,
                    planet_settings.continent_cell_size,
                )
            &&& continents@ == adopt_realms(
                drawn,
                realms_view(realms@),
                grid_table(drawn),
                planet_settings.continent_cell_size,
            )
            &&& grid_apart(continents@, planet_settings.img_size)
            &&& forall|x: int, y: int| cell_exact(#[trigger] continents@.at(x, y))
        },
{
    let canvas = planet_settings.img_size;
    let mut continents = build_continents_with_site(rng, planet_settings);
    let ghost fresh = continents@;
    let ghost children = realms_view(realms@);
    match assign_realms_to_continents(realms, &mut continents, planet_settings) {
        Ok(_) => {},
        Err(error) => { return Err(error); },
    }
    proof {
        assert forall|x: int, y: int| fresh.has_cell(x, y) implies (#[trigger] fresh.at(
            x,
            y,
        )).unwrap().within(canvas) by {
            assert(fresh.at(x, y).unwrap().realms.len() == 0);
        }
        lemma_adopt_realms_within(fresh, children, planet_settings.continent_cell_size, canvas);
        crate::hierarchy_laws::lemma_each_realm_in_one_continent(
            fresh,
            children,
            planet_settings.continent_cell_size,
        );
        assert forall|x: int, y: int| (#[trigger] continents@.at(x, y)).is_some() implies continents@.at(
            x,
            y,
        ).unwrap().within(canvas) by {
            assert(continents@.has_cell(x, y));
        }
        assert forall|px: (u16, u16)| #[trigger] continents@.pixel_count(px) <= 1 by {
            assert forall|x: int| 0 <= x < fresh.columns.len() implies column_weight(px)(
                #[trigger] fresh.columns[x],
            ) == 0 by {
                assert forall|y: int| 0 <= y < fresh.columns[x].len() implies cell_weight(px)(
                    #[trigger] fresh.columns[x][y],
                ) == 0 by {
                    assert(fresh.has_cell(x, y));
                    assert(fresh.at(x, y).unwrap().realms.len() == 0);
                }
                lemma_sum_zero(fresh.columns[x], cell_weight(px));
            }
            lemma_sum_zero(fresh.columns, column_weight(px));
            lemma_adopt_realms_pixels(fresh, children, planet_settings.continent_cell_size, px);
            assert(realms_pixel_count(children, px) <= 1);
        }
        assert forall|x: int, y: int| fresh.has_cell(x, y) implies (#[trigger] fresh.at(
            x,
            y,
        )).unwrap().bounds_exact() by {
            assert(fresh.at(x, y).unwrap().realms.len() == 0);
            assert(fresh_continent(fresh.at(x, y).unwrap(), x, y, planet_settings.continent_cell_size));
        }
        assert forall|i: int| 0 <= i < children.len() implies (#[trigger] children[i]).bounds_exact() by {
            assert(children[i] == realms[i]@);
        }
        crate::hierarchy_laws::lemma_adopt_realms_bounds(
            fresh,
            children,
            planet_settings.continent_cell_size,
        );
        assert forall|x: int, y: int| cell_exact(#[trigger] continents@.at(x, y)) by {
            if continents@.at(x, y).is_some() {
                assert(continents@.has_cell(x, y));
            }
        }
        let drawn = unpeopled_grid(continents@);
        assert forall|x: int, y: int| fresh.has_cell(x, y) implies #[trigger] drawn.at(x, y)
            == fresh.at(x, y) by {
            assert(continents@.has_cell(x, y));
            let was = fresh.at(x, y).unwrap();
            assert(fresh_continent(was, x, y, planet_settings.continent_cell_size));
            assert(was.bounds() == Bounds::empty());
            assert(drawn.at(x, y).unwrap().realms =~= was.realms);
        }
        lemma_grid_ext(drawn, fresh);
    }
    Ok(continents)
}

/// The map that the fold of `source` yields.
pub open spec fn folded_planet(source: GridView) -> PlanetView {
    PlanetView { edge_continents: folded_seam(source), continents: folded_interior(source) }
}

/// The map that the grid of continents `source` becomes: folded, shaded
/// from the textures, and moved into the space of the final image.
pub open spec fn seamed(
    source: GridView,
    planet_settings: PlanetSettings,
    textures: Seq<GradientTexture>,
) -> PlanetView {
    let final_grid = planet_settings.final_continent_grid_size;
    let by = margin_shift(planet_settings);
    let canvas = planet_settings.img_size;
    PlanetView {
        edge_continents: moved_seam(
            shaded_seam(folded_seam(source), final_grid, textures),
            final_grid,
            by,
            canvas,
        ),
        continents: moved_interior(
            shaded_interior(folded_interior(source), final_grid, textures),
            final_grid,
            by,
            canvas,
        ),
    }
}

/// The map is whole: every cell of the seam strip and every cell of the
/// interior of the final grid holds a continent, and every box on the map
/// is the smallest around the pixels beneath it.
pub open spec fn planet_whole(planet: PlanetView, final_grid: Size16) -> bool {
    &&& forall|x: int, y: int|
        on_seam(final_grid, x, y) ==> (#[trigger] planet.edge_continents.at(x, y)).is_some()
    &&& forall|x: int, y: int|
        in_interior(final_grid, x, y) ==> (#[trigger] planet.continents.at(x, y)).is_some()
    &&& forall|x: int, y: int| cell_exact(#[trigger] planet.edge_continents.at(x, y))
    &&& forall|x: int, y: int| cell_exact(#[trigger] planet.continents.at(x, y))
}

/// Every continent of the grid has one of the plate directions.
pub open spec fn directions_known(grid: GridView) -> bool {
    forall|x: int, y: int|
        grid.has_cell(x, y) ==> (#[trigger] grid.at(x, y)).unwrap().plate_movement_direction
            < PLATE_DIRECTIONS
}

/// Folds the margin away, shades the map and moves its pixels into the
/// space of the final image.  Succeeds exactly where the folded map has a
/// texture for every continent and every continent can be shaded from its
/// own; with a texture for each plate direction, none is missing.
fn seam_planet(
    continents: ContinentGrid,
    planet_settings: &PlanetSettings,
    gradient_images: &Vec<GradientTexture>,
) -> (outcome: Result<Planet, WorldError>)
    requires
        planet_settings.wf(),
        textures_wf(gradient_images@),
        continents@.wf(),
        continents@.size == planet_settings.continent_grid_size,
        grid_apart(continents@, planet_settings.img_size),
        grid_complete(continents@),
        directions_known(continents@),
    ensures
        match outcome {
            Ok(planet) => {
                &&& planet_textured(
                    folded_planet(continents@),
                    planet_settings.final_continent_grid_size,
                    gradient_images@,
                )
                &&& planet_shadeable(
                    folded_planet(continents@),
                    planet_settings.final_continent_grid_size,
                    gradient_images@,
                )
                &&& planet@ == seamed(continents@, *planet_settings, gradient_images@)
                &&& planet_apart(
                    planet@,
                    planet_settings.final_continent_grid_size,
                    planet_settings.img_size,
                )
                &&& planet_whole(planet@, planet_settings.final_continent_grid_size)
            },
            Err(error) => {
                &&& error == shading_error(
                    folded_planet(continents@),
                    planet_settings.final_continent_grid_size,
                    gradient_images@,
                )
                &&& !(planet_textured(
                    folded_planet(continents@),
                    planet_settings.final_continent_grid_size,
                    gradient_images@,
                ) && planet_shadeable(
                    folded_planet(continents@),
                    planet_settings.final_continent_grid_size,
                    gradient_images@,
                ))
                &&& error == WorldError::DegenerateTexture || gradient_images.len()
                    < PLATE_DIRECTIONS
            },
        },
{
    let canvas = planet_settings.img_size;
    let ghost final_grid = planet_settings.final_continent_grid_size;
    let mut continents = continents;
    let ghost source = continents@;
    proof {
        assert(CONTINENT_MARGIN == 2);
        assert forall|x: int, y: int|
            1 <= x < source.size.width && 1 <= y < source.size.height implies (#[trigger] source.at(
            x,
            y,
        )).is_some() by {
            assert(source.has_cell(x, y));
        }
    }
    let (seam, interior) = match merge_continents(&mut continents) {
        Ok(merged) => merged,
        Err(error) => { return Err(error); },
    };
    let mut planet = Planet { edge_continents: seam, continents: interior };
    let ghost folded = planet@;
    proof {
        assert(CONTINENT_MARGIN == 2);
        lemma_fold_lays_out(source, canvas);
        assert(folded_size(source.size) == final_grid);
        assert forall|px: (u16, u16)| #[trigger] folded.pixel_count(px) <= 1 by {
            assert(folded.edge_continents.pixel_count(px) + folded.continents.pixel_count(px)
                <= source.pixel_count(px));
            assert(source.pixel_count(px) <= 1);
        }
        assert(folded == folded_planet(source));
        assert forall|x: int, y: int| on_seam(final_grid, x, y) implies (
        #[trigger] folded.edge_continents.at(x, y)).is_some() && (gradient_images.len()
            >= PLATE_DIRECTIONS ==> crate::shader::cell_textured(
            folded.edge_continents.at(x, y),
            gradient_images@,
        )) by {
            assert(folded.edge_continents.has_cell(x, y));
            assert(folded.edge_continents.at(x, y) == seam_cell(source, x, y));
            assert(source.has_cell(2, 2) && source.has_cell(2, y + 2) && source.has_cell(x + 2, 2));
        }
        assert forall|x: int, y: int| in_interior(final_grid, x, y) implies (
        #[trigger] folded.continents.at(x, y)).is_some() && (gradient_images.len()
            >= PLATE_DIRECTIONS ==> crate::shader::cell_textured(
            folded.continents.at(x, y),
            gradient_images@,
        )) by {
            assert(folded.continents.has_cell(x, y));
            assert(folded.continents.at(x, y) == interior_cell(source, x, y));
            assert(source.has_cell(x + 2, y + 2));
        }
        assert(gradient_images.len() >= PLATE_DIRECTIONS ==> planet_textured(
            folded,
            final_grid,
            gradient_images@,
        ));
    }
    match assign_continent_gradient_to_pixels(&mut planet, planet_settings, gradient_images) {
        Ok(_) => {},
        Err(error) => { return Err(error); },
    }
    let ghost shaded = planet@;
    proof {
        assert(shaded.continents.wf() && shaded.edge_continents.wf());
        assert forall|x: int, y: int| folded.continents.has_cell(x, y) implies #[trigger] shaded.continents.at(
            x,
            y,
        ) == folded.continents.at(x, y) || shaded.continents.at(x, y)
            == crate::shader::shaded_cell(folded.continents.at(x, y), gradient_images@) by {}
        assert forall|x: int, y: int| folded.edge_continents.has_cell(x, y) implies #[trigger] shaded.edge_continents.at(
            x,
            y,
        ) == folded.edge_continents.at(x, y) || shaded.edge_continents.at(x, y)
            == crate::shader::shaded_cell(folded.edge_continents.at(x, y), gradient_images@) by {}
        lemma_shaded_grid_pixels(folded.continents, shaded.continents, gradient_images@, canvas, (0, 0));
        lemma_shaded_grid_pixels(
            folded.edge_continents,
            shaded.edge_continents,
            gradient_images@,
            canvas,
            (0, 0),
        );
        assert forall|px: (u16, u16)| #[trigger] shaded.pixel_count(px) <= 1 by {
            lemma_shaded_grid_pixels(
                folded.continents,
                shaded.continents,
                gradient_images@,
                canvas,
                px,
            );
            lemma_shaded_grid_pixels(
                folded.edge_continents,
                shaded.edge_continents,
                gradient_images@,
                canvas,
                px,
            );
            assert(folded.pixel_count(px) <= 1);
        }
        assert(laid_out(shaded, final_grid)) by {
            assert forall|x: int, y: int| !crate::seamless::in_interior(final_grid, x, y) implies (
            #[trigger] shaded.continents.at(x, y)).is_none() by {
                assert(folded.continents.at(x, y).is_none());
            }
            assert forall|x: int, y: int| !crate::seamless::on_seam(final_grid, x, y) implies (
            #[trigger] shaded.edge_continents.at(x, y)).is_none() by {
                assert(folded.edge_continents.at(x, y).is_none());
            }
        }
    }
    move_continents_pixels_towards_edge(&mut planet, planet_settings);
    proof {
        let by = margin_shift(*planet_settings);
        assert(by.width <= canvas.width && by.height <= canvas.height);
        lemma_move_keeps_pixels_apart(shaded, final_grid, by, canvas, (0, 0));
        assert forall|px: (u16, u16)| #[trigger] planet@.pixel_count(px) <= 1 by {
            lemma_move_keeps_pixels_apart(shaded, final_grid, by, canvas, px);
            assert forall|p: (u16, u16)| shaded.pixel_count(p) <= 1 by {
                assert(shaded.pixel_count(p) <= 1);
            }
        }
        assert forall|x: int, y: int| on_seam(final_grid, x, y) implies (
        #[trigger] planet@.edge_continents.at(x, y)).is_some() by {
            assert(folded.edge_continents.at(x, y).is_some());
            assert(shaded.edge_continents.has_cell(x, y));
            assert(shaded.edge_continents.at(x, y).is_some());
        }
        assert forall|x: int, y: int| in_interior(final_grid, x, y) implies (
        #[trigger] planet@.continents.at(x, y)).is_some() by {
            assert(folded.continents.at(x, y).is_some());
            assert(shaded.continents.has_cell(x, y));
            assert(shaded.continents.at(x, y).is_some());
        }
        assert forall|x: int, y: int| cell_exact(#[trigger] planet@.edge_continents.at(x, y)) by {
            if !on_seam(final_grid, x, y) {
                assert(planet@.edge_continents.at(x, y).is_none());
            }
        }
        assert forall|x: int, y: int| cell_exact(#[trigger] planet@.continents.at(x, y)) by {
            if !in_interior(final_grid, x, y) {
                assert(planet@.continents.at(x, y).is_none());
            }
        }
    }
    Ok(planet)
}

/// Builds a planet.  Sites for the regions are scattered over the
/// generation canvas, and the canvas is divided among the regions by the
/// Voronoi diagram of their sites.  Provinces, realms and continents are
/// drawn one for each cell of their grids, and each level is given, child
/// by child, to the nearest parent of the level above.  The generation
/// margin is folded into the seam strip, every continent is shaded from the
/// gradient texture of its plate direction, and all pixels are moved into
/// the space of the final image.
///
/// Whatever is drawn, the planet that comes out is laid out on the final
/// grid with a continent on every cell of the seam strip and of the
/// interior, keeps its pixels on the canvas, holds no pixel in two places,
/// and has every box the smallest around the pixels beneath it.  The build
/// fails where the sampler cannot place the sites, as it must where more
/// sites are asked for than the canvas has pixels; where the sites span no
/// diagram; where a texture is missing, which cannot be with one for each
/// plate direction; and where a continent cannot be shaded.  No grid lacks
/// a parent, for the parents are drawn one for each cell.
pub fn build_planet(
    rng: &mut StdRng,
    planet_settings: &PlanetSettings,
    gradient_images: &Vec<GradientTexture>,
) -> (outcome: Result<Planet, WorldError>)
    requires
        planet_settings.wf(),
        textures_wf(gradient_images@),
    ensures
        outcome matches Ok(planet) ==> planet_apart(
            planet@,
            planet_settings.final_continent_grid_size,
            planet_settings.img_size,
        ) && planet_whole(planet@, planet_settings.final_continent_grid_size),
        outcome matches Err(error) ==> error != WorldError::MissingEntity || gradient_images.len()
            < PLATE_DIRECTIONS,
        (planet_settings.region_grid_size.width / 2) * (planet_settings.region_grid_size.height
            / 2) > planet_settings.img_size.width * planet_settings.img_size.height
            ==> outcome == Err::<Planet, WorldError>(
            WorldError::SamplingExhaustion,
        ),
{
    let settings = ContinentBuilderSettings {
        img_size: planet_settings.img_size,
        region_grid_size: planet_settings.region_grid_size,
        province_grid_size: planet_settings.province_grid_size,
        realm_grid_size: planet_settings.realm_grid_size,
        continent_grid_size: planet_settings.continent_grid_size,
        province_cell_size: planet_settings.province_cell_size,
        realm_cell_size: planet_settings.realm_cell_size,
    };
    let regions = match grow_regions(rng, planet_settings) {
        Ok(regions) => regions,
        Err(error) => { return Err(error); },
    };
    let provinces = match grow_provinces(rng, regions, &settings) {
        Ok(provinces) => provinces,
        Err(error) => { return Err(error); },
    };
    let realms = match grow_realms(rng, provinces, &settings) {
        Ok(realms) => realms,
        Err(error) => { return Err(error); },
    };
    let continents = match grow_continents(rng, realms, planet_settings) {
        Ok(continents) => continents,
        Err(error) => { return Err(error); },
    };
    proof {
        let drawn = unpeopled_grid(continents@);
        assert forall|x: int, y: int| continents@.has_cell(x, y) implies (
        #[trigger] continents@.at(x, y)).unwrap().plate_movement_direction < PLATE_DIRECTIONS by {
            assert(drawn.has_cell(x, y));
            assert(fresh_continent(
                drawn.at(x, y).unwrap(),
                x,
                y,
                planet_settings.continent_cell_size,
            ));
        }
    }
    seam_planet(continents, planet_settings, gradient_images)
}

} // verus!
