//! Shading moves no pixel.

use vstd::prelude::*;
use crate::continent::{
    cell_weight, column_weight, lemma_bounds_pointwise, province_pixel_bounds, province_weight,
    realm_pixel_bounds, realm_weight, region_pixel_bounds, region_weight, ContinentView,
    ProvinceView, RealmView,
};
use crate::grid::GridView;
use crate::point::Size16;
use crate::seamless_laws::grid_within;
use crate::shader::{
    shaded_cell, shaded_continent, shaded_province, shaded_realm, GradientTexture, Shade,
};
use crate::sums::lemma_sum_pointwise;

verus! {

pub proof fn lemma_shaded_province_pixels(
    province: ProvinceView,
    shade: Shade,
    canvas: Size16,
    px: (u16, u16),
)
    ensures
        shaded_province(province, shade).pixel_count(px) == province.pixel_count(px),
        province.within(canvas) ==> shaded_province(province, shade).within(canvas),
{
    let after = shaded_province(province, shade);
    assert forall|i: int| 0 <= i < after.regions.len() implies region_weight(px)(
        #[trigger] after.regions[i],
    ) == region_weight(px)(province.regions[i]) by {}
    lemma_sum_pointwise(after.regions, region_weight(px), province.regions, region_weight(px));
    if province.within(canvas) {
        assert forall|i: int| 0 <= i < after.regions.len() implies (
        #[trigger] after.regions[i]).within(canvas) by {
            assert(province.regions[i].within(canvas));
            assert(after.regions[i].pixels == province.regions[i].pixels);
        }
    }
}

pub proof fn lemma_shaded_realm_pixels(
    realm: RealmView,
    shade: Shade,
    canvas: Size16,
    px: (u16, u16),
)
    ensures
        shaded_realm(realm, shade).pixel_count(px) == realm.pixel_count(px),
        realm.within(canvas) ==> shaded_realm(realm, shade).within(canvas),
{
    let after = shaded_realm(realm, shade);
    assert forall|i: int| 0 <= i < after.provinces.len() implies province_weight(px)(
        #[trigger] after.provinces[i],
    ) == province_weight(px)(realm.provinces[i]) by {
        lemma_shaded_province_pixels(realm.provinces[i], shade, canvas, px);
    }
    lemma_sum_pointwise(after.provinces, province_weight(px), realm.provinces, province_weight(px));
    if realm.within(canvas) {
        assert forall|i: int| 0 <= i < after.provinces.len() implies (
        #[trigger] after.provinces[i]).within(canvas) by {
            assert(realm.provinces[i].within(canvas));
            lemma_shaded_province_pixels(realm.provinces[i], shade, canvas, px);
        }
    }
}

/// Shading moves no pixel: a shaded continent holds every pixel as often
/// as before, and where it did before.
pub proof fn lemma_shaded_continent_pixels(
    continent: ContinentView,
    texture: GradientTexture,
    canvas: Size16,
    px: (u16, u16),
)
    ensures
        shaded_continent(continent, texture).pixel_count(px) == continent.pixel_count(px),
        continent.within(canvas) ==> shaded_continent(continent, texture).within(canvas),
{
    let after = shaded_continent(continent, texture);
    let shade = crate::shader::shade_of(continent, texture);
    assert forall|i: int| 0 <= i < after.realms.len() implies realm_weight(px)(
        #[trigger] after.realms[i],
    ) == realm_weight(px)(continent.realms[i]) by {
        lemma_shaded_realm_pixels(continent.realms[i], shade, canvas, px);
    }
    lemma_sum_pointwise(after.realms, realm_weight(px), continent.realms, realm_weight(px));
    if continent.within(canvas) {
        assert forall|i: int| 0 <= i < after.realms.len() implies (
        #[trigger] after.realms[i]).within(canvas) by {
            assert(continent.realms[i].within(canvas));
            lemma_shaded_realm_pixels(continent.realms[i], shade, canvas, px);
        }
    }
}

/// A grid of which some continents were shaded and the others left alone
/// holds every pixel as often as before, where it did before, and holds
/// continents where it did before.
pub proof fn lemma_shaded_grid_pixels(
    grid: GridView,
    after: GridView,
    textures: Seq<GradientTexture>,
    canvas: Size16,
    px: (u16, u16),
)
    requires
        grid.wf(),
        after.wf(),
        after.size == grid.size,
        forall|x: int, y: int|
            grid.has_cell(x, y) ==> #[trigger] after.at(x, y) == grid.at(x, y) || after.at(x, y)
                == shaded_cell(grid.at(x, y), textures),
    ensures
        after.pixel_count(px) == grid.pixel_count(px),
        grid_within(grid, canvas) ==> grid_within(after, canvas),
        forall|x: int, y: int| (#[trigger] after.at(x, y)).is_some() == grid.at(x, y).is_some(),
{
    assert forall|x: int, y: int| grid.has_cell(x, y) implies cell_weight(px)(
        #[trigger] after.at(x, y),
    ) == cell_weight(px)(grid.at(x, y)) && (grid_within(grid, canvas) && after.at(x, y).is_some()
        ==> after.at(x, y).unwrap().within(canvas)) && after.at(x, y).is_some() == grid.at(
        x,
        y,
    ).is_some() by {
        match grid.at(x, y) {
            Some(continent) => {
                if continent.plate_movement_direction < textures.len() {
                    lemma_shaded_continent_pixels(
                        continent,
                        textures[continent.plate_movement_direction as int],
                        canvas,
                        px,
                    );
                }
            },
            None => {},
        }
    }
    assert forall|x: int| 0 <= x < after.columns.len() implies column_weight(px)(
        #[trigger] after.columns[x],
    ) == column_weight(px)(grid.columns[x]) by {
        assert forall|y: int| 0 <= y < after.columns[x].len() implies cell_weight(px)(
            #[trigger] after.columns[x][y],
        ) == cell_weight(px)(grid.columns[x][y]) by {
            assert(grid.has_cell(x, y));
            assert(after.at(x, y) == after.columns[x][y]);
            assert(grid.at(x, y) == grid.columns[x][y]);
        }
        lemma_sum_pointwise(after.columns[x], cell_weight(px), grid.columns[x], cell_weight(px));
    }
    lemma_sum_pointwise(after.columns, column_weight(px), grid.columns, column_weight(px));
    if grid_within(grid, canvas) {
        assert forall|x: int, y: int| (#[trigger] after.at(x, y)).is_some() implies after.at(
            x,
            y,
        ).unwrap().within(canvas) by {
            assert(grid.has_cell(x, y));
        }
    }
    assert forall|x: int, y: int| (#[trigger] after.at(x, y)).is_some() == grid.at(
        x,
        y,
    ).is_some() by {
        if grid.has_cell(x, y) {
        }
    }
}

pub proof fn lemma_shaded_province_bounds(province: ProvinceView, shade: Shade)
    ensures
        shaded_province(province, shade).pixel_bounds() == province.pixel_bounds(),
        province.bounds_exact() ==> shaded_province(province, shade).bounds_exact(),
{
    let after = shaded_province(province, shade);
    assert forall|i: int| 0 <= i < after.regions.len() implies region_pixel_bounds()(
        #[trigger] after.regions[i],
    ) == region_pixel_bounds()(province.regions[i]) by {}
    lemma_bounds_pointwise(
        after.regions,
        region_pixel_bounds(),
        province.regions,
        region_pixel_bounds(),
    );
    if province.bounds_exact() {
        assert forall|i: int| 0 <= i < after.regions.len() implies (
        #[trigger] after.regions[i]).bounds_exact() by {
            assert(province.regions[i].bounds_exact());
        }
    }
}

pub proof fn lemma_shaded_realm_bounds(realm: RealmView, shade: Shade)
    ensures
        shaded_realm(realm, shade).pixel_bounds() == realm.pixel_bounds(),
        realm.bounds_exact() ==> shaded_realm(realm, shade).bounds_exact(),
{
    let after = shaded_realm(realm, shade);
    assert forall|i: int| 0 <= i < after.provinces.len() implies province_pixel_bounds()(
        #[trigger] after.provinces[i],
    ) == province_pixel_bounds()(realm.provinces[i]) by {
        lemma_shaded_province_bounds(realm.provinces[i], shade);
    }
    lemma_bounds_pointwise(
        after.provinces,
        province_pixel_bounds(),
        realm.provinces,
        province_pixel_bounds(),
    );
    if realm.bounds_exact() {
        assert forall|i: int| 0 <= i < after.provinces.len() implies (
        #[trigger] after.provinces[i]).bounds_exact() by {
            assert(realm.provinces[i].bounds_exact());
            lemma_shaded_province_bounds(realm.provinces[i], shade);
        }
    }
}

/// Shading keeps the boxes right: where the box of a continent and of
/// everything beneath it is the smallest around the pixels beneath it, it
/// is so after the shading.
pub proof fn lemma_shaded_continent_bounds(continent: ContinentView, texture: GradientTexture)
    requires
        continent.bounds_exact(),
    ensures
        shaded_continent(continent, texture).bounds_exact(),
{
    let after = shaded_continent(continent, texture);
    let shade = crate::shader::shade_of(continent, texture);
    assert forall|i: int| 0 <= i < after.realms.len() implies realm_pixel_bounds()(
        #[trigger] after.realms[i],
    ) == realm_pixel_bounds()(continent.realms[i]) by {
        lemma_shaded_realm_bounds(continent.realms[i], shade);
    }
    lemma_bounds_pointwise(after.realms, realm_pixel_bounds(), continent.realms, realm_pixel_bounds());
    assert forall|i: int| 0 <= i < after.realms.len() implies (
    #[trigger] after.realms[i]).bounds_exact() by {
        assert(continent.realms[i].bounds_exact());
        lemma_shaded_realm_bounds(continent.realms[i], shade);
    }
}

} // verus!
