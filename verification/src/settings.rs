//! The sizes that govern a run.

use vstd::prelude::*;
use crate::point::Size16;

verus! {

/// How many continent cells of margin the generation canvas has beyond the
/// final image, on each axis.
pub const CONTINENT_MARGIN: u16 = 2;

/// The sizes that govern one run: the final image and its continent grid,
/// the oversized generation canvas, and the grid and the cell of each level.
#[derive(Clone, Copy, Debug, PartialEq, Eq, Structural)]
pub struct PlanetSettings {
    pub final_img_size: Size16,
    pub final_continent_grid_size: Size16,
    pub img_size: Size16,
    pub region_pref_width: u16,
    pub province_pref_width: u16,
    pub realm_pref_width: u16,
    pub continent_pref_width: u16,
    pub region_grid_size: Size16,
    pub province_grid_size: Size16,
    pub realm_grid_size: Size16,
    pub continent_grid_size: Size16,
    pub province_cell_size: Size16,
    pub realm_cell_size: Size16,
    pub continent_cell_size: Size16,
}

/// The sizes that the phases below the continents read: the generation
/// canvas, and the grids and cells laid over it.
#[derive(Clone, Copy, Debug, PartialEq, Eq, Structural)]
pub struct ContinentBuilderSettings {
    pub img_size: Size16,
    pub region_grid_size: Size16,
    pub province_grid_size: Size16,
    pub realm_grid_size: Size16,
    pub continent_grid_size: Size16,
    pub province_cell_size: Size16,
    pub realm_cell_size: Size16,
}

/// The grid that a level lays over a canvas for the preferred width
/// `pref_width`: the canvas is divided, on both axes, by the number of times
/// that `pref_width` goes into its width, so that the grid has about
/// `pref_width` columns.  There is none where that number, or `pref_width`
/// itself, is zero.
pub open spec fn grid_over(canvas: Size16, pref_width: u16) -> Option<Size16> {
    if pref_width == 0 || canvas.width / pref_width == 0 {
        None
    } else {
        let divider = canvas.width / pref_width;
        Some(Size16 { width: canvas.width / divider, height: canvas.height / divider })
    }
}

/// The cell of a grid laid over a canvas: the canvas divided by the grid,
/// axis by axis.  There is none where the grid has no column or no row, or
/// where a cell would have no extent.
pub open spec fn cell_of(canvas: Size16, grid: Size16) -> Option<Size16> {
    if grid.width == 0 || grid.height == 0 || canvas.width / grid.width == 0 || canvas.height
        / grid.height == 0 {
        None
    } else {
        Some(Size16 { width: canvas.width / grid.width, height: canvas.height / grid.height })
    }
}

/// The canvas grown by the margin of continent cells on both axes, where
/// that fits.
pub open spec fn with_margin(size: Size16, step: Size16) -> Option<Size16> {
    if size.width + step.width * CONTINENT_MARGIN > u16::MAX || size.height + step.height
        * CONTINENT_MARGIN > u16::MAX {
        None
    } else {
        Some(
            Size16 {
                width: (size.width + step.width * CONTINENT_MARGIN) as u16,
                height: (size.height + step.height * CONTINENT_MARGIN) as u16,
            },
        )
    }
}

fn compute_grid_over(canvas: &Size16, pref_width: u16) -> (grid: Option<Size16>)
    ensures
        grid == grid_over(*canvas, pref_width),
{
    if pref_width == 0 {
        return None;
    }
    let divider: u16 = canvas.width / pref_width;
    if divider == 0 {
        return None;
    }
    Some(Size16::new(canvas.width / divider, canvas.height / divider))
}

fn compute_cell_of(canvas: &Size16, grid: &Size16) -> (cell: Option<Size16>)
    ensures
        cell == cell_of(*canvas, *grid),
{
    if grid.width == 0 || grid.height == 0 {
        return None;
    }
    let width: u16 = canvas.width / grid.width;
    let height: u16 = canvas.height / grid.height;
    if width == 0 || height == 0 {
        return None;
    }
    Some(Size16::new(width, height))
}

fn compute_with_margin(size: &Size16, step: &Size16) -> (grown: Option<Size16>)
    ensures
        grown == with_margin(*size, *step),
{
    assert(CONTINENT_MARGIN == 2);
    let width: u32 = size.width as u32 + step.width as u32 * 2;
    let height: u32 = size.height as u32 + step.height as u32 * 2;
    if width > u16::MAX as u32 || height > u16::MAX as u32 {
        return None;
    }
    Some(Size16::new(width as u16, height as u16))
}

/// A grid of cells of the given size lies on the canvas: it has a cell,
/// its cells have an extent, and the last of them ends on the canvas.
pub open spec fn grid_on_canvas(grid: Size16, cell_size: Size16, canvas: Size16) -> bool {
    &&& grid.width > 0 && grid.height > 0
    &&& cell_size.width > 0 && cell_size.height > 0
    &&& grid.width * cell_size.width <= canvas.width
    &&& grid.height * cell_size.height <= canvas.height
}

/// Whether a grid of cells of the given size lies on the canvas.
pub fn lies_on_canvas(grid: &Size16, cell_size: &Size16, canvas: &Size16) -> (lies: bool)
    ensures
        lies == grid_on_canvas(*grid, *cell_size, *canvas),
{
    assert(grid.width * cell_size.width <= 65535 * 65535) by (nonlinear_arith)
        requires
            grid.width <= 65535,
            cell_size.width <= 65535,
    ;
    assert(grid.height * cell_size.height <= 65535 * 65535) by (nonlinear_arith)
        requires
            grid.height <= 65535,
            cell_size.height <= 65535,
    ;
    grid.width > 0 && grid.height > 0 && cell_size.width > 0 && cell_size.height > 0
        && grid.width as u64 * cell_size.width as u64 <= canvas.width as u64 && grid.height as u64
        * cell_size.height as u64 <= canvas.height as u64
}

/// A canvas divided by a grid gives cells with which the grid lies on the
/// canvas.
pub proof fn lemma_cell_of_lies_on_canvas(canvas: Size16, grid: Size16)
    requires
        cell_of(canvas, grid).is_some(),
    ensures
        grid_on_canvas(grid, cell_of(canvas, grid).unwrap(), canvas),
{
    let cell = cell_of(canvas, grid).unwrap();
    assert(grid.width * (canvas.width / grid.width) <= canvas.width) by (nonlinear_arith)
        requires
            grid.width > 0,
            canvas.width >= 0,
    ;
    assert(grid.height * (canvas.height / grid.height) <= canvas.height) by (nonlinear_arith)
        requires
            grid.height > 0,
            canvas.height >= 0,
    ;
}

impl ContinentBuilderSettings {
    /// The sizes are usable: the canvas and the region grid have an extent,
    /// and the province grid and the realm grid lie on the canvas.
    pub open spec fn wf(self) -> bool {
        &&& self.img_size.width > 0 && self.img_size.height > 0
        &&& self.region_grid_size.width > 0 && self.region_grid_size.height > 0
        &&& self.continent_grid_size.width > 0 && self.continent_grid_size.height > 0
        &&& grid_on_canvas(self.province_grid_size, self.province_cell_size, self.img_size)
        &&& grid_on_canvas(self.realm_grid_size, self.realm_cell_size, self.img_size)
    }

    /// Whether the sizes are usable.
    pub fn is_valid(&self) -> (valid: bool)
        ensures
            valid == self.wf(),
    {
        self.img_size.width > 0 && self.img_size.height > 0 && self.region_grid_size.width > 0
            && self.region_grid_size.height > 0 && self.continent_grid_size.width > 0
            && self.continent_grid_size.height > 0 && lies_on_canvas(
            &self.province_grid_size,
            &self.province_cell_size,
            &self.img_size,
        ) && lies_on_canvas(&self.realm_grid_size, &self.realm_cell_size, &self.img_size)
    }
}

impl PlanetSettings {
    /// The sizes below the continents, as the lower phases read them.
    pub open spec fn builder(self) -> ContinentBuilderSettings {
        ContinentBuilderSettings {
            img_size: self.img_size,
            region_grid_size: self.region_grid_size,
            province_grid_size: self.province_grid_size,
            realm_grid_size: self.realm_grid_size,
            continent_grid_size: self.continent_grid_size,
            province_cell_size: self.province_cell_size,
            realm_cell_size: self.realm_cell_size,
        }
    }

    /// The sizes fit together, whatever the region grid: the canvases have
    /// an extent, the grids of the provinces, the realms and the continents
    /// lie on the generation canvas, the generation canvas is the final
    /// image grown by the margin, and the continent grid is the final grid
    /// grown by the margin.
    pub open spec fn fits(self) -> bool {
        &&& self.img_size.width > 0 && self.img_size.height > 0
        &&& self.final_img_size.width > 0 && self.final_img_size.height > 0
        &&& self.final_continent_grid_size.width > 0 && self.final_continent_grid_size.height > 0
        &&& grid_on_canvas(self.province_grid_size, self.province_cell_size, self.img_size)
        &&& grid_on_canvas(self.realm_grid_size, self.realm_cell_size, self.img_size)
        &&& grid_on_canvas(self.continent_grid_size, self.continent_cell_size, self.img_size)
        &&& self.img_size.width == self.final_img_size.width + self.continent_cell_size.width
            * CONTINENT_MARGIN
        &&& self.img_size.height == self.final_img_size.height + self.continent_cell_size.height
            * CONTINENT_MARGIN
        &&& self.continent_grid_size.width == self.final_continent_grid_size.width
            + CONTINENT_MARGIN
        &&& self.continent_grid_size.height == self.final_continent_grid_size.height
            + CONTINENT_MARGIN
    }

    /// The region grid has a column and a row.
    pub open spec fn has_regions(self) -> bool {
        self.region_grid_size.width > 0 && self.region_grid_size.height > 0
    }

    /// The sizes are usable and fit together: every extent is positive, the
    /// grid of every level lies on the generation canvas, the generation
    /// canvas is the final image grown by the margin, and the continent
    /// grid is the final grid grown by the margin.
    pub open spec fn wf(self) -> bool {
        &&& self.builder().wf()
        &&& self.final_img_size.width > 0 && self.final_img_size.height > 0
        &&& self.final_continent_grid_size.width > 0 && self.final_continent_grid_size.height > 0
        &&& grid_on_canvas(self.continent_grid_size, self.continent_cell_size, self.img_size)
        &&& self.img_size.width == self.final_img_size.width + self.continent_cell_size.width
            * CONTINENT_MARGIN
        &&& self.img_size.height == self.final_img_size.height + self.continent_cell_size.height
            * CONTINENT_MARGIN
        &&& self.continent_grid_size.width == self.final_continent_grid_size.width
            + CONTINENT_MARGIN
        &&& self.continent_grid_size.height == self.final_continent_grid_size.height
            + CONTINENT_MARGIN
    }

    /// Whether the sizes are usable and fit together.
    pub fn is_valid(&self) -> (valid: bool)
        ensures
            valid == self.wf(),
    {
        let builder = ContinentBuilderSettings {
            img_size: self.img_size,
            region_grid_size: self.region_grid_size,
            province_grid_size: self.province_grid_size,
            realm_grid_size: self.realm_grid_size,
            continent_grid_size: self.continent_grid_size,
            province_cell_size: self.province_cell_size,
            realm_cell_size: self.realm_cell_size,
        };
        assert(CONTINENT_MARGIN == 2);
        builder.is_valid() && self.final_img_size.width > 0 && self.final_img_size.height > 0
            && self.final_continent_grid_size.width > 0 && self.final_continent_grid_size.height
            > 0 && lies_on_canvas(
            &self.continent_grid_size,
            &self.continent_cell_size,
            &self.img_size,
        ) && self.img_size.width as u32 == self.final_img_size.width as u32
            + self.continent_cell_size.width as u32 * 2
            && self.img_size.height as u32 == self.final_img_size.height as u32
            + self.continent_cell_size.height as u32 * 2
            && self.continent_grid_size.width as u32 == self.final_continent_grid_size.width as u32
            + 2 && self.continent_grid_size.height as u32
            == self.final_continent_grid_size.height as u32 + 2
    }
}

/// The settings for a final image of `width` by `height` pixels and the
/// preferred width of each level.  There are none where a size cannot be
/// derived: where a preferred width is zero or goes into the canvas no
/// time, so that there is nothing to divide by; where the grid of the
/// continents, the provinces or the realms has no row, so that its cell
/// has no height; and where a size does not fit sixteen bits.  The region
/// grid has no cell to derive, so a region grid without a row is no
/// hindrance here.
pub open spec fn planet_settings_of(
    width: u16,
    height: u16,
    region_pref_width: u16,
    province_pref_width: u16,
    realm_pref_width: u16,
    continent_pref_width: u16,
) -> Option<PlanetSettings> {
    let final_img_size = Size16 { width, height };
    match grid_over(final_img_size, continent_pref_width) {
        None => None,
        Some(final_continent_grid_size) => match cell_of(
            final_img_size,
            final_continent_grid_size,
        ) {
            None => None,
            Some(continent_cell_size) => match (
                with_margin(final_img_size, continent_cell_size),
                with_margin(final_continent_grid_size, Size16 { width: 1, height: 1 }),
            ) {
                (Some(img_size), Some(continent_grid_size)) => match (
                    grid_over(img_size, region_pref_width),
                    grid_over(img_size, province_pref_width),
                    grid_over(img_size, realm_pref_width),
                ) {
                    (
                        Some(region_grid_size),
                        Some(province_grid_size),
                        Some(realm_grid_size),
                    ) => match (
                        cell_of(img_size, province_grid_size),
                        cell_of(img_size, realm_grid_size),
                    ) {
                        (Some(province_cell_size), Some(realm_cell_size)) => Some(
                            PlanetSettings {
                                final_img_size,
                                final_continent_grid_size,
                                img_size,
                                region_pref_width,
                                province_pref_width,
                                realm_pref_width,
                                continent_pref_width,
                                region_grid_size,
                                province_grid_size,
                                realm_grid_size,
                                continent_grid_size,
                                province_cell_size,
                                realm_cell_size,
                                continent_cell_size,
                            },
                        ),
                        _ => None,
                    },
                    _ => None,
                },
                _ => None,
            },
        },
    }
}

/// Derives the settings of a run from the final image's size and the
/// preferred width of each level.  Returns nothing where a size cannot be
/// derived, as [`planet_settings_of`] says.  The settings that are returned
/// fit together; they are usable exactly where the region grid has a row,
/// which it lacks where the generation canvas is lower than the number of
/// times that the preferred width of the regions goes into its width.
/// [`PlanetSettings::is_valid`] tells.
pub fn create_planet_settings(
    width: u16,
    height: u16,
    region_pref_width: u16,
    province_pref_width: u16,
    realm_pref_width: u16,
    continent_pref_width: u16,
) -> (settings: Option<PlanetSettings>)
    ensures
        settings == planet_settings_of(
            width,
            height,
            region_pref_width,
            province_pref_width,
            realm_pref_width,
            continent_pref_width,
        ),
        settings matches Some(s) ==> s.fits() && (s.wf() <==> s.has_regions()),
{
    let final_img_size = Size16::new(width, height);
    let final_continent_grid_size = match compute_grid_over(&final_img_size, continent_pref_width) {
        Some(grid) => grid,
        None => { return None; },
    };
    let continent_cell_size = match compute_cell_of(&final_img_size, &final_continent_grid_size) {
        Some(cell) => cell,
        None => { return None; },
    };
    let img_size = match compute_with_margin(&final_img_size, &continent_cell_size) {
        Some(size) => size,
        None => { return None; },
    };
    let continent_grid_size = match compute_with_margin(
        &final_continent_grid_size,
        &Size16::new(1, 1),
    ) {
        Some(size) => size,
        None => { return None; },
    };
    let region_grid_size = match compute_grid_over(&img_size, region_pref_width) {
        Some(grid) => grid,
        None => { return None; },
    };
    let province_grid_size = match compute_grid_over(&img_size, province_pref_width) {
        Some(grid) => grid,
        None => { return None; },
    };
    let realm_grid_size = match compute_grid_over(&img_size, realm_pref_width) {
        Some(grid) => grid,
        None => { return None; },
    };
    let province_cell_size = match compute_cell_of(&img_size, &province_grid_size) {
        Some(cell) => cell,
        None => { return None; },
    };
    let realm_cell_size = match compute_cell_of(&img_size, &realm_grid_size) {
        Some(cell) => cell,
        None => { return None; },
    };
    proof {
        lemma_cell_of_lies_on_canvas(img_size, province_grid_size);
        lemma_cell_of_lies_on_canvas(img_size, realm_grid_size);
        lemma_cell_of_lies_on_canvas(final_img_size, final_continent_grid_size);
        assert(CONTINENT_MARGIN == 2);
        assert((final_continent_grid_size.width + 2) * continent_cell_size.width
            == final_continent_grid_size.width * continent_cell_size.width + 2
            * continent_cell_size.width) by (nonlinear_arith);
        assert((final_continent_grid_size.height + 2) * continent_cell_size.height
            == final_continent_grid_size.height * continent_cell_size.height + 2
            * continent_cell_size.height) by (nonlinear_arith);
    }
    Some(
        PlanetSettings {
            final_img_size,
            final_continent_grid_size,
            img_size,
            region_pref_width,
            province_pref_width,
            realm_pref_width,
            continent_pref_width,
            region_grid_size,
            province_grid_size,
            realm_grid_size,
            continent_grid_size,
            province_cell_size,
            realm_cell_size,
            continent_cell_size,
        },
    )
}

/// The sizes below the continents for a generation canvas of `img_size`
/// under a continent grid of `continent_grid_size`, or nothing where a grid
/// or a cell would have no extent.
pub open spec fn builder_settings_of(
    img_size: Size16,
    continent_grid_size: Size16,
    region_pref_width: u16,
    province_pref_width: u16,
    realm_pref_width: u16,
) -> Option<ContinentBuilderSettings> {
    match (
        grid_over(img_size, region_pref_width),
        grid_over(img_size, province_pref_width),
        grid_over(img_size, realm_pref_width),
    ) {
        (Some(region_grid_size), Some(province_grid_size), Some(realm_grid_size)) => match (
            cell_of(img_size, province_grid_size),
            cell_of(img_size, realm_grid_size),
        ) {
            (Some(province_cell_size), Some(realm_cell_size)) => Some(
                ContinentBuilderSettings {
                    img_size,
                    region_grid_size,
                    province_grid_size,
                    realm_grid_size,
                    continent_grid_size,
                    province_cell_size,
                    realm_cell_size,
                },
            ),
            _ => None,
        },
        _ => None,
    }
}

/// Derives the sizes below the continents from the final image, its
/// continent grid and cell, and the preferred width of each level: the
/// generation canvas and the continent grid are the final ones grown by the
/// margin.
pub fn builder_settings(
    planet_settings: &PlanetSettings,
    region_pref_width: u16,
    province_pref_width: u16,
    realm_pref_width: u16,
) -> (settings: Option<ContinentBuilderSettings>)
    ensures
        settings == match (
            with_margin(planet_settings.final_img_size, planet_settings.continent_cell_size),
            with_margin(
                planet_settings.final_continent_grid_size,
                Size16 { width: 1, height: 1 },
            ),
        ) {
            (Some(img_size), Some(continent_grid_size)) => builder_settings_of(
                img_size,
                continent_grid_size,
                region_pref_width,
                province_pref_width,
                realm_pref_width,
            ),
            _ => None,
        },
{
    let img_size = match compute_with_margin(
        &planet_settings.final_img_size,
        &planet_settings.continent_cell_size,
    ) {
        Some(size) => size,
        None => { return None; },
    };
    let continent_grid_size = match compute_with_margin(
        &planet_settings.final_continent_grid_size,
        &Size16::new(1, 1),
    ) {
        Some(size) => size,
        None => { return None; },
    };
    let region_grid_size = match compute_grid_over(&img_size, region_pref_width) {
        Some(grid) => grid,
        None => { return None; },
    };
    let province_grid_size = match compute_grid_over(&img_size, province_pref_width) {
        Some(grid) => grid,
        None => { return None; },
    };
    let realm_grid_size = match compute_grid_over(&img_size, realm_pref_width) {
        Some(grid) => grid,
        None => { return None; },
    };
    let province_cell_size = match compute_cell_of(&img_size, &province_grid_size) {
        Some(cell) => cell,
        None => { return None; },
    };
    let realm_cell_size = match compute_cell_of(&img_size, &realm_grid_size) {
        Some(cell) => cell,
        None => { return None; },
    };
    Some(
        ContinentBuilderSettings {
            img_size,
            region_grid_size,
            province_grid_size,
            realm_grid_size,
            continent_grid_size,
            province_cell_size,
            realm_cell_size,
        },
    )
}

} // verus!
