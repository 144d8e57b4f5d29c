//! Drawings of the map and of its levels.

use vstd::prelude::*;
use rand::rngs::StdRng;
use crate::color::Color8;
use crate::continent::{
    provinces_view, realms_view, regions_view, Continent, ContinentView, Province, ProvinceView,
    Realm, RealmView, Region, RegionView,
};
use crate::grid::{ContinentGrid, GridView, Planet, PlanetView};
use crate::continent::{
    province_weight, provinces_pixel_count, realm_weight, realms_pixel_count, region_weight,
    regions_pixel_count,
};
use crate::point::Size16;
use crate::settings::{ContinentBuilderSettings, PlanetSettings};
use crate::sites::random_below;
use crate::sums::{is_pixel, lemma_sum_push, occurrences};

verus! {

/// An image under construction, column by column: the colour of pixel
/// `(x, y)` is `columns[x][y]`.
#[derive(Debug)]
pub struct Raster {
    pub size: Size16,
    pub columns: Vec<Vec<Color8>>,
}

impl View for Raster {
    type V = Seq<Seq<Color8>>;

    open spec fn view(&self) -> Seq<Seq<Color8>> {
        self.columns@.map_values(|column: Vec<Color8>| column@)
    }
}

/// The colour of a pixel that nothing was drawn on.
pub open spec fn black() -> Color8 {
    Color8 { r: 0, g: 0, b: 0 }
}

/// The grey of the given value, as a colour.
pub open spec fn grey_of(value: u8) -> Color8 {
    Color8 { r: value, g: value, b: value }
}

/// The image has a colour for each pixel of the given size.
pub open spec fn image_wf(image: Seq<Seq<Color8>>, size: Size16) -> bool {
    &&& image.len() == size.width
    &&& forall|x: int| 0 <= x < image.len() ==> (#[trigger] image[x]).len() == size.height
}

/// The image of the given size with nothing drawn on it.
pub open spec fn blank(size: Size16) -> Seq<Seq<Color8>> {
    Seq::new(size.width as nat, |x: int| Seq::new(size.height as nat, |y: int| black()))
}

/// The image with the pixel `px` in the given colour; a pixel off the image
/// is not drawn.
pub open spec fn dotted(
    image: Seq<Seq<Color8>>,
    px: (u16, u16),
    color: Color8,
) -> Seq<Seq<Color8>> {
    if px.0 < image.len() && px.1 < image[px.0 as int].len() {
        image.update(px.0 as int, image[px.0 as int].update(px.1 as int, color))
    } else {
        image
    }
}

/// The image with the pixels of the list drawn in the given colour, one
/// after the other.
pub open spec fn painted(image: Seq<Seq<Color8>>, pixels: Seq<(u16, u16)>, color: Color8) -> Seq<
    Seq<Color8>,
>
    decreases pixels.len(),
{
    if pixels.len() == 0 {
        image
    } else {
        dotted(painted(image, pixels.drop_last(), color), pixels.last(), color)
    }
}

/// How a walk over the map colours what it draws.
pub enum Ink {
    /// Every region in the grey of its own grey value.
    Grey,
    /// Everything in one colour.
    Plain(Color8),
}

/// The colour in which a region is drawn.
pub open spec fn ink_of(ink: Ink, region: RegionView) -> Color8 {
    match ink {
        Ink::Grey => grey_of(region.grey_value),
        Ink::Plain(color) => color,
    }
}

/// The image with the regions drawn on it, one after the other.
pub open spec fn drawn_regions(image: Seq<Seq<Color8>>, regions: Seq<RegionView>, ink: Ink) -> Seq<
    Seq<Color8>,
>
    decreases regions.len(),
{
    if regions.len() == 0 {
        image
    } else {
        painted(
            drawn_regions(image, regions.drop_last(), ink),
            regions.last().pixels,
            ink_of(ink, regions.last()),
        )
    }
}

pub open spec fn drawn_provinces(
    image: Seq<Seq<Color8>>,
    provinces: Seq<ProvinceView>,
    ink: Ink,
) -> Seq<Seq<Color8>>
    decreases provinces.len(),
{
    if provinces.len() == 0 {
        image
    } else {
        drawn_regions(
            drawn_provinces(image, provinces.drop_last(), ink),
            provinces.last().regions,
            ink,
        )
    }
}

pub open spec fn drawn_realms(image: Seq<Seq<Color8>>, realms: Seq<RealmView>, ink: Ink) -> Seq<
    Seq<Color8>,
>
    decreases realms.len(),
{
    if realms.len() == 0 {
        image
    } else {
        drawn_provinces(drawn_realms(image, realms.drop_last(), ink), realms.last().provinces, ink)
    }
}

/// The image with what a grid cell holds drawn on it.
pub open spec fn drawn_cell(image: Seq<Seq<Color8>>, cell: Option<ContinentView>, ink: Ink) -> Seq<
    Seq<Color8>,
> {
    match cell {
        Some(continent) => drawn_realms(image, continent.realms, ink),
        None => image,
    }
}

/// Drawing keeps the size of the image.
pub proof fn lemma_painted_wf(
    image: Seq<Seq<Color8>>,
    pixels: Seq<(u16, u16)>,
    color: Color8,
    size: Size16,
)
    requires
        image_wf(image, size),
    ensures
        image_wf(painted(image, pixels, color), size),
    decreases pixels.len(),
{
    if pixels.len() > 0 {
        lemma_painted_wf(image, pixels.drop_last(), color, size);
    }
}

pub proof fn lemma_drawn_regions_wf(
    image: Seq<Seq<Color8>>,
    regions: Seq<RegionView>,
    ink: Ink,
    size: Size16,
)
    requires
        image_wf(image, size),
    ensures
        image_wf(drawn_regions(image, regions, ink), size),
    decreases regions.len(),
{
    if regions.len() > 0 {
        lemma_drawn_regions_wf(image, regions.drop_last(), ink, size);
        lemma_painted_wf(
            drawn_regions(image, regions.drop_last(), ink),
            regions.last().pixels,
            ink_of(ink, regions.last()),
            size,
        );
    }
}

pub proof fn lemma_drawn_provinces_wf(
    image: Seq<Seq<Color8>>,
    provinces: Seq<ProvinceView>,
    ink: Ink,
    size: Size16,
)
    requires
        image_wf(image, size),
    ensures
        image_wf(drawn_provinces(image, provinces, ink), size),
    decreases provinces.len(),
{
    if provinces.len() > 0 {
        lemma_drawn_provinces_wf(image, provinces.drop_last(), ink, size);
        lemma_drawn_regions_wf(
            drawn_provinces(image, provinces.drop_last(), ink),
            provinces.last().regions,
            ink,
            size,
        );
    }
}

pub proof fn lemma_drawn_realms_wf(
    image: Seq<Seq<Color8>>,
    realms: Seq<RealmView>,
    ink: Ink,
    size: Size16,
)
    requires
        image_wf(image, size),
    ensures
        image_wf(drawn_realms(image, realms, ink), size),
    decreases realms.len(),
{
    if realms.len() > 0 {
        lemma_drawn_realms_wf(image, realms.drop_last(), ink, size);
        lemma_drawn_provinces_wf(
            drawn_realms(image, realms.drop_last(), ink),
            realms.last().provinces,
            ink,
            size,
        );
    }
}

impl Raster {
    /// An image of the given size with nothing drawn on it.
    pub fn new(size: Size16) -> (raster: Raster)
        ensures
            raster.size == size,
            raster@ == blank(size),
            image_wf(raster@, size),
    {
        let mut columns: Vec<Vec<Color8>> = Vec::new();
        let mut x: u16 = 0;
        while x < size.width
            invariant
                x <= size.width,
                columns.len() == x,
                forall|i: int|
                    0 <= i < x ==> (#[trigger] columns[i])@ == Seq::new(
                        size.height as nat,
                        |y: int| black(),
                    ),
            decreases size.width - x,
        {
            let mut column: Vec<Color8> = Vec::new();
            let mut y: u16 = 0;
            while y < size.height
                invariant
                    y <= size.height,
                    column.len() == y,
                    forall|j: int| 0 <= j < y ==> (#[trigger] column[j]) == black(),
                decreases size.height - y,
            {
                column.push(Color8 { r: 0, g: 0, b: 0 });
                y += 1;
            }
            assert(column@ =~= Seq::new(size.height as nat, |y: int| black()));
            columns.push(column);
            x += 1;
        }
        let raster = Raster { size, columns };
        assert(raster@ =~= blank(size));
        raster
    }

    /// The colour of pixel `(x, y)`, or nothing where the image has no
    /// such pixel.
    pub fn get_pixel(&self, x: u16, y: u16) -> (color: Option<Color8>)
        ensures
            color == if x < self@.len() && y < self@[x as int].len() {
                Some(self@[x as int][y as int])
            } else {
                None
            },
    {
        if (x as usize) < self.columns.len() {
            if (y as usize) < self.columns[x as usize].len() {
                return Some(self.columns[x as usize][y as usize]);
            }
        }
        None
    }

    /// Draws the pixels in the given colour, one after the other; a pixel
    /// off the image is not drawn.
    pub fn paint(&mut self, pixels: &Vec<(u16, u16)>, color: Color8)
        ensures
            final(self)@ == painted(old(self)@, pixels@, color),
            final(self).size == old(self).size,
    {
        let mut i: usize = 0;
        while i < pixels.len()
            invariant
                i <= pixels.len(),
                self.size == old(self).size,
                self@ == painted(old(self)@, pixels@.subrange(0, i as int), color),
            decreases pixels.len() - i,
        {
            let px = pixels[i];
            assert(pixels@.subrange(0, i + 1).drop_last() =~= pixels@.subrange(0, i as int));
            let ghost before = self@;
            if (px.0 as usize) < self.columns.len() {
                if (px.1 as usize) < self.columns[px.0 as usize].len() {
                    self.columns[px.0 as usize][px.1 as usize] = color;
                    assert(self@ =~= before.update(
                        px.0 as int,
                        before[px.0 as int].update(px.1 as int, color),
                    )) by {
                        assert forall|k: int| 0 <= k < self@.len() implies self@[k]
                            =~= before.update(
                            px.0 as int,
                            before[px.0 as int].update(px.1 as int, color),
                        )[k] by {}
                    }
                }
            }
            i += 1;
        }
        assert(pixels@.subrange(0, i as int) =~= pixels@);
    }
}

fn draw_regions(raster: &mut Raster, regions: &Vec<Region>, ink: &Ink)
    ensures
        final(raster)@ == drawn_regions(old(raster)@, regions_view(regions@), *ink),
        final(raster).size == old(raster).size,
{
    let ghost all = regions_view(regions@);
    let mut i: usize = 0;
    while i < regions.len()
        invariant
            i <= regions.len(),
            raster.size == old(raster).size,
            all == regions_view(regions@),
            raster@ == drawn_regions(old(raster)@, all.subrange(0, i as int), *ink),
        decreases regions.len() - i,
    {
        let color = match ink {
            Ink::Grey => {
                let value = regions[i].grey_value;
                Color8 { r: value, g: value, b: value }
            },
            Ink::Plain(color) => *color,
        };
        proof {
            assert(all.subrange(0, i + 1).drop_last() =~= all.subrange(0, i as int));
            assert(all.subrange(0, i + 1).last() == regions[i as int]@);
        }
        raster.paint(&regions[i].pixels, color);
        i += 1;
    }
    assert(all.subrange(0, i as int) =~= all);
}

fn draw_provinces(raster: &mut Raster, provinces: &Vec<Province>, ink: &Ink)
    ensures
        final(raster)@ == drawn_provinces(old(raster)@, provinces_view(provinces@), *ink),
        final(raster).size == old(raster).size,
{
    let ghost all = provinces_view(provinces@);
    let mut i: usize = 0;
    while i < provinces.len()
        invariant
            i <= provinces.len(),
            raster.size == old(raster).size,
            all == provinces_view(provinces@),
            raster@ == drawn_provinces(old(raster)@, all.subrange(0, i as int), *ink),
        decreases provinces.len() - i,
    {
        proof {
            assert(all.subrange(0, i + 1).drop_last() =~= all.subrange(0, i as int));
            assert(all.subrange(0, i + 1).last() == provinces[i as int]@);
        }
        draw_regions(raster, &provinces[i].regions, ink);
        i += 1;
    }
    assert(all.subrange(0, i as int) =~= all);
}

fn draw_realms(raster: &mut Raster, realms: &Vec<Realm>, ink: &Ink)
    ensures
        final(raster)@ == drawn_realms(old(raster)@, realms_view(realms@), *ink),
        final(raster).size == old(raster).size,
{
    let ghost all = realms_view(realms@);
    let mut i: usize = 0;
    while i < realms.len()
        invariant
            i <= realms.len(),
            raster.size == old(raster).size,
            all == realms_view(realms@),
            raster@ == drawn_realms(old(raster)@, all.subrange(0, i as int), *ink),
        decreases realms.len() - i,
    {
        proof {
            assert(all.subrange(0, i + 1).drop_last() =~= all.subrange(0, i as int));
            assert(all.subrange(0, i + 1).last() == realms[i as int]@);
        }
        draw_provinces(raster, &realms[i].provinces, ink);
        i += 1;
    }
    assert(all.subrange(0, i as int) =~= all);
}

/// Drawing what a cell holds keeps the size of the image.
pub proof fn lemma_drawn_cell_wf(
    image: Seq<Seq<Color8>>,
    cell: Option<ContinentView>,
    ink: Ink,
    size: Size16,
)
    requires
        image_wf(image, size),
    ensures
        image_wf(drawn_cell(image, cell, ink), size),
{
    match cell {
        Some(continent) => {
            lemma_drawn_realms_wf(image, continent.realms, ink, size);
        },
        None => {},
    }
}

/// Draws every pixel beneath the continent, if there is one: each region in
/// the grey of its grey value, or everything in one colour.
pub fn draw_continent(raster: &mut Raster, continent_opt: Option<&Continent>, ink: &Ink)
    ensures
        final(raster)@ == drawn_cell(
            old(raster)@,
            match continent_opt {
                Some(continent) => Some(continent@),
                None => None,
            },
            *ink,
        ),
        final(raster).size == old(raster).size,
        image_wf(old(raster)@, old(raster).size) ==> image_wf(final(raster)@, final(raster).size),
{
    match continent_opt {
        Some(continent) => {
            proof {
                if image_wf(raster@, raster.size) {
                    lemma_drawn_cell_wf(raster@, Some(continent@), *ink, raster.size);
                }
            }
            draw_realms(raster, &continent.realms, ink);
        },
        None => {},
    }
}

/// The row up to which a column of the interior is drawn: the height of
/// the grid, and row 1 where the grid has no interior row.
pub open spec fn rows_end(final_grid: Size16) -> int {
    if final_grid.height > 1 {
        final_grid.height as int
    } else {
        1
    }
}

/// The column up to which the interior is drawn.
pub open spec fn columns_end(final_grid: Size16) -> int {
    if final_grid.width > 1 {
        final_grid.width as int
    } else {
        1
    }
}

/// The image with the interior cells drawn that come before cell `(x, y)`
/// in the walk over the interior of the final grid, column by column from
/// column 1, each from row 1 up.
pub open spec fn drawn_interior(
    image: Seq<Seq<Color8>>,
    grid: GridView,
    final_grid: Size16,
    ink: Ink,
    x: int,
    y: int,
) -> Seq<Seq<Color8>>
    decreases x, y,
{
    if x < 1 || y < 1 || (x == 1 && y == 1) {
        image
    } else if y > 1 {
        drawn_cell(drawn_interior(image, grid, final_grid, ink, x, y - 1), grid.at(x, y - 1), ink)
    } else {
        drawn_interior(image, grid, final_grid, ink, x - 1, rows_end(final_grid))
    }
}

/// The image with the cells of the seam's row 0 drawn, from cell 1 up to
/// cell `n`, that one left out.
pub open spec fn drawn_row(image: Seq<Seq<Color8>>, grid: GridView, ink: Ink, n: int) -> Seq<
    Seq<Color8>,
>
    decreases n,
{
    if n <= 1 {
        image
    } else {
        drawn_cell(drawn_row(image, grid, ink, n - 1), grid.at(n - 1, 0), ink)
    }
}

/// The image with the cells of the seam's column 0 drawn, from cell 0 up
/// to cell `n`, that one left out.
pub open spec fn drawn_column(image: Seq<Seq<Color8>>, grid: GridView, ink: Ink, n: int) -> Seq<
    Seq<Color8>,
>
    decreases n,
{
    if n <= 0 {
        image
    } else {
        drawn_cell(drawn_column(image, grid, ink, n - 1), grid.at(0, n - 1), ink)
    }
}

/// The image of the planet: on an image of the final size, first the
/// interior of the final grid, then row 0 of the seam strip, then its
/// column 0, every region in the grey of its grey value.  What is drawn
/// later lies over what was drawn before, and what lies off the image is
/// not drawn.
pub open spec fn planet_image(planet: PlanetView, planet_settings: PlanetSettings) -> Seq<
    Seq<Color8>,
> {
    let final_grid = planet_settings.final_continent_grid_size;
    let interior = drawn_interior(
        blank(planet_settings.final_img_size),
        planet.continents,
        final_grid,
        Ink::Grey,
        columns_end(final_grid),
        1,
    );
    let row = drawn_row(interior, planet.edge_continents, Ink::Grey, final_grid.width as int);
    drawn_column(row, planet.edge_continents, Ink::Grey, final_grid.height as int)
}

/// Draws the interior cells of a grid of `width` by `height` cells.
fn draw_interior(raster: &mut Raster, continents: &ContinentGrid, final_grid: &Size16, ink: &Ink)
    requires
        continents@.wf(),
        image_wf(old(raster)@, old(raster).size),
    ensures
        image_wf(final(raster)@, final(raster).size),
        final(raster)@ == drawn_interior(
            old(raster)@,
            continents@,
            *final_grid,
            *ink,
            columns_end(*final_grid),
            1,
        ),
        final(raster).size == old(raster).size,
{
    let mut x: u16 = 1;
    while x < final_grid.width
        invariant
            1 <= x,
            x <= final_grid.width || x == 1,
            continents@.wf(),
            raster.size == old(raster).size,
            image_wf(raster@, raster.size),
            raster@ == drawn_interior(old(raster)@, continents@, *final_grid, *ink, x as int, 1),
        decreases final_grid.width - x,
    {
        let mut y: u16 = 1;
        while y < final_grid.height
            invariant
                1 <= x < final_grid.width,
                1 <= y,
                y <= final_grid.height || y == 1,
                continents@.wf(),
                raster.size == old(raster).size,
                image_wf(raster@, raster.size),
            image_wf(raster@, raster.size),
                raster@ == drawn_interior(
                    old(raster)@,
                    continents@,
                    *final_grid,
                    *ink,
                    x as int,
                    y as int,
                ),
            decreases final_grid.height - y,
        {
            draw_continent(raster, continents.get(x, y), ink);
            y += 1;
        }
        assert(y == rows_end(*final_grid));
        x += 1;
    }
}

/// Draws the seam strip of a grid: its row 0 from cell 1 on, then its
/// column 0.
fn draw_seam(raster: &mut Raster, edge_continents: &ContinentGrid, final_grid: &Size16, ink: &Ink)
    requires
        edge_continents@.wf(),
        image_wf(old(raster)@, old(raster).size),
    ensures
        image_wf(final(raster)@, final(raster).size),
        final(raster)@ == drawn_column(
            drawn_row(old(raster)@, edge_continents@, *ink, final_grid.width as int),
            edge_continents@,
            *ink,
            final_grid.height as int,
        ),
        final(raster).size == old(raster).size,
{
    let mut x: u16 = 1;
    while x < final_grid.width
        invariant
            1 <= x,
            x <= final_grid.width || x == 1,
            edge_continents@.wf(),
            raster.size == old(raster).size,
            image_wf(raster@, raster.size),
            raster@ == drawn_row(old(raster)@, edge_continents@, *ink, x as int),
        decreases final_grid.width - x,
    {
        draw_continent(raster, edge_continents.get(x, 0), ink);
        x += 1;
    }
    assert(raster@ == drawn_row(old(raster)@, edge_continents@, *ink, final_grid.width as int));
    let ghost row = raster@;
    let mut y: u16 = 0;
    while y < final_grid.height
        invariant
            y <= final_grid.height,
            edge_continents@.wf(),
            raster.size == old(raster).size,
            image_wf(raster@, raster.size),
            raster@ == drawn_column(row, edge_continents@, *ink, y as int),
        decreases final_grid.height - y,
    {
        draw_continent(raster, edge_continents.get(0, y), ink);
        y += 1;
    }
}

/// Draws the planet on an image of the final size: every region in the
/// grey of its grey value, the interior first and the seam strip over it.
/// Pixels that lie off the final image are not drawn.
pub fn build_planet_image(planet: &Planet, planet_settings: &PlanetSettings) -> (raster: Raster)
    requires
        planet@.wf(),
    ensures
        raster.size == planet_settings.final_img_size,
        raster@ == planet_image(planet@, *planet_settings),
{
    let mut raster = Raster::new(planet_settings.final_img_size);
    let final_grid = planet_settings.final_continent_grid_size;
    draw_interior(&mut raster, &planet.continents, &final_grid, &Ink::Grey);
    draw_seam(&mut raster, &planet.edge_continents, &final_grid, &Ink::Grey);
    raster
}

/// Drawing leaves alone every pixel that is not among those drawn.
pub proof fn lemma_painted_untouched(
    image: Seq<Seq<Color8>>,
    pixels: Seq<(u16, u16)>,
    color: Color8,
    size: Size16,
    px: (u16, u16),
)
    requires
        image_wf(image, size),
        px.0 < size.width,
        px.1 < size.height,
        occurrences(pixels, px) == 0,
    ensures
        image_wf(painted(image, pixels, color), size),
        painted(image, pixels, color)[px.0 as int][px.1 as int] == image[px.0 as int][px.1 as int],
    decreases pixels.len(),
{
    if pixels.len() > 0 {
        lemma_sum_push(pixels.drop_last(), pixels.last(), is_pixel(px));
        assert(pixels.drop_last().push(pixels.last()) =~= pixels);
        lemma_painted_untouched(image, pixels.drop_last(), color, size, px);
    }
}

pub proof fn lemma_drawn_regions_untouched(
    image: Seq<Seq<Color8>>,
    regions: Seq<RegionView>,
    ink: Ink,
    size: Size16,
    px: (u16, u16),
)
    requires
        image_wf(image, size),
        px.0 < size.width,
        px.1 < size.height,
        regions_pixel_count(regions, px) == 0,
    ensures
        image_wf(drawn_regions(image, regions, ink), size),
        drawn_regions(image, regions, ink)[px.0 as int][px.1 as int]
            == image[px.0 as int][px.1 as int],
    decreases regions.len(),
{
    if regions.len() > 0 {
        lemma_sum_push(regions.drop_last(), regions.last(), region_weight(px));
        assert(regions.drop_last().push(regions.last()) =~= regions);
        lemma_drawn_regions_untouched(image, regions.drop_last(), ink, size, px);
        lemma_painted_untouched(
            drawn_regions(image, regions.drop_last(), ink),
            regions.last().pixels,
            ink_of(ink, regions.last()),
            size,
            px,
        );
    }
}

pub proof fn lemma_drawn_provinces_untouched(
    image: Seq<Seq<Color8>>,
    provinces: Seq<ProvinceView>,
    ink: Ink,
    size: Size16,
    px: (u16, u16),
)
    requires
        image_wf(image, size),
        px.0 < size.width,
        px.1 < size.height,
        provinces_pixel_count(provinces, px) == 0,
    ensures
        image_wf(drawn_provinces(image, provinces, ink), size),
        drawn_provinces(image, provinces, ink)[px.0 as int][px.1 as int]
            == image[px.0 as int][px.1 as int],
    decreases provinces.len(),
{
    if provinces.len() > 0 {
        lemma_sum_push(provinces.drop_last(), provinces.last(), province_weight(px));
        assert(provinces.drop_last().push(provinces.last()) =~= provinces);
        lemma_drawn_provinces_untouched(image, provinces.drop_last(), ink, size, px);
        lemma_drawn_regions_untouched(
            drawn_provinces(image, provinces.drop_last(), ink),
            provinces.last().regions,
            ink,
            size,
            px,
        );
    }
}

/// The image with the regions drawn on it, one after the other, region
/// `i` in the colour `colors[i]`.
pub open spec fn tinted_regions(
    image: Seq<Seq<Color8>>,
    regions: Seq<RegionView>,
    colors: Seq<Color8>,
) -> Seq<Seq<Color8>>
    decreases regions.len(),
{
    if regions.len() == 0 || colors.len() != regions.len() {
        image
    } else {
        painted(
            tinted_regions(image, regions.drop_last(), colors.drop_last()),
            regions.last().pixels,
            colors.last(),
        )
    }
}

/// The image with the provinces drawn on it, one after the other, every
/// region of province `i` in the colour `colors[i]`.
pub open spec fn tinted_provinces(
    image: Seq<Seq<Color8>>,
    provinces: Seq<ProvinceView>,
    colors: Seq<Color8>,
) -> Seq<Seq<Color8>>
    decreases provinces.len(),
{
    if provinces.len() == 0 || colors.len() != provinces.len() {
        image
    } else {
        drawn_regions(
            tinted_provinces(image, provinces.drop_last(), colors.drop_last()),
            provinces.last().regions,
            Ink::Plain(colors.last()),
        )
    }
}

/// The image with the realms drawn on it, one after the other, every
/// region beneath realm `i` in the colour `colors[i]`.
pub open spec fn tinted_realms(
    image: Seq<Seq<Color8>>,
    realms: Seq<RealmView>,
    colors: Seq<Color8>,
) -> Seq<Seq<Color8>>
    decreases realms.len(),
{
    if realms.len() == 0 || colors.len() != realms.len() {
        image
    } else {
        drawn_provinces(
            tinted_realms(image, realms.drop_last(), colors.drop_last()),
            realms.last().provinces,
            Ink::Plain(colors.last()),
        )
    }
}

/// A pixel of the list, on the image, has the colour that the list was
/// painted in.
pub proof fn lemma_painted_touched(
    image: Seq<Seq<Color8>>,
    pixels: Seq<(u16, u16)>,
    color: Color8,
    size: Size16,
    px: (u16, u16),
)
    requires
        image_wf(image, size),
        px.0 < size.width,
        px.1 < size.height,
        occurrences(pixels, px) > 0,
    ensures
        image_wf(painted(image, pixels, color), size),
        painted(image, pixels, color)[px.0 as int][px.1 as int] == color,
    decreases pixels.len(),
{
    if pixels.len() > 0 {
        lemma_painted_wf(image, pixels.drop_last(), color, size);
        lemma_painted_wf(image, pixels, color, size);
        if pixels.last() != px {
            lemma_painted_touched(image, pixels.drop_last(), color, size, px);
        }
    }
}

/// A pixel that a region of the list holds, on the image, has the one
/// colour that the regions were drawn in.
pub proof fn lemma_drawn_regions_touched(
    image: Seq<Seq<Color8>>,
    regions: Seq<RegionView>,
    color: Color8,
    size: Size16,
    px: (u16, u16),
)
    requires
        image_wf(image, size),
        px.0 < size.width,
        px.1 < size.height,
        regions_pixel_count(regions, px) > 0,
    ensures
        image_wf(drawn_regions(image, regions, Ink::Plain(color)), size),
        drawn_regions(image, regions, Ink::Plain(color))[px.0 as int][px.1 as int] == color,
    decreases regions.len(),
{
    if regions.len() > 0 {
        let ink = Ink::Plain(color);
        let before = drawn_regions(image, regions.drop_last(), ink);
        lemma_drawn_regions_wf(image, regions.drop_last(), ink, size);
        lemma_drawn_regions_wf(image, regions, ink, size);
        if occurrences(regions.last().pixels, px) > 0 {
            lemma_painted_touched(before, regions.last().pixels, color, size, px);
        } else {
            lemma_drawn_regions_touched(image, regions.drop_last(), color, size, px);
            lemma_painted_untouched(before, regions.last().pixels, color, size, px);
        }
    }
}

/// A pixel that a region beneath a province of the list holds, on the
/// image, has the one colour that the provinces were drawn in.
pub proof fn lemma_drawn_provinces_touched(
    image: Seq<Seq<Color8>>,
    provinces: Seq<ProvinceView>,
    color: Color8,
    size: Size16,
    px: (u16, u16),
)
    requires
        image_wf(image, size),
        px.0 < size.width,
        px.1 < size.height,
        provinces_pixel_count(provinces, px) > 0,
    ensures
        image_wf(drawn_provinces(image, provinces, Ink::Plain(color)), size),
        drawn_provinces(image, provinces, Ink::Plain(color))[px.0 as int][px.1 as int] == color,
    decreases provinces.len(),
{
    if provinces.len() > 0 {
        let ink = Ink::Plain(color);
        let before = drawn_provinces(image, provinces.drop_last(), ink);
        lemma_drawn_provinces_wf(image, provinces.drop_last(), ink, size);
        lemma_drawn_provinces_wf(image, provinces, ink, size);
        if regions_pixel_count(provinces.last().regions, px) > 0 {
            lemma_drawn_regions_touched(before, provinces.last().regions, color, size, px);
        } else {
            lemma_drawn_provinces_touched(image, provinces.drop_last(), color, size, px);
            lemma_drawn_regions_untouched(before, provinces.last().regions, ink, size, px);
        }
    }
}

/// On an image of regions, a pixel of the canvas carries the colour of the
/// last region that holds it: of the one region, where one holds it.
pub proof fn lemma_tinted_regions_hold(
    image: Seq<Seq<Color8>>,
    regions: Seq<RegionView>,
    colors: Seq<Color8>,
    size: Size16,
    px: (u16, u16),
    i: int,
)
    requires
        image_wf(image, size),
        px.0 < size.width,
        px.1 < size.height,
        colors.len() == regions.len(),
        0 <= i < regions.len(),
        regions[i].pixel_count(px) > 0,
        forall|j: int| i < j < regions.len() ==> (#[trigger] regions[j]).pixel_count(px) == 0,
    ensures
        image_wf(tinted_regions(image, regions, colors), size),
        tinted_regions(image, regions, colors)[px.0 as int][px.1 as int] == colors[i],
    decreases regions.len(),
{
    let head = regions.drop_last();
    let before = tinted_regions(image, head, colors.drop_last());
    lemma_tinted_regions_wf(image, head, colors.drop_last(), size);
    if i == regions.len() - 1 {
        lemma_painted_touched(before, regions.last().pixels, colors.last(), size, px);
    } else {
        assert(head[i] == regions[i]);
        assert forall|j: int| i < j < head.len() implies (#[trigger] head[j]).pixel_count(px)
            == 0 by {
            assert(head[j] == regions[j]);
        }
        lemma_tinted_regions_hold(image, head, colors.drop_last(), size, px, i);
        assert(regions[regions.len() - 1].pixel_count(px) == 0);
        lemma_painted_untouched(before, regions.last().pixels, colors.last(), size, px);
    }
}

/// On an image of provinces, a pixel of the canvas carries the colour of
/// the last province that holds it.
pub proof fn lemma_tinted_provinces_hold(
    image: Seq<Seq<Color8>>,
    provinces: Seq<ProvinceView>,
    colors: Seq<Color8>,
    size: Size16,
    px: (u16, u16),
    i: int,
)
    requires
        image_wf(image, size),
        px.0 < size.width,
        px.1 < size.height,
        colors.len() == provinces.len(),
        0 <= i < provinces.len(),
        provinces[i].pixel_count(px) > 0,
        forall|j: int| i < j < provinces.len() ==> (#[trigger] provinces[j]).pixel_count(px) == 0,
    ensures
        image_wf(tinted_provinces(image, provinces, colors), size),
        tinted_provinces(image, provinces, colors)[px.0 as int][px.1 as int] == colors[i],
    decreases provinces.len(),
{
    let head = provinces.drop_last();
    let before = tinted_provinces(image, head, colors.drop_last());
    lemma_tinted_provinces_wf(image, head, colors.drop_last(), size);
    if i == provinces.len() - 1 {
        lemma_drawn_regions_touched(before, provinces.last().regions, colors.last(), size, px);
    } else {
        assert(head[i] == provinces[i]);
        assert forall|j: int| i < j < head.len() implies (#[trigger] head[j]).pixel_count(px)
            == 0 by {
            assert(head[j] == provinces[j]);
        }
        lemma_tinted_provinces_hold(image, head, colors.drop_last(), size, px, i);
        assert(provinces[provinces.len() - 1].pixel_count(px) == 0);
        lemma_drawn_regions_untouched(
            before,
            provinces.last().regions,
            Ink::Plain(colors.last()),
            size,
            px,
        );
    }
}

/// On an image of realms, a pixel of the canvas carries the colour of the
/// last realm that holds it.
pub proof fn lemma_tinted_realms_hold(
    image: Seq<Seq<Color8>>,
    realms: Seq<RealmView>,
    colors: Seq<Color8>,
    size: Size16,
    px: (u16, u16),
    i: int,
)
    requires
        image_wf(image, size),
        px.0 < size.width,
        px.1 < size.height,
        colors.len() == realms.len(),
        0 <= i < realms.len(),
        realms[i].pixel_count(px) > 0,
        forall|j: int| i < j < realms.len() ==> (#[trigger] realms[j]).pixel_count(px) == 0,
    ensures
        image_wf(tinted_realms(image, realms, colors), size),
        tinted_realms(image, realms, colors)[px.0 as int][px.1 as int] == colors[i],
    decreases realms.len(),
{
    let head = realms.drop_last();
    let before = tinted_realms(image, head, colors.drop_last());
    lemma_tinted_realms_wf(image, head, colors.drop_last(), size);
    if i == realms.len() - 1 {
        lemma_drawn_provinces_touched(before, realms.last().provinces, colors.last(), size, px);
    } else {
        assert(head[i] == realms[i]);
        assert forall|j: int| i < j < head.len() implies (#[trigger] head[j]).pixel_count(px)
            == 0 by {
            assert(head[j] == realms[j]);
        }
        lemma_tinted_realms_hold(image, head, colors.drop_last(), size, px, i);
        assert(realms[realms.len() - 1].pixel_count(px) == 0);
        lemma_drawn_provinces_untouched(
            before,
            realms.last().provinces,
            Ink::Plain(colors.last()),
            size,
            px,
        );
    }
}

pub proof fn lemma_tinted_regions_wf(
    image: Seq<Seq<Color8>>,
    regions: Seq<RegionView>,
    colors: Seq<Color8>,
    size: Size16,
)
    requires
        image_wf(image, size),
    ensures
        image_wf(tinted_regions(image, regions, colors), size),
    decreases regions.len(),
{
    if regions.len() > 0 && colors.len() == regions.len() {
        lemma_tinted_regions_wf(image, regions.drop_last(), colors.drop_last(), size);
        lemma_painted_wf(
            tinted_regions(image, regions.drop_last(), colors.drop_last()),
            regions.last().pixels,
            colors.last(),
            size,
        );
    }
}

pub proof fn lemma_tinted_provinces_wf(
    image: Seq<Seq<Color8>>,
    provinces: Seq<ProvinceView>,
    colors: Seq<Color8>,
    size: Size16,
)
    requires
        image_wf(image, size),
    ensures
        image_wf(tinted_provinces(image, provinces, colors), size),
    decreases provinces.len(),
{
    if provinces.len() > 0 && colors.len() == provinces.len() {
        lemma_tinted_provinces_wf(image, provinces.drop_last(), colors.drop_last(), size);
        lemma_drawn_regions_wf(
            tinted_provinces(image, provinces.drop_last(), colors.drop_last()),
            provinces.last().regions,
            Ink::Plain(colors.last()),
            size,
        );
    }
}

pub proof fn lemma_tinted_realms_wf(
    image: Seq<Seq<Color8>>,
    realms: Seq<RealmView>,
    colors: Seq<Color8>,
    size: Size16,
)
    requires
        image_wf(image, size),
    ensures
        image_wf(tinted_realms(image, realms, colors), size),
    decreases realms.len(),
{
    if realms.len() > 0 && colors.len() == realms.len() {
        lemma_tinted_realms_wf(image, realms.drop_last(), colors.drop_last(), size);
        lemma_drawn_provinces_wf(
            tinted_realms(image, realms.drop_last(), colors.drop_last()),
            realms.last().provinces,
            Ink::Plain(colors.last()),
            size,
        );
    }
}

/// Draws a colour.
fn random_color(rng: &mut StdRng) -> Color8 {
    let r = random_below(rng, 256) as u8;
    let g = random_below(rng, 256) as u8;
    let b = random_below(rng, 256) as u8;
    Color8 { r, g, b }
}

/// Draws the regions on an image of the canvas's size, each in a colour of
/// its own, drawn at random.  A pixel that no region holds stays black.
pub fn build_regions_image(
    rng: &mut StdRng,
    settings: &ContinentBuilderSettings,
    regions: &Vec<Region>,
) -> (raster: Raster)
    ensures
        raster.size == settings.img_size,
        image_wf(raster@, settings.img_size),
        forall|px: (u16, u16)|
            px.0 < settings.img_size.width && px.1 < settings.img_size.height
                && #[trigger] regions_pixel_count(regions_view(regions@), px) == 0
                ==> raster@[px.0 as int][px.1 as int] == black(),
        exists|colors: Seq<Color8>|
            colors.len() == regions.len() && raster@ == #[trigger] tinted_regions(
                blank(settings.img_size),
                regions_view(regions@),
                colors,
            ),
{
    let size = settings.img_size;
    let mut raster = Raster::new(size);
    let ghost all = regions_view(regions@);
    let ghost mut colors: Seq<Color8> = Seq::empty();
    let mut i: usize = 0;
    while i < regions.len()
        invariant
            i <= regions.len(),
            raster.size == size,
            image_wf(raster@, size),
            all == regions_view(regions@),
            colors.len() == i,
            raster@ == tinted_regions(blank(size), all.subrange(0, i as int), colors),
            forall|px: (u16, u16)|
                px.0 < size.width && px.1 < size.height && #[trigger] regions_pixel_count(
                    all.subrange(0, i as int),
                    px,
                ) == 0 ==> raster@[px.0 as int][px.1 as int] == black(),
        decreases regions.len() - i,
    {
        let color = random_color(rng);
        let ghost before = raster@;
        raster.paint(&regions[i].pixels, color);
        proof {
            let head = all.subrange(0, i as int);
            assert(all.subrange(0, i + 1) =~= head.push(regions[i as int]@));
            assert(all.subrange(0, i + 1).drop_last() =~= head);
            assert(colors.push(color).drop_last() =~= colors);
            colors = colors.push(color);
            lemma_painted_wf(before, regions[i as int].pixels@, color, size);
            assert forall|px: (u16, u16)|
                px.0 < size.width && px.1 < size.height && #[trigger] regions_pixel_count(
                    all.subrange(0, i + 1),
                    px,
                ) == 0 implies raster@[px.0 as int][px.1 as int] == black() by {
                lemma_sum_push(head, regions[i as int]@, region_weight(px));
                assert(regions_pixel_count(head, px) == 0);
                lemma_painted_untouched(before, regions[i as int].pixels@, color, size, px);
            }
        }
        i += 1;
    }
    assert(all.subrange(0, i as int) =~= all);
    raster
}

/// Draws the provinces on an image of the canvas's size, each with all
/// beneath it in a colour of its own, drawn at random.  A pixel that no
/// province holds stays black.
pub fn build_provinces_image(
    rng: &mut StdRng,
    settings: &ContinentBuilderSettings,
    provinces: &Vec<Province>,
) -> (raster: Raster)
    ensures
        raster.size == settings.img_size,
        image_wf(raster@, settings.img_size),
        forall|px: (u16, u16)|
            px.0 < settings.img_size.width && px.1 < settings.img_size.height
                && #[trigger] provinces_pixel_count(provinces_view(provinces@), px) == 0
                ==> raster@[px.0 as int][px.1 as int] == black(),
        exists|colors: Seq<Color8>|
            colors.len() == provinces.len() && raster@ == #[trigger] tinted_provinces(
                blank(settings.img_size),
                provinces_view(provinces@),
                colors,
            ),
{
    let size = settings.img_size;
    let mut raster = Raster::new(size);
    let ghost all = provinces_view(provinces@);
    let ghost mut colors: Seq<Color8> = Seq::empty();
    let mut i: usize = 0;
    while i < provinces.len()
        invariant
            i <= provinces.len(),
            raster.size == size,
            image_wf(raster@, size),
            all == provinces_view(provinces@),
            colors.len() == i,
            raster@ == tinted_provinces(blank(size), all.subrange(0, i as int), colors),
            forall|px: (u16, u16)|
                px.0 < size.width && px.1 < size.height && #[trigger] provinces_pixel_count(
                    all.subrange(0, i as int),
                    px,
                ) == 0 ==> raster@[px.0 as int][px.1 as int] == black(),
        decreases provinces.len() - i,
    {
        let color = random_color(rng);
        let ghost before = raster@;
        draw_regions(&mut raster, &provinces[i].regions, &Ink::Plain(color));
        proof {
            let head = all.subrange(0, i as int);
            assert(all.subrange(0, i + 1) =~= head.push(provinces[i as int]@));
            assert(all.subrange(0, i + 1).drop_last() =~= head);
            assert(colors.push(color).drop_last() =~= colors);
            colors = colors.push(color);
            lemma_drawn_regions_wf(before, provinces[i as int]@.regions, Ink::Plain(color), size);
            assert forall|px: (u16, u16)|
                px.0 < size.width && px.1 < size.height && #[trigger] provinces_pixel_count(
                    all.subrange(0, i + 1),
                    px,
                ) == 0 implies raster@[px.0 as int][px.1 as int] == black() by {
                lemma_sum_push(head, provinces[i as int]@, province_weight(px));
                assert(provinces_pixel_count(head, px) == 0);
                lemma_drawn_regions_untouched(
                    before,
                    provinces[i as int]@.regions,
                    Ink::Plain(color),
                    size,
                    px,
                );
            }
        }
        i += 1;
    }
    assert(all.subrange(0, i as int) =~= all);
    raster
}

/// Draws the realms on an image of the canvas's size, each with all
/// beneath it in a colour of its own, drawn at random.  A pixel that no
/// realm holds stays black.
pub fn build_realms_image(
    rng: &mut StdRng,
    settings: &ContinentBuilderSettings,
    realms: &Vec<Realm>,
) -> (raster: Raster)
    ensures
        raster.size == settings.img_size,
        image_wf(raster@, settings.img_size),
        forall|px: (u16, u16)|
            px.0 < settings.img_size.width && px.1 < settings.img_size.height
                && #[trigger] realms_pixel_count(realms_view(realms@), px) == 0
                ==> raster@[px.0 as int][px.1 as int] == black(),
        exists|colors: Seq<Color8>|
            colors.len() == realms.len() && raster@ == #[trigger] tinted_realms(
                blank(settings.img_size),
                realms_view(realms@),
                colors,
            ),
{
    let size = settings.img_size;
    let mut raster = Raster::new(size);
    let ghost all = realms_view(realms@);
    let ghost mut colors: Seq<Color8> = Seq::empty();
    let mut i: usize = 0;
    while i < realms.len()
        invariant
            i <= realms.len(),
            raster.size == size,
            image_wf(raster@, size),
            all == realms_view(realms@),
            colors.len() == i,
            raster@ == tinted_realms(blank(size), all.subrange(0, i as int), colors),
            forall|px: (u16, u16)|
                px.0 < size.width && px.1 < size.height && #[trigger] realms_pixel_count(
                    all.subrange(0, i as int),
                    px,
                ) == 0 ==> raster@[px.0 as int][px.1 as int] == black(),
        decreases realms.len() - i,
    {
        let color = random_color(rng);
        let ghost before = raster@;
        draw_provinces(&mut raster, &realms[i].provinces, &Ink::Plain(color));
        proof {
            let head = all.subrange(0, i as int);
            assert(all.subrange(0, i + 1) =~= head.push(realms[i as int]@));
            assert(all.subrange(0, i + 1).drop_last() =~= head);
            assert(colors.push(color).drop_last() =~= colors);
            colors = colors.push(color);
            lemma_drawn_provinces_wf(before, realms[i as int]@.provinces, Ink::Plain(color), size);
            assert forall|px: (u16, u16)|
                px.0 < size.width && px.1 < size.height && #[trigger] realms_pixel_count(
                    all.subrange(0, i + 1),
                    px,
                ) == 0 implies raster@[px.0 as int][px.1 as int] == black() by {
                lemma_sum_push(head, realms[i as int]@, realm_weight(px));
                assert(realms_pixel_count(head, px) == 0);
                lemma_drawn_provinces_untouched(
                    before,
                    realms[i as int]@.provinces,
                    Ink::Plain(color),
                    size,
                    px,
                );
            }
        }
        i += 1;
    }
    assert(all.subrange(0, i as int) =~= all);
    raster
}

/// The least value of the shades that mark the cells of a map drawn for
/// inspection.
pub const DEBUG_SHADE_MIN: u8 = 60;

/// The greatest value of those shades.
pub const DEBUG_SHADE_MAX: u8 = 190;

/// The colour that marks the grid cell `(x, y)` in a map drawn for
/// inspection, for the given shades.
pub open spec fn debug_color_of(x: u16, y: u16, first: u8, second: u8) -> Color8 {
    if x == 0 && y == 0 {
        Color8 { r: 255, g: 255, b: 255 }
    } else if x == 0 {
        Color8 { r: 240, g: first, b: second }
    } else if y == 0 {
        Color8 { r: first, g: second, b: 240 }
    } else {
        Color8 { r: first, g: first, b: first }
    }
}

/// The colour that marks a grid cell in a map drawn for inspection: white
/// for the seam's corner, reddish along its column 0, blueish along its
/// row 0, and a grey for the interior.  `first` and `second` are shades
/// drawn at random; the corner uses neither, the interior the first alone.
pub fn debug_color(x: u16, y: u16, first: u8, second: u8) -> (color: Color8)
    ensures
        color == debug_color_of(x, y, first, second),
{
    if x == 0 && y == 0 {
        Color8 { r: 255, g: 255, b: 255 }
    } else if x == 0 {
        Color8 { r: 240, g: first, b: second }
    } else if y == 0 {
        Color8 { r: first, g: second, b: 240 }
    } else {
        Color8 { r: first, g: first, b: first }
    }
}

/// The ink for a cell of a map drawn for inspection: grey for the final
/// colours, and else the colour that marks the cell, of shades drawn at
/// random.
fn debug_ink(rng: &mut StdRng, x: u16, y: u16, final_color: bool) -> (ink: Ink)
    ensures
        final_color ==> ink == Ink::Grey,
        !final_color ==> exists|first: u8, second: u8|
            DEBUG_SHADE_MIN <= first <= DEBUG_SHADE_MAX && DEBUG_SHADE_MIN <= second
                <= DEBUG_SHADE_MAX && ink == Ink::Plain(
                #[trigger] debug_color_of(x, y, first, second),
            ),
{
    if final_color {
        Ink::Grey
    } else {
        let first = DEBUG_SHADE_MIN + random_below(rng, 131) as u8;
        let second = DEBUG_SHADE_MIN + random_below(rng, 131) as u8;
        let color = debug_color(x, y, first, second);
        assert(color == debug_color_of(x, y, first, second));
        Ink::Plain(color)
    }
}

/// The size of the image and of the grid that a map is drawn on for
/// inspection: those of the final image, or those of generation.
pub open spec fn debug_frame(
    planet_settings: PlanetSettings,
    final_size: bool,
) -> (Size16, Size16) {
    if final_size {
        (planet_settings.final_img_size, planet_settings.final_continent_grid_size)
    } else {
        (planet_settings.img_size, planet_settings.continent_grid_size)
    }
}

/// Draws the planet for inspection, on the final image and grid or on
/// those of generation: the interior, and over it the seam strip unless
/// only the centre is asked for.  With `final_color` every region is drawn
/// in the grey of its grey value; without, every cell is drawn in a colour
/// that marks where it lies, of a shade drawn at random.
pub fn debug_planet_image(
    rng: &mut StdRng,
    planet: &Planet,
    planet_settings: &PlanetSettings,
    final_size: bool,
    final_color: bool,
    only_center: bool,
) -> (raster: Raster)
    requires
        planet@.wf(),
    ensures
        raster.size == debug_frame(*planet_settings, final_size).0,
        image_wf(raster@, raster.size),
        final_color ==> raster@ == ({
            let frame = debug_frame(*planet_settings, final_size);
            let interior = drawn_interior(
                blank(frame.0),
                planet@.continents,
                frame.1,
                Ink::Grey,
                columns_end(frame.1),
                1,
            );
            if only_center {
                interior
            } else {
                drawn_column(
                    drawn_row(interior, planet@.edge_continents, Ink::Grey, frame.1.width as int),
                    planet@.edge_continents,
                    Ink::Grey,
                    frame.1.height as int,
                )
            }
        }),
{
    let size = if final_size { planet_settings.final_img_size } else { planet_settings.img_size };
    let grid = if final_size {
        planet_settings.final_continent_grid_size
    } else {
        planet_settings.continent_grid_size
    };
    let mut raster = Raster::new(size);
    if final_color {
        draw_interior(&mut raster, &planet.continents, &grid, &Ink::Grey);
        if !only_center {
            draw_seam(&mut raster, &planet.edge_continents, &grid, &Ink::Grey);
        }
        return raster;
    }
    let mut x: u16 = 1;
    while x < grid.width
        invariant
            1 <= x,
            planet@.wf(),
            raster.size == size,
            image_wf(raster@, size),
        decreases grid.width - x,
    {
        let mut y: u16 = 1;
        while y < grid.height
            invariant
                1 <= y,
                planet@.wf(),
                raster.size == size,
                image_wf(raster@, size),
            decreases grid.height - y,
        {
            let ink = debug_ink(rng, x, y, false);
            draw_continent(&mut raster, planet.continents.get(x, y), &ink);
            y += 1;
        }
        x += 1;
    }
    if !only_center {
        let mut x: u16 = 1;
        while x < grid.width
            invariant
                1 <= x,
                planet@.wf(),
                raster.size == size,
                image_wf(raster@, size),
            decreases grid.width - x,
        {
            let ink = debug_ink(rng, x, 0, false);
            draw_continent(&mut raster, planet.edge_continents.get(x, 0), &ink);
            x += 1;
        }
        let mut y: u16 = 0;
        while y < grid.height
            invariant
                planet@.wf(),
                raster.size == size,
                image_wf(raster@, size),
            decreases grid.height - y,
        {
            let ink = debug_ink(rng, 0, y, false);
            draw_continent(&mut raster, planet.edge_continents.get(0, y), &ink);
            y += 1;
        }
    }
    raster
}

} // verus!
