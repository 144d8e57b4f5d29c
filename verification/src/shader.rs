//! The shading of continents from the gradient texture of their plates.

use vstd::prelude::*;
use crate::continent::{
    Continent, ContinentView, Province, ProvinceView, Realm, RealmView, RegionView,
};
use crate::error::WorldError;
use crate::grid::{lemma_grid_ext, ContinentGrid, GridView, Planet, PlanetView};
use crate::point::{Point16, Size16};
use crate::seamless::{in_interior, on_seam};
use crate::settings::PlanetSettings;
use crate::sums::seq_sum;

verus! {

/// The degrees of the compass bucket `index`: sixteen buckets, each a
/// sixteenth of a turn on from the one before, rounded down.  Any index
/// beyond them stands for the last.
pub fn get_degrees_by_index(index: u8) -> (degrees: u16)
    ensures
        degrees == if index < 16 {
            index * 45 / 2
        } else {
            337
        },
{
    match index {
        0 => 0,
        1 => 22,
        2 => 45,
        3 => 67,
        4 => 90,
        5 => 112,
        6 => 135,
        7 => 157,
        8 => 180,
        9 => 202,
        10 => 225,
        11 => 247,
        12 => 270,
        13 => 292,
        14 => 315,
        15 => 337,
        _ => 337,
    }
}

/// The greatest texture coordinate that is ever sampled.
pub const MAX_TEXTURE_COORD: u16 = 127;

/// A greyscale texture, column by column: the value at `(x, y)` is
/// `columns[x][y]`.
#[derive(Debug)]
pub struct GradientTexture {
    pub size: Size16,
    pub columns: Vec<Vec<u8>>,
}

impl View for GradientTexture {
    type V = Seq<Seq<u8>>;

    open spec fn view(&self) -> Seq<Seq<u8>> {
        self.columns@.map_values(|column: Vec<u8>| column@)
    }
}

impl GradientTexture {
    /// The texture has a value for each pixel of its size.
    pub open spec fn wf(&self) -> bool {
        &&& self@.len() == self.size.width
        &&& forall|x: int| 0 <= x < self@.len() ==> (#[trigger] self@[x]).len() == self.size.height
    }

    /// Whether the texture has a value for each pixel of its size.
    pub fn is_valid(&self) -> (valid: bool)
        ensures
            valid == self.wf(),
    {
        if self.columns.len() != self.size.width as usize {
            return false;
        }
        let mut x: usize = 0;
        while x < self.columns.len()
            invariant
                x <= self.columns.len(),
                self@.len() == self.size.width,
                forall|i: int| 0 <= i < x ==> (#[trigger] self@[i]).len() == self.size.height,
            decreases self.columns.len() - x,
        {
            if self.columns[x].len() != self.size.height as usize {
                assert(self@[x as int].len() != self.size.height);
                return false;
            }
            x += 1;
        }
        true
    }
}

/// The box has no extent on one of its axes.
pub open spec fn degenerate_box(bottom_left: Point16, top_right: Point16) -> bool {
    top_right.x <= bottom_left.x || top_right.y <= bottom_left.y
}

/// The texture coordinate for a site that lies `offset` pixels into a box
/// of `box_extent` pixels, on a texture of `texture_extent` pixels: the
/// offset scaled from the box to the texture, rounded down, and kept on the
/// texture and at or below [`MAX_TEXTURE_COORD`].
pub open spec fn texture_coord(offset: int, texture_extent: int, box_extent: int) -> int {
    let scaled = offset * texture_extent / box_extent;
    if scaled > MAX_TEXTURE_COORD {
        if MAX_TEXTURE_COORD < texture_extent {
            MAX_TEXTURE_COORD as int
        } else {
            texture_extent - 1
        }
    } else if scaled >= texture_extent {
        texture_extent - 1
    } else {
        scaled
    }
}

/// How far `at` lies beyond `origin`; nothing where it lies before it.
pub open spec fn offset_from(at: u16, origin: u16) -> int {
    if at >= origin {
        at - origin
    } else {
        0
    }
}

/// The pixel of the texture that stands for a site inside a continent's
/// box.
pub open spec fn calculate_pixel_pos_spec(
    site: Point16,
    bottom_left: Point16,
    top_right: Point16,
    texture_size: Size16,
) -> (int, int) {
    (
        texture_coord(
            offset_from(site.x, bottom_left.x),
            texture_size.width as int,
            top_right.x - bottom_left.x,
        ),
        texture_coord(
            offset_from(site.y, bottom_left.y),
            texture_size.height as int,
            top_right.y - bottom_left.y,
        ),
    )
}

/// A grey value scaled by an elevation factor given in thousandths,
/// rounded down and kept within eight bits.
pub open spec fn scaled_grey(value: u8, elevation: u16) -> u8 {
    if value * elevation / 1000 > 255 {
        255
    } else {
        (value * elevation / 1000) as u8
    }
}

fn compute_texture_coord(offset: u16, texture_extent: u16, box_extent: u16) -> (coord: u16)
    requires
        texture_extent > 0,
        box_extent > 0,
    ensures
        coord == texture_coord(offset as int, texture_extent as int, box_extent as int),
        coord < texture_extent,
{
    assert(offset * texture_extent <= 65535 * 65535) by (nonlinear_arith)
        requires
            offset <= 65535,
            texture_extent <= 65535,
    ;
    let scaled: u32 = offset as u32 * texture_extent as u32 / box_extent as u32;
    if scaled > MAX_TEXTURE_COORD as u32 {
        if MAX_TEXTURE_COORD < texture_extent {
            MAX_TEXTURE_COORD
        } else {
            texture_extent - 1
        }
    } else if scaled >= texture_extent as u32 {
        texture_extent - 1
    } else {
        scaled as u16
    }
}

/// The pixel of the texture that stands for a site inside a continent's
/// box: the site's offset from the box's lower corner, scaled from the
/// box's size to the texture's.
pub fn calculate_pixel_pos(
    site: &Point16,
    bottom_left: &Point16,
    top_right: &Point16,
    texture_size: &Size16,
) -> (pixel_pos: Point16)
    requires
        !degenerate_box(*bottom_left, *top_right),
        texture_size.width > 0,
        texture_size.height > 0,
    ensures
        (pixel_pos.x as int, pixel_pos.y as int) == calculate_pixel_pos_spec(
            *site,
            *bottom_left,
            *top_right,
            *texture_size,
        ),
        pixel_pos.x < texture_size.width,
        pixel_pos.y < texture_size.height,
{
    let offset_x: u16 = if site.x >= bottom_left.x { site.x - bottom_left.x } else { 0 };
    let offset_y: u16 = if site.y >= bottom_left.y { site.y - bottom_left.y } else { 0 };
    Point16 {
        x: compute_texture_coord(offset_x, texture_size.width, top_right.x - bottom_left.x),
        y: compute_texture_coord(offset_y, texture_size.height, top_right.y - bottom_left.y),
    }
}

/// Scales a grey value by an elevation factor given in thousandths.
pub fn scale_grey(value: u8, elevation: u16) -> (grey: u8)
    ensures
        grey == scaled_grey(value, elevation),
{
    assert(value * elevation <= 255 * 65535) by (nonlinear_arith)
        requires
            value <= 255,
            elevation <= 65535,
    ;
    let scaled: u32 = value as u32 * elevation as u32 / 1000;
    if scaled > 255 {
        255
    } else {
        scaled as u8
    }
}

/// What a continent hands down to the shading of its regions: its box, its
/// elevation, and its texture.
pub struct Shade {
    pub bottom_left: Point16,
    pub top_right: Point16,
    pub elevation: u16,
    pub texture_size: Size16,
    pub texture: Seq<Seq<u8>>,
}

/// The grey value of a region at `site` under the shade.
pub open spec fn site_grey(shade: Shade, site: Point16) -> u8 {
    let pos = calculate_pixel_pos_spec(site, shade.bottom_left, shade.top_right, shade.texture_size);
    scaled_grey(shade.texture[pos.0][pos.1], shade.elevation)
}

pub open spec fn shaded_region(region: RegionView, shade: Shade) -> RegionView {
    RegionView { grey_value: site_grey(shade, region.site_point), ..region }
}

pub open spec fn region_shader(shade: Shade) -> spec_fn(RegionView) -> RegionView {
    |region: RegionView| shaded_region(region, shade)
}

pub open spec fn region_grey() -> spec_fn(RegionView) -> nat {
    |region: RegionView| region.grey_value as nat
}

pub open spec fn province_grey() -> spec_fn(ProvinceView) -> nat {
    |province: ProvinceView| province.average_grey_value as nat
}

/// The mean of `total` over `count` values, rounded down; nothing where
/// there is no value.
pub open spec fn mean(total: nat, count: nat) -> u8 {
    if count == 0 {
        0
    } else {
        (total / count) as u8
    }
}

/// The province with its regions shaded and their mean grey value.
pub open spec fn shaded_province(province: ProvinceView, shade: Shade) -> ProvinceView {
    let regions = province.regions.map_values(region_shader(shade));
    ProvinceView {
        regions,
        average_grey_value: mean(seq_sum(regions, region_grey()), regions.len()),
        ..province
    }
}

pub open spec fn province_shader(shade: Shade) -> spec_fn(ProvinceView) -> ProvinceView {
    |province: ProvinceView| shaded_province(province, shade)
}

/// The realm with its provinces shaded and the mean of their means.
pub open spec fn shaded_realm(realm: RealmView, shade: Shade) -> RealmView {
    let provinces = realm.provinces.map_values(province_shader(shade));
    RealmView {
        provinces,
        average_grey_value: mean(seq_sum(provinces, province_grey()), provinces.len()),
        ..realm
    }
}

pub open spec fn realm_shader(shade: Shade) -> spec_fn(RealmView) -> RealmView {
    |realm: RealmView| shaded_realm(realm, shade)
}

/// The shade that a continent casts from a texture.
pub open spec fn shade_of(continent: ContinentView, texture: GradientTexture) -> Shade {
    Shade {
        bottom_left: continent.bottom_left,
        top_right: continent.top_right,
        elevation: continent.elevation,
        texture_size: texture.size,
        texture: texture@,
    }
}

/// Whether the continent can be shaded from the texture: its box and the
/// texture both have an extent.
pub open spec fn shadeable(continent: ContinentView, texture: GradientTexture) -> bool {
    &&& !degenerate_box(continent.bottom_left, continent.top_right)
    &&& texture.size.width > 0
    &&& texture.size.height > 0
}

/// The continent with every region beneath it shaded from the texture, and
/// the means of its provinces and realms brought up to date.
pub open spec fn shaded_continent(
    continent: ContinentView,
    texture: GradientTexture,
) -> ContinentView {
    ContinentView {
        realms: continent.realms.map_values(realm_shader(shade_of(continent, texture))),
        ..continent
    }
}

/// A sum of eight-bit values, divided by their number, fits eight bits.
proof fn lemma_mean_fits(total: nat, count: nat)
    requires
        count > 0,
        total <= 255 * count,
    ensures
        total / count <= 255,
{
    assert(total / count <= 255) by (nonlinear_arith)
        requires
            count > 0,
            total <= 255 * count,
    ;
}

fn shade_province(
    province: &mut Province,
    shade: Ghost<Shade>,
    bottom_left: &Point16,
    top_right: &Point16,
    elevation: u16,
    texture: &GradientTexture,
)
    requires
        texture.wf(),
        !degenerate_box(*bottom_left, *top_right),
        texture.size.width > 0,
        texture.size.height > 0,
        shade@ == (Shade {
            bottom_left: *bottom_left,
            top_right: *top_right,
            elevation,
            texture_size: texture.size,
            texture: texture@,
        }),
    ensures
        final(province)@ == shaded_province(old(province)@, shade@),
{
    let count: usize = province.regions.len();
    let mut total: u128 = 0;
    let mut i: usize = 0;
    let ghost target = old(province)@.regions.map_values(region_shader(shade@));
    while i < count
        invariant
            i <= count,
            texture.wf(),
            !degenerate_box(*bottom_left, *top_right),
            texture.size.width > 0,
            texture.size.height > 0,
            shade@ == (Shade {
                bottom_left: *bottom_left,
                top_right: *top_right,
                elevation,
                texture_size: texture.size,
                texture: texture@,
            }),
            target == old(province)@.regions.map_values(region_shader(shade@)),
            province.regions.len() == count,
            count == old(province).regions.len(),
            province.grid_coord == old(province).grid_coord,
            province.site_point == old(province).site_point,
            province.top_right == old(province).top_right,
            province.bottom_left == old(province).bottom_left,
            province.average_grey_value == old(province).average_grey_value,
            total == seq_sum(target.subrange(0, i as int), region_grey()),
            total <= 255 * i,
            forall|j: int| 0 <= j < i ==> (#[trigger] province.regions[j])@ == target[j],
            forall|j: int| i <= j < count ==> (#[trigger] province.regions[j]) == old(
                province,
            ).regions[j],
        decreases count - i,
    {
        let pixel_pos = calculate_pixel_pos(
            &province.regions[i].site_point,
            bottom_left,
            top_right,
            &texture.size,
        );
        assert(texture@[pixel_pos.x as int].len() == texture.size.height);
        let color_value: u8 = texture.columns[pixel_pos.x as usize][pixel_pos.y as usize];
        let grey = scale_grey(color_value, elevation);
        province.regions[i].grey_value = grey;
        proof {
            assert(target.subrange(0, i + 1).drop_last() =~= target.subrange(0, i as int));
            assert(target.subrange(0, i + 1).last() == target[i as int]);
        }
        total = total + grey as u128;
        i += 1;
    }
    proof {
        assert(target.subrange(0, count as int) =~= target);
        assert(province@.regions =~= target);
        if count > 0 {
            lemma_mean_fits(total as nat, count as nat);
        }
    }
    province.average_grey_value = if count == 0 {
        0
    } else {
        (total / count as u128) as u8
    };
}

fn shade_realm(
    realm: &mut Realm,
    shade: Ghost<Shade>,
    bottom_left: &Point16,
    top_right: &Point16,
    elevation: u16,
    texture: &GradientTexture,
)
    requires
        texture.wf(),
        !degenerate_box(*bottom_left, *top_right),
        texture.size.width > 0,
        texture.size.height > 0,
        shade@ == (Shade {
            bottom_left: *bottom_left,
            top_right: *top_right,
            elevation,
            texture_size: texture.size,
            texture: texture@,
        }),
    ensures
        final(realm)@ == shaded_realm(old(realm)@, shade@),
{
    let count: usize = realm.provinces.len();
    let mut total: u128 = 0;
    let mut i: usize = 0;
    let ghost target = old(realm)@.provinces.map_values(province_shader(shade@));
    while i < count
        invariant
            i <= count,
            texture.wf(),
            !degenerate_box(*bottom_left, *top_right),
            texture.size.width > 0,
            texture.size.height > 0,
            shade@ == (Shade {
                bottom_left: *bottom_left,
                top_right: *top_right,
                elevation,
                texture_size: texture.size,
                texture: texture@,
            }),
            target == old(realm)@.provinces.map_values(province_shader(shade@)),
            realm.provinces.len() == count,
            count == old(realm).provinces.len(),
            realm.grid_coord == old(realm).grid_coord,
            realm.site_point == old(realm).site_point,
            realm.top_right == old(realm).top_right,
            realm.bottom_left == old(realm).bottom_left,
            realm.average_grey_value == old(realm).average_grey_value,
            total == seq_sum(target.subrange(0, i as int), province_grey()),
            total <= 255 * i,
            forall|j: int| 0 <= j < i ==> (#[trigger] realm.provinces[j])@ == target[j],
            forall|j: int| i <= j < count ==> (#[trigger] realm.provinces[j]) == old(
                realm,
            ).provinces[j],
        decreases count - i,
    {
        shade_province(&mut realm.provinces[i], shade, bottom_left, top_right, elevation, texture);
        proof {
            assert(target.subrange(0, i + 1).drop_last() =~= target.subrange(0, i as int));
            assert(target.subrange(0, i + 1).last() == target[i as int]);
        }
        total = total + realm.provinces[i].average_grey_value as u128;
        i += 1;
    }
    proof {
        assert(target.subrange(0, count as int) =~= target);
        assert(realm@.provinces =~= target);
        if count > 0 {
            lemma_mean_fits(total as nat, count as nat);
        }
    }
    realm.average_grey_value = if count == 0 {
        0
    } else {
        (total / count as u128) as u8
    };
}

/// Shades the continent from its plate's gradient texture.  Each region
/// takes the texture's value at the point that stands for its site within
/// the continent's box, scaled by the continent's elevation; each province
/// takes the mean of its regions, each realm the mean of its provinces,
/// rounded down.  Fails, and changes nothing, where the continent's box or
/// the texture has no extent.
pub fn assign_gradient_color_to_regions(
    continent: &mut Continent,
    gradient_texture: &GradientTexture,
) -> (outcome: Result<(), WorldError>)
    requires
        gradient_texture.wf(),
    ensures
        match outcome {
            Ok(_) => shadeable(old(continent)@, *gradient_texture) && final(continent)@
                == shaded_continent(old(continent)@, *gradient_texture),
            Err(error) => error == WorldError::DegenerateTexture && !shadeable(
                old(continent)@,
                *gradient_texture,
            ) && final(continent)@ == old(continent)@,
        },
{
    if continent.top_right.x <= continent.bottom_left.x || continent.top_right.y
        <= continent.bottom_left.y || gradient_texture.size.width == 0
        || gradient_texture.size.height == 0 {
        return Err(WorldError::DegenerateTexture);
    }
    let bottom_left = continent.bottom_left;
    let top_right = continent.top_right;
    let elevation = continent.elevation;
    let shade = Ghost(shade_of(continent@, *gradient_texture));
    let count: usize = continent.realms.len();
    let mut i: usize = 0;
    while i < count
        invariant
            i <= count,
            gradient_texture.wf(),
            !degenerate_box(bottom_left, top_right),
            gradient_texture.size.width > 0,
            gradient_texture.size.height > 0,
            shade@ == (Shade {
                bottom_left,
                top_right,
                elevation,
                texture_size: gradient_texture.size,
                texture: gradient_texture@,
            }),
            continent.realms.len() == count,
            count == old(continent).realms.len(),
            continent.grid_coord == old(continent).grid_coord,
            continent.site_point == old(continent).site_point,
            continent.top_right == old(continent).top_right,
            continent.bottom_left == old(continent).bottom_left,
            continent.plate_movement_direction == old(continent).plate_movement_direction,
            continent.elevation == old(continent).elevation,
            forall|j: int|
                0 <= j < i ==> (#[trigger] continent.realms[j])@ == shaded_realm(
                    old(continent).realms[j]@,
                    shade@,
                ),
            forall|j: int| i <= j < count ==> (#[trigger] continent.realms[j]) == old(
                continent,
            ).realms[j],
        decreases count - i,
    {
        shade_realm(
            &mut continent.realms[i],
            shade,
            &bottom_left,
            &top_right,
            elevation,
            gradient_texture,
        );
        i += 1;
    }
    assert(continent@.realms =~= old(continent)@.realms.map_values(realm_shader(shade@)));
    Ok(())
}

/// Every texture of the table has a value for each pixel of its size.
pub open spec fn textures_wf(textures: Seq<GradientTexture>) -> bool {
    forall|d: int| 0 <= d < textures.len() ==> (#[trigger] textures[d]).wf()
}

/// Whether the table of textures, one for each plate direction, has a
/// texture for what a grid cell holds: for a vacant cell it has.
pub open spec fn cell_textured(cell: Option<ContinentView>, textures: Seq<GradientTexture>) -> bool {
    match cell {
        Some(continent) => continent.plate_movement_direction < textures.len(),
        None => true,
    }
}

/// Every continent of the final grid has a texture.
pub open spec fn planet_textured(
    planet: PlanetView,
    final_grid: Size16,
    textures: Seq<GradientTexture>,
) -> bool {
    &&& forall|x: int, y: int|
        in_interior(final_grid, x, y) ==> cell_textured(
            #[trigger] planet.continents.at(x, y),
            textures,
        )
    &&& forall|x: int, y: int|
        on_seam(final_grid, x, y) ==> cell_textured(
            #[trigger] planet.edge_continents.at(x, y),
            textures,
        )
}

/// Whether what a grid cell holds can be shaded from its texture, where
/// the table has one for it: a vacant cell can.
pub open spec fn cell_shadeable(
    cell: Option<ContinentView>,
    textures: Seq<GradientTexture>,
) -> bool {
    match cell {
        Some(continent) => continent.plate_movement_direction < textures.len() ==> shadeable(
            continent,
            textures[continent.plate_movement_direction as int],
        ),
        None => true,
    }
}

/// What a grid cell holds after the shading.  A continent without a
/// texture stays as it is; the shading of a map refuses such a map.
pub open spec fn shaded_cell(cell: Option<ContinentView>, textures: Seq<GradientTexture>) -> Option<
    ContinentView,
> {
    match cell {
        Some(continent) => if continent.plate_movement_direction < textures.len() {
            Some(shaded_continent(continent, textures[continent.plate_movement_direction as int]))
        } else {
            Some(continent)
        },
        None => None,
    }
}

/// Every continent of the final grid that has a texture can be shaded
/// from it.
pub open spec fn planet_shadeable(
    planet: PlanetView,
    final_grid: Size16,
    textures: Seq<GradientTexture>,
) -> bool {
    &&& forall|x: int, y: int|
        in_interior(final_grid, x, y) ==> cell_shadeable(
            #[trigger] planet.continents.at(x, y),
            textures,
        )
    &&& forall|x: int, y: int|
        on_seam(final_grid, x, y) ==> cell_shadeable(
            #[trigger] planet.edge_continents.at(x, y),
            textures,
        )
}

/// The error of a shading that fails: a texture is missing, or, the
/// textures all there, a continent cannot be shaded from its own.
pub open spec fn shading_error(
    planet: PlanetView,
    final_grid: Size16,
    textures: Seq<GradientTexture>,
) -> WorldError {
    if planet_textured(planet, final_grid, textures) {
        WorldError::DegenerateTexture
    } else {
        WorldError::MissingEntity
    }
}

/// The interior after the shading of the interior cells of the final grid.
pub open spec fn shaded_interior(
    grid: GridView,
    final_grid: Size16,
    textures: Seq<GradientTexture>,
) -> GridView {
    GridView {
        size: grid.size,
        columns: Seq::new(
            grid.size.width as nat,
            |x: int|
                Seq::new(
                    grid.size.height as nat,
                    |y: int|
                        if in_interior(final_grid, x, y) {
                            shaded_cell(grid.at(x, y), textures)
                        } else {
                            grid.at(x, y)
                        },
                ),
        ),
    }
}

/// The seam strip after the shading of the seam cells of the final grid.
pub open spec fn shaded_seam(
    grid: GridView,
    final_grid: Size16,
    textures: Seq<GradientTexture>,
) -> GridView {
    GridView {
        size: grid.size,
        columns: Seq::new(
            grid.size.width as nat,
            |x: int|
                Seq::new(
                    grid.size.height as nat,
                    |y: int|
                        if on_seam(final_grid, x, y) {
                            shaded_cell(grid.at(x, y), textures)
                        } else {
                            grid.at(x, y)
                        },
                ),
        ),
    }
}

/// Whether what cell `(x, y)` holds can be shaded.
fn can_shade_cell(
    grid: &ContinentGrid,
    x: u16,
    y: u16,
    gradient_images: &Vec<GradientTexture>,
) -> (ready: bool)
    requires
        grid@.wf(),
    ensures
        ready == cell_shadeable(grid@.at(x as int, y as int), gradient_images@),
{
    match grid.get(x, y) {
        Some(continent) => {
            let direction = continent.plate_movement_direction as usize;
            if direction < gradient_images.len() {
                let texture = &gradient_images[direction];
                !(continent.top_right.x <= continent.bottom_left.x || continent.top_right.y
                    <= continent.bottom_left.y || texture.size.width == 0 || texture.size.height
                    == 0)
            } else {
                true
            }
        },
        None => true,
    }
}

/// Whether every continent of the final grid can be shaded.
fn can_shade(
    planet: &Planet,
    final_grid: &Size16,
    gradient_images: &Vec<GradientTexture>,
) -> (ready: bool)
    requires
        planet@.wf(),
    ensures
        ready == planet_shadeable(planet@, *final_grid, gradient_images@),
{
    let mut x: u16 = 1;
    while x < final_grid.width
        invariant
            1 <= x,
            x <= final_grid.width || x == 1,
            planet@.wf(),
            forall|i: int, j: int|
                1 <= i < x && 1 <= j < final_grid.height ==> cell_shadeable(
                    #[trigger] planet@.continents.at(i, j),
                    gradient_images@,
                ),
            forall|i: int|
                1 <= i < x ==> cell_shadeable(
                    #[trigger] planet@.edge_continents.at(i, 0),
                    gradient_images@,
                ),
        decreases final_grid.width - x,
    {
        if !can_shade_cell(&planet.edge_continents, x, 0, gradient_images) {
            assert(on_seam(*final_grid, x as int, 0));
            return false;
        }
        let mut y: u16 = 1;
        while y < final_grid.height
            invariant
                1 <= x < final_grid.width,
                1 <= y,
                y <= final_grid.height || y == 1,
                planet@.wf(),
                forall|j: int|
                    1 <= j < y ==> cell_shadeable(
                        #[trigger] planet@.continents.at(x as int, j),
                        gradient_images@,
                    ),
            decreases final_grid.height - y,
        {
            if !can_shade_cell(&planet.continents, x, y, gradient_images) {
                assert(in_interior(*final_grid, x as int, y as int));
                return false;
            }
            y += 1;
        }
        x += 1;
    }
    let mut y: u16 = 0;
    while y < final_grid.height
        invariant
            y <= final_grid.height,
            planet@.wf(),
            forall|j: int|
                0 <= j < y ==> cell_shadeable(
                    #[trigger] planet@.edge_continents.at(0, j),
                    gradient_images@,
                ),
        decreases final_grid.height - y,
    {
        if !can_shade_cell(&planet.edge_continents, 0, y, gradient_images) {
            assert(on_seam(*final_grid, 0, y as int));
            return false;
        }
        y += 1;
    }
    true
}

/// Whether what cell `(x, y)` holds has a texture.
fn has_texture_at(
    grid: &ContinentGrid,
    x: u16,
    y: u16,
    gradient_images: &Vec<GradientTexture>,
) -> (ready: bool)
    requires
        grid@.wf(),
    ensures
        ready == cell_textured(grid@.at(x as int, y as int), gradient_images@),
{
    match grid.get(x, y) {
        Some(continent) => (continent.plate_movement_direction as usize) < gradient_images.len(),
        None => true,
    }
}

/// Whether every continent of the final grid has a texture.
fn has_textures(
    planet: &Planet,
    final_grid: &Size16,
    gradient_images: &Vec<GradientTexture>,
) -> (ready: bool)
    requires
        planet@.wf(),
    ensures
        ready == planet_textured(planet@, *final_grid, gradient_images@),
{
    let mut x: u16 = 1;
    while x < final_grid.width
        invariant
            1 <= x,
            x <= final_grid.width || x == 1,
            planet@.wf(),
            forall|i: int, j: int|
                1 <= i < x && 1 <= j < final_grid.height ==> cell_textured(
                    #[trigger] planet@.continents.at(i, j),
                    gradient_images@,
                ),
            forall|i: int|
                1 <= i < x ==> cell_textured(
                    #[trigger] planet@.edge_continents.at(i, 0),
                    gradient_images@,
                ),
        decreases final_grid.width - x,
    {
        if !has_texture_at(&planet.edge_continents, x, 0, gradient_images) {
            assert(on_seam(*final_grid, x as int, 0));
            return false;
        }
        let mut y: u16 = 1;
        while y < final_grid.height
            invariant
                1 <= x < final_grid.width,
                1 <= y,
                y <= final_grid.height || y == 1,
                planet@.wf(),
                forall|j: int|
                    1 <= j < y ==> cell_textured(
                        #[trigger] planet@.continents.at(x as int, j),
                        gradient_images@,
                    ),
            decreases final_grid.height - y,
        {
            if !has_texture_at(&planet.continents, x, y, gradient_images) {
                assert(in_interior(*final_grid, x as int, y as int));
                return false;
            }
            y += 1;
        }
        x += 1;
    }
    let mut y: u16 = 0;
    while y < final_grid.height
        invariant
            y <= final_grid.height,
            planet@.wf(),
            forall|j: int|
                0 <= j < y ==> cell_textured(
                    #[trigger] planet@.edge_continents.at(0, j),
                    gradient_images@,
                ),
        decreases final_grid.height - y,
    {
        if !has_texture_at(&planet.edge_continents, 0, y, gradient_images) {
            assert(on_seam(*final_grid, 0, y as int));
            return false;
        }
        y += 1;
    }
    true
}

/// Shades what cell `(x, y)` holds.
fn shade_cell(grid: &mut ContinentGrid, x: u16, y: u16, gradient_images: &Vec<GradientTexture>)
    requires
        old(grid)@.wf(),
        textures_wf(gradient_images@),
        cell_shadeable(old(grid)@.at(x as int, y as int), gradient_images@),
    ensures
        final(grid)@.wf(),
        final(grid)@.size == old(grid)@.size,
        forall|i: int, j: int| #[trigger]
            final(grid)@.at(i, j) == if i == x && j == y {
                shaded_cell(old(grid)@.at(i, j), gradient_images@)
            } else {
                old(grid)@.at(i, j)
            },
{
    match grid.remove(x, y) {
        Some(continent) => {
            let mut continent = continent;
            let direction = continent.plate_movement_direction as usize;
            if direction < gradient_images.len() {
                let shaded = assign_gradient_color_to_regions(
                    &mut continent,
                    &gradient_images[direction],
                );
            }
            grid.insert(x, y, continent);
        },
        None => {},
    }
}

/// Shades every continent of the final grid from the gradient texture of
/// its plate direction: `gradient_images[d]` is the texture for direction
/// `d`.  The walk covers the interior cells of the final grid and the
/// cells of its seam strip.  Fails, and changes nothing, where the table
/// has no texture for the direction of a continent on the walk, and, the
/// textures all there, where a continent cannot be shaded from its own.
pub fn assign_continent_gradient_to_pixels(
    planet: &mut Planet,
    planet_settings: &PlanetSettings,
    gradient_images: &Vec<GradientTexture>,
) -> (outcome: Result<(), WorldError>)
    requires
        old(planet)@.wf(),
        textures_wf(gradient_images@),
    ensures
        match outcome {
            Ok(_) => {
                &&& planet_textured(
                    old(planet)@,
                    planet_settings.final_continent_grid_size,
                    gradient_images@,
                )
                &&& planet_shadeable(
                    old(planet)@,
                    planet_settings.final_continent_grid_size,
                    gradient_images@,
                )
                &&& final(planet)@.continents == shaded_interior(
                    old(planet)@.continents,
                    planet_settings.final_continent_grid_size,
                    gradient_images@,
                )
                &&& final(planet)@.edge_continents == shaded_seam(
                    old(planet)@.edge_continents,
                    planet_settings.final_continent_grid_size,
                    gradient_images@,
                )
            },
            Err(error) => {
                &&& error == shading_error(
                    old(planet)@,
                    planet_settings.final_continent_grid_size,
                    gradient_images@,
                )
                &&& !(planet_textured(
                    old(planet)@,
                    planet_settings.final_continent_grid_size,
                    gradient_images@,
                ) && planet_shadeable(
                    old(planet)@,
                    planet_settings.final_continent_grid_size,
                    gradient_images@,
                ))
                &&& final(planet)@ == old(planet)@
            },
        },
{
    let final_grid = planet_settings.final_continent_grid_size;
    if !has_textures(planet, &final_grid, gradient_images) {
        return Err(WorldError::MissingEntity);
    }
    if !can_shade(planet, &final_grid, gradient_images) {
        return Err(WorldError::DegenerateTexture);
    }
    let ghost interior = planet@.continents;
    let ghost seam = planet@.edge_continents;
    let mut x: u16 = 1;
    while x < final_grid.width
        invariant
            1 <= x,
            x <= final_grid.width || x == 1,
            textures_wf(gradient_images@),
            planet_shadeable(old(planet)@, final_grid, gradient_images@),
            interior == old(planet)@.continents,
            planet@.continents.wf(),
            planet@.continents.size == interior.size,
            planet@.edge_continents == seam,
            forall|i: int, j: int| #[trigger]
                planet@.continents.at(i, j) == if 1 <= i < x && 1 <= j < final_grid.height {
                    shaded_cell(interior.at(i, j), gradient_images@)
                } else {
                    interior.at(i, j)
                },
        decreases final_grid.width - x,
    {
        let mut y: u16 = 1;
        while y < final_grid.height
            invariant
                1 <= x < final_grid.width,
                1 <= y,
                y <= final_grid.height || y == 1,
                textures_wf(gradient_images@),
                planet_shadeable(old(planet)@, final_grid, gradient_images@),
                interior == old(planet)@.continents,
                planet@.continents.wf(),
                planet@.continents.size == interior.size,
                planet@.edge_continents == seam,
                forall|i: int, j: int| #[trigger]
                    planet@.continents.at(i, j) == if (1 <= i < x && 1 <= j < final_grid.height)
                        || (i == x && 1 <= j < y) {
                        shaded_cell(interior.at(i, j), gradient_images@)
                    } else {
                        interior.at(i, j)
                    },
            decreases final_grid.height - y,
        {
            assert(in_interior(final_grid, x as int, y as int));
            assert(cell_shadeable(interior.at(x as int, y as int), gradient_images@));
            shade_cell(&mut planet.continents, x, y, gradient_images);
            y += 1;
        }
        x += 1;
    }
    proof {
        lemma_grid_ext(planet@.continents, shaded_interior(interior, final_grid, gradient_images@));
    }
    let mut x: u16 = 1;
    while x < final_grid.width
        invariant
            1 <= x,
            x <= final_grid.width || x == 1,
            textures_wf(gradient_images@),
            planet_shadeable(old(planet)@, final_grid, gradient_images@),
            seam == old(planet)@.edge_continents,
            planet@.edge_continents.wf(),
            planet@.edge_continents.size == seam.size,
            planet@.continents == shaded_interior(interior, final_grid, gradient_images@),
            forall|i: int, j: int| #[trigger]
                planet@.edge_continents.at(i, j) == if j == 0 && 1 <= i < x {
                    shaded_cell(seam.at(i, j), gradient_images@)
                } else {
                    seam.at(i, j)
                },
        decreases final_grid.width - x,
    {
        assert(on_seam(final_grid, x as int, 0));
        assert(cell_shadeable(seam.at(x as int, 0), gradient_images@));
        shade_cell(&mut planet.edge_continents, x, 0, gradient_images);
        x += 1;
    }
    let mut y: u16 = 0;
    while y < final_grid.height
        invariant
            y <= final_grid.height,
            textures_wf(gradient_images@),
            planet_shadeable(old(planet)@, final_grid, gradient_images@),
            seam == old(planet)@.edge_continents,
            planet@.edge_continents.wf(),
            planet@.edge_continents.size == seam.size,
            planet@.continents == shaded_interior(interior, final_grid, gradient_images@),
            forall|i: int, j: int| #[trigger]
                planet@.edge_continents.at(i, j) == if (j == 0 && 1 <= i < final_grid.width) || (i
                    == 0 && 0 <= j < y) {
                    shaded_cell(seam.at(i, j), gradient_images@)
                } else {
                    seam.at(i, j)
                },
        decreases final_grid.height - y,
    {
        assert(on_seam(final_grid, 0, y as int));
        assert(cell_shadeable(seam.at(0, y as int), gradient_images@));
        shade_cell(&mut planet.edge_continents, 0, y, gradient_images);
        y += 1;
    }
    proof {
        lemma_grid_ext(planet@.edge_continents, shaded_seam(seam, final_grid, gradient_images@));
    }
    Ok(())
}

} // verus!
