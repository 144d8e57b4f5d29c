//! The drawing of sites: scattered over the canvas for the regions, and one
//! in every grid cell for the levels above.

use vstd::prelude::*;
use rand::rngs::StdRng;
use rand::Rng;
use crate::continent::{
    provinces_view, realms_view, Continent, ContinentView, Province, ProvinceView, Realm, RealmView,
};
use crate::error::WorldError;
use crate::grid::ContinentGrid;
use crate::hierarchy::{covers, last_at, province_keys, realm_keys};
use crate::point::{calculate_distance, distance_squared_spec, Bounds, Point16, Size16};
use crate::settings::{ContinentBuilderSettings, PlanetSettings};

verus! {

#[verifier::external_type_specification]
#[verifier::external_body]
pub struct ExStdRng(StdRng);

/// How often, for each site asked for, the sampler may draw a candidate
/// before it gives up.
pub const MAX_ATTEMPTS_PER_SITE: u64 = 1024;

/// Calls `Rng::gen_range` of `rand` on the range `0..bound`.  Believed of
/// it: the number drawn lies in the range.  The empty range is left out,
/// for `gen_range` refuses it.
#[verifier::external_body]
pub(crate) fn random_below(rng: &mut StdRng, bound: u16) -> (value: u16)
    requires
        bound > 0,
    ensures
        value < bound,
{
    rng.gen_range(0..bound)
}

/// Two sites keep their distance: they are at least one pixel apart.
pub open spec fn separated(a: Point16, b: Point16) -> bool {
    distance_squared_spec(a, b) >= 1
}

/// Every site lies on the canvas, and any two keep their distance.
pub open spec fn well_scattered(sites: Seq<Point16>, canvas: Size16) -> bool {
    &&& forall|i: int|
        0 <= i < sites.len() ==> (#[trigger] sites[i]).x < canvas.width && sites[i].y < canvas.height
    &&& forall|i: int, j: int| 0 <= i < j < sites.len() ==> separated(sites[i], sites[j])
}

/// Sites that keep their distance are distinct.
pub proof fn lemma_separated_distinct(a: Point16, b: Point16)
    ensures
        separated(a, b) <==> a != b,
{
    let dx = a.x - b.x;
    let dy = a.y - b.y;
    assert(dx * dx >= 0) by (nonlinear_arith);
    assert(dy * dy >= 0) by (nonlinear_arith);
    if dx != 0 {
        assert(dx * dx >= 1) by (nonlinear_arith)
            requires
                dx != 0,
        ;
    }
    if dy != 0 {
        assert(dy * dy >= 1) by (nonlinear_arith)
            requires
                dy != 0,
        ;
    }
}

/// Takes `candidate` as a new site if it keeps its distance from every site
/// taken so far, and says whether it did.
pub fn try_place_site(sites: &mut Vec<Point16>, candidate: Point16) -> (placed: bool)
    ensures
        placed == (forall|i: int|
            0 <= i < old(sites).len() ==> separated(#[trigger] old(sites)[i], candidate)),
        final(sites)@ == if placed {
            old(sites)@.push(candidate)
        } else {
            old(sites)@
        },
{
    let mut i: usize = 0;
    while i < sites.len()
        invariant
            i <= sites.len(),
            sites@ == old(sites)@,
            forall|k: int| 0 <= k < i ==> separated(#[trigger] sites[k], candidate),
        decreases sites.len() - i,
    {
        if calculate_distance(&sites[i], &candidate) < 1 {
            return false;
        }
        i += 1;
    }
    sites.push(candidate);
    true
}

/// Scatters `count` sites over the canvas: candidates are drawn at random,
/// and one that does not keep its distance from the sites taken so far is
/// drawn again.  Gives up where the canvas has fewer pixels than sites are
/// asked for, and where [`MAX_ATTEMPTS_PER_SITE`] draws for each site asked
/// for have not placed them all.
pub fn generate_scattered_sites(rng: &mut StdRng, img_size: &Size16, count: usize) -> (outcome:
    Result<Vec<Point16>, WorldError>)
    ensures
        match outcome {
            Ok(sites) => sites.len() == count && well_scattered(sites@, *img_size),
            Err(error) => error == WorldError::SamplingExhaustion && count > 0,
        },
        count > img_size.width * img_size.height ==> outcome is Err,
        count == 0 ==> outcome is Ok,
{
    assert(img_size.width * img_size.height <= 65535 * 65535) by (nonlinear_arith)
        requires
            img_size.width <= 65535,
            img_size.height <= 65535,
    ;
    let area: u64 = img_size.width as u64 * img_size.height as u64;
    let mut sites: Vec<Point16> = Vec::new();
    if count == 0 {
        return Ok(sites);
    }
    if count as u64 > area {
        return Err(WorldError::SamplingExhaustion);
    }
    assert(img_size.width > 0 && img_size.height > 0) by (nonlinear_arith)
        requires
            img_size.width * img_size.height >= 1,
            img_size.width >= 0,
            img_size.height >= 0,
    ;
    let budget: u64 = count as u64 * MAX_ATTEMPTS_PER_SITE;
    let mut attempts: u64 = 0;
    while sites.len() < count
        invariant
            attempts <= budget,
            sites.len() <= count,
            count > 0,
            img_size.width > 0,
            img_size.height > 0,
            well_scattered(sites@, *img_size),
        decreases budget - attempts,
    {
        if attempts == budget {
            return Err(WorldError::SamplingExhaustion);
        }
        attempts += 1;
        let x = random_below(rng, img_size.width);
        let y = random_below(rng, img_size.height);
        try_place_site(&mut sites, Point16::new(x, y));
    }
    Ok(sites)
}

/// How many sites are scattered for a region grid: one for every two
/// columns, times one for every two rows.
pub fn region_site_count(region_grid_size: &Size16) -> (count: usize)
    ensures
        count == (region_grid_size.width / 2) * (region_grid_size.height / 2),
{
    let across: u32 = (region_grid_size.width / 2) as u32;
    let up: u32 = (region_grid_size.height / 2) as u32;
    assert(across * up <= 32767 * 32767) by (nonlinear_arith)
        requires
            across <= 32767,
            up <= 32767,
    ;
    (across * up) as usize
}

/// How many compass buckets a plate's direction is drawn from.
pub const PLATE_DIRECTIONS: u8 = 16;

/// The least elevation factor of a plate, in thousandths.
pub const MIN_ELEVATION: u16 = 200;

/// The bound that the elevation factor of a plate stays below, in
/// thousandths.
pub const MAX_ELEVATION: u16 = 700;

/// Draws the direction of a plate: one of the compass buckets.
pub fn get_random_degrees_index(rng: &mut StdRng) -> (index: u8)
    ensures
        index < PLATE_DIRECTIONS,
{
    random_below(rng, 16) as u8
}

/// Draws the elevation factor of a plate, in thousandths.
pub fn get_random_tectonic_elevation(rng: &mut StdRng) -> (elevation: u16)
    ensures
        MIN_ELEVATION <= elevation < MAX_ELEVATION,
{
    200 + random_below(rng, 500)
}

/// The site lies in the grid cell `cell`, for cells of the given size.
pub open spec fn cell_holds(site: Point16, cell: Point16, cell_size: Size16) -> bool {
    &&& cell.x * cell_size.width <= site.x < (cell.x + 1) * cell_size.width
    &&& cell.y * cell_size.height <= site.y < (cell.y + 1) * cell_size.height
}

/// The grid fits the canvas of sixteen-bit coordinates: its cells have an
/// extent, and the last of them ends on the canvas.
pub open spec fn grid_fits(grid: Size16, cell_size: Size16) -> bool {
    &&& cell_size.width > 0
    &&& cell_size.height > 0
    &&& grid.width * cell_size.width <= u16::MAX
    &&& grid.height * cell_size.height <= u16::MAX
}

/// The site that lies `jitter` pixels into the grid cell `cell`.
pub fn jittered_site(cell: &Point16, cell_size: &Size16, jitter: &Point16) -> (site: Point16)
    requires
        jitter.x < cell_size.width,
        jitter.y < cell_size.height,
        (cell.x + 1) * cell_size.width <= u16::MAX,
        (cell.y + 1) * cell_size.height <= u16::MAX,
    ensures
        site.x == cell.x * cell_size.width + jitter.x,
        site.y == cell.y * cell_size.height + jitter.y,
        cell_holds(site, *cell, *cell_size),
{
    assert(cell.x * cell_size.width + cell_size.width == (cell.x + 1) * cell_size.width)
        by (nonlinear_arith);
    assert(cell.y * cell_size.height + cell_size.height == (cell.y + 1) * cell_size.height)
        by (nonlinear_arith);
    assert(cell.x * cell_size.width >= 0) by (nonlinear_arith);
    assert(cell.y * cell_size.height >= 0) by (nonlinear_arith);
    Point16 {
        x: cell.x * cell_size.width + jitter.x,
        y: cell.y * cell_size.height + jitter.y,
    }
}

/// One grid cell comes before another in the walk over the grid, column
/// by column.
pub open spec fn comes_before(a: Point16, b: Point16) -> bool {
    a.x < b.x || (a.x == b.x && a.y < b.y)
}

/// The keys are those of one parent for each cell of the grid, in the
/// order of the walk over the grid, each with its site in its own cell.
pub open spec fn one_per_cell(
    keys: Seq<(Point16, Point16)>,
    grid: Size16,
    cell_size: Size16,
) -> bool {
    &&& keys.len() == grid.width * grid.height
    &&& forall|k: int|
        0 <= k < keys.len() ==> {
            &&& (#[trigger] keys[k]).0.x < grid.width
            &&& keys[k].0.y < grid.height
            &&& cell_holds(keys[k].1, keys[k].0, cell_size)
        }
    &&& forall|a: int, b: int| 0 <= a < b < keys.len() ==> comes_before(keys[a].0, keys[b].0)
    &&& grid.width > 0 && grid.height > 0 ==> covers(keys, grid)
}

/// Draws a site in every cell of the grid: the cell's origin plus an
/// offset drawn inside the cell.
fn jittered_grid(
    rng: &mut StdRng,
    grid: &Size16,
    cell_size: &Size16,
) -> (keys: Vec<(Point16, Point16)>)
    requires
        grid_fits(*grid, *cell_size),
    ensures
        one_per_cell(keys@, *grid, *cell_size),
{
    let mut keys: Vec<(Point16, Point16)> = Vec::new();
    let mut x: u16 = 0;
    while x < grid.width
        invariant
            x <= grid.width,
            grid_fits(*grid, *cell_size),
            keys.len() == x * grid.height,
            forall|k: int|
                0 <= k < keys.len() ==> {
                    &&& (#[trigger] keys[k]).0.x < x
                    &&& keys[k].0.y < grid.height
                    &&& cell_holds(keys[k].1, keys[k].0, *cell_size)
                },
            forall|a: int, b: int| 0 <= a < b < keys.len() ==> comes_before(keys[a].0, keys[b].0),
            forall|i: int, j: int|
                0 <= i < x && 0 <= j < grid.height ==> (#[trigger] last_at(keys@, i, j)).is_some(),
        decreases grid.width - x,
    {
        let mut y: u16 = 0;
        while y < grid.height
            invariant
                x < grid.width,
                y <= grid.height,
                grid_fits(*grid, *cell_size),
                keys.len() == x * grid.height + y,
                forall|k: int|
                    0 <= k < keys.len() ==> {
                        &&& comes_before((#[trigger] keys[k]).0, Point16 { x, y })
                        &&& keys[k].0.y < grid.height
                        &&& cell_holds(keys[k].1, keys[k].0, *cell_size)
                    },
                forall|a: int, b: int|
                    0 <= a < b < keys.len() ==> comes_before(keys[a].0, keys[b].0),
                forall|i: int, j: int|
                    (0 <= i < x && 0 <= j < grid.height) || (i == x && 0 <= j < y) ==> (
                    #[trigger] last_at(keys@, i, j)).is_some(),
            decreases grid.height - y,
        {
            assert((x + 1) * cell_size.width <= grid.width * cell_size.width) by (nonlinear_arith)
                requires
                    x + 1 <= grid.width,
                    cell_size.width >= 0,
            ;
            assert((y + 1) * cell_size.height <= grid.height * cell_size.height)
                by (nonlinear_arith)
                requires
                    y + 1 <= grid.height,
                    cell_size.height >= 0,
            ;
            assert(x * grid.height + y + 1 <= grid.width * grid.height) by (nonlinear_arith)
                requires
                    x + 1 <= grid.width,
                    y + 1 <= grid.height,
                    x >= 0,
            ;
            assert(grid.width * grid.height <= 65535 * 65535) by (nonlinear_arith)
                requires
                    grid.width <= 65535,
                    grid.height <= 65535,
            ;
            let random_x = random_below(rng, cell_size.width);
            let random_y = random_below(rng, cell_size.height);
            let cell = Point16::new(x, y);
            let site = jittered_site(&cell, cell_size, &Point16::new(random_x, random_y));
            let ghost before = keys@;
            keys.push((cell, site));
            proof {
                assert(keys@.drop_last() =~= before);
                assert forall|i: int, j: int|
                    (0 <= i < x && 0 <= j < grid.height) || (i == x && 0 <= j < y + 1) implies (
                #[trigger] last_at(keys@, i, j)).is_some() by {
                    if !(i == x && j == y) {
                        assert(last_at(before, i, j).is_some());
                    }
                }
            }
            y += 1;
        }
        assert((x + 1) * grid.height == x * grid.height + grid.height) by (nonlinear_arith);
        x += 1;
    }
    keys
}

/// A province without regions for every cell of the province grid, in the
/// order of the walk over the grid, column by column; each has its site at
/// a place drawn at random inside its cell.
pub fn build_provinces_and_generate_sites(
    rng: &mut StdRng,
    settings: &ContinentBuilderSettings,
) -> (provinces: Vec<Province>)
    requires
        grid_fits(settings.province_grid_size, settings.province_cell_size),
    ensures
        one_per_cell(
            province_keys(provinces_view(provinces@)),
            settings.province_grid_size,
            settings.province_cell_size,
        ),
        forall|k: int|
            0 <= k < provinces.len() ==> (#[trigger] provinces[k])@ == (ProvinceView {
                grid_coord: provinces[k].grid_coord,
                site_point: provinces[k].site_point,
                top_right: Bounds::empty().top_right,
                bottom_left: Bounds::empty().bottom_left,
                average_grey_value: 0,
                regions: Seq::empty(),
            }),
{
    let keys = jittered_grid(rng, &settings.province_grid_size, &settings.province_cell_size);
    let mut provinces: Vec<Province> = Vec::new();
    let mut k: usize = 0;
    while k < keys.len()
        invariant
            k <= keys.len(),
            provinces.len() == k,
            forall|i: int|
                0 <= i < k ==> (#[trigger] provinces[i])@ == (ProvinceView {
                    grid_coord: keys[i].0,
                    site_point: keys[i].1,
                    top_right: Bounds::empty().top_right,
                    bottom_left: Bounds::empty().bottom_left,
                    average_grey_value: 0,
                    regions: Seq::empty(),
                }),
        decreases keys.len() - k,
    {
        provinces.push(Province::new(keys[k].0, keys[k].1));
        k += 1;
    }
    assert(province_keys(provinces_view(provinces@)) =~= keys@);
    provinces
}

/// A realm without provinces for every cell of the realm grid, in the
/// order of the walk over the grid, column by column; each has its site at
/// a place drawn at random inside its cell.
pub fn build_realms_and_generate_sites(
    rng: &mut StdRng,
    settings: &ContinentBuilderSettings,
) -> (realms: Vec<Realm>)
    requires
        grid_fits(settings.realm_grid_size, settings.realm_cell_size),
    ensures
        one_per_cell(
            realm_keys(realms_view(realms@)),
            settings.realm_grid_size,
            settings.realm_cell_size,
        ),
        forall|k: int|
            0 <= k < realms.len() ==> (#[trigger] realms[k])@ == (RealmView {
                grid_coord: realms[k].grid_coord,
                site_point: realms[k].site_point,
                top_right: Bounds::empty().top_right,
                bottom_left: Bounds::empty().bottom_left,
                average_grey_value: 0,
                provinces: Seq::empty(),
            }),
{
    let keys = jittered_grid(rng, &settings.realm_grid_size, &settings.realm_cell_size);
    let mut realms: Vec<Realm> = Vec::new();
    let mut k: usize = 0;
    while k < keys.len()
        invariant
            k <= keys.len(),
            realms.len() == k,
            forall|i: int|
                0 <= i < k ==> (#[trigger] realms[i])@ == (RealmView {
                    grid_coord: keys[i].0,
                    site_point: keys[i].1,
                    top_right: Bounds::empty().top_right,
                    bottom_left: Bounds::empty().bottom_left,
                    average_grey_value: 0,
                    provinces: Seq::empty(),
                }),
        decreases keys.len() - k,
    {
        realms.push(Realm::new(keys[k].0, keys[k].1));
        k += 1;
    }
    assert(realm_keys(realms_view(realms@)) =~= keys@);
    realms
}

/// What a freshly drawn continent at cell `(x, y)` is: it stands at its
/// cell with its site inside it, has a direction and an elevation within
/// their ranges, and holds nothing yet.
pub open spec fn fresh_continent(
    continent: ContinentView,
    x: int,
    y: int,
    cell_size: Size16,
) -> bool {
    &&& continent.grid_coord.x == x
    &&& continent.grid_coord.y == y
    &&& cell_holds(continent.site_point, continent.grid_coord, cell_size)
    &&& continent.plate_movement_direction < PLATE_DIRECTIONS
    &&& MIN_ELEVATION <= continent.elevation < MAX_ELEVATION
    &&& continent.bounds() == Bounds::empty()
    &&& continent.realms == Seq::<RealmView>::empty()
}

/// A continent without realms for every cell of the continent grid, each
/// with its site at a place drawn at random inside its cell, and with a
/// plate direction and an elevation drawn at random.
pub fn build_continents_with_site(
    rng: &mut StdRng,
    planet_settings: &PlanetSettings,
) -> (continents: ContinentGrid)
    requires
        grid_fits(planet_settings.continent_grid_size, planet_settings.continent_cell_size),
    ensures
        continents@.wf(),
        continents@.size == planet_settings.continent_grid_size,
        forall|x: int, y: int|
            continents@.has_cell(x, y) ==> (#[trigger] continents@.at(x, y)).is_some()
                && fresh_continent(
                continents@.at(x, y).unwrap(),
                x,
                y,
                planet_settings.continent_cell_size,
            ),
{
    let grid = planet_settings.continent_grid_size;
    let cell_size = planet_settings.continent_cell_size;
    let mut continents = ContinentGrid::new(grid);
    let mut x: u16 = 0;
    while x < grid.width
        invariant
            x <= grid.width,
            grid_fits(grid, cell_size),
            continents@.wf(),
            continents@.size == grid,
            forall|i: int, j: int|
                0 <= i < x && 0 <= j < grid.height ==> (#[trigger] continents@.at(i, j)).is_some()
                    && fresh_continent(continents@.at(i, j).unwrap(), i, j, cell_size),
        decreases grid.width - x,
    {
        let mut y: u16 = 0;
        while y < grid.height
            invariant
                x < grid.width,
                y <= grid.height,
                grid_fits(grid, cell_size),
                continents@.wf(),
                continents@.size == grid,
                forall|i: int, j: int|
                    (0 <= i < x && 0 <= j < grid.height) || (i == x && 0 <= j < y) ==> (
                    #[trigger] continents@.at(i, j)).is_some() && fresh_continent(
                        continents@.at(i, j).unwrap(),
                        i,
                        j,
                        cell_size,
                    ),
            decreases grid.height - y,
        {
            assert((x + 1) * cell_size.width <= grid.width * cell_size.width) by (nonlinear_arith)
                requires
                    x + 1 <= grid.width,
                    cell_size.width >= 0,
            ;
            assert((y + 1) * cell_size.height <= grid.height * cell_size.height)
                by (nonlinear_arith)
                requires
                    y + 1 <= grid.height,
                    cell_size.height >= 0,
            ;
            let random_x = random_below(rng, cell_size.width);
            let random_y = random_below(rng, cell_size.height);
            let cell = Point16::new(x, y);
            let site = jittered_site(&cell, &cell_size, &Point16::new(random_x, random_y));
            let direction = get_random_degrees_index(rng);
            let elevation = get_random_tectonic_elevation(rng);
            continents.insert(x, y, Continent::new(cell, site, direction, elevation));
            y += 1;
        }
        x += 1;
    }
    continents
}

} // verus!
