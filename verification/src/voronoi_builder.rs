//! The division of the canvas among the regions by the Voronoi diagram of
//! their sites.

use vstd::prelude::*;
use voronoice::{BoundingBox, ClipBehavior, Point, Voronoi, VoronoiBuilder};
use crate::continent::{region_weight, regions_pixel_count, regions_view, Region, RegionView};
use crate::error::WorldError;
use crate::marks::PixelMarks;
use crate::point::{Bounds, Point16, Size16};
use crate::seed::{seed_bounded, seed_fits};
use crate::sums::{is_pixel, lemma_sum_pointwise, lemma_sum_push, lemma_sum_update};

verus! {

#[verifier::external_type_specification]
#[verifier::external_body]
pub struct ExVoronoi(Voronoi);

/// The sites that a diagram was built from, in their order: cell `i` of
/// the diagram is the cell of site `i`.
pub uninterp spec fn diagram_sites(diagram: Voronoi) -> Seq<Point16>;

/// The diagram that `voronoice` builds from `sites` without clipping,
/// inside a box of the given size around `center`; nothing where the sites
/// span no triangle.
pub uninterp spec fn voronoi_diagram(center: Point16, size: Size16, sites: Seq<Point16>) -> Option<
    Voronoi,
>;

/// The cell at which the walk over the diagram from cell `start` towards
/// the point `(x, y)` ends.
pub uninterp spec fn path_end(diagram: Voronoi, start: int, x: int, y: int) -> int;

/// No site occurs twice.
pub open spec fn sites_distinct(sites: Seq<Point16>) -> bool {
    forall|i: int, j: int| 0 <= i < j < sites.len() ==> sites[i] != sites[j]
}

/// Calls `VoronoiBuilder::build` of `voronoice` on the sites, with clipping
/// off and the box of the given size around `center`.  Believed of it: it
/// returns, the diagram is a function of what is handed over, and it keeps
/// the sites as they are given.  Two kinds of lists are left out, for on
/// them the triangulation beneath the builder may lose a site, and the
/// builder then refuses: sites that coincide, and sites whose seed
/// triangle is not known to be of bounded size.
#[verifier::external_body]
fn build_diagram(
    center: &Point16,
    size: &Size16,
    sites: &Vec<Point16>,
) -> (diagram: Option<Voronoi>)
    requires
        sites_distinct(sites@),
        seed_bounded(sites@),
    ensures
        diagram == voronoi_diagram(*center, *size, sites@),
        diagram matches Some(d) ==> diagram_sites(d) == sites@,
{
    let points: Vec<Point> = sites.iter().map(|s| Point { x: s.x.into(), y: s.y.into() }).collect();
    let middle = Point { x: center.x.into(), y: center.y.into() };
    VoronoiBuilder::default()
        .set_sites(points)
        .set_clip_behavior(ClipBehavior::None)
        .set_bounding_box(BoundingBox::new(middle, size.width.into(), size.height.into()))
        .build()
}

/// Calls `VoronoiCell::iter_path` of `voronoice` from the cell
/// `current_site` towards the point `(x, y)` and takes the last cell of the
/// path.  Believed of it: the path is a function of the diagram, the start
/// and the point; it begins at the start, so it has a last cell; and every
/// cell on it is the cell of a site.  A start that is no cell of the
/// diagram is left out, for the walk refuses it.
#[verifier::external_body]
fn last_on_path(voronoi: &Voronoi, current_site: usize, x: u16, y: u16) -> (last: Option<usize>)
    requires
        current_site < diagram_sites(*voronoi).len(),
    ensures
        last.is_some(),
        last.unwrap() == path_end(*voronoi, current_site as int, x as int, y as int),
        last.unwrap() < diagram_sites(*voronoi).len(),
{
    voronoi.cell(current_site).iter_path(Point { x: x.into(), y: y.into() }).last()
}

/// The middle of a canvas, each coordinate rounded down.
pub open spec fn canvas_center(img_size: Size16) -> Point16 {
    Point16 { x: img_size.width / 2, y: img_size.height / 2 }
}

/// Builds the Voronoi diagram of the sites, unclipped, in a box of the
/// canvas's size around the canvas's middle.  The box only frames the
/// diagram; it clips no cell.  The sites are distinct and start the
/// triangulation from a triangle of bounded size: [`all_distinct`] and
/// [`seed_fits`] test that.
pub fn build(img_size: &Size16, sites: &Vec<Point16>) -> (diagram: Option<Voronoi>)
    requires
        sites_distinct(sites@),
        seed_bounded(sites@),
    ensures
        diagram == voronoi_diagram(canvas_center(*img_size), *img_size, sites@),
        diagram matches Some(d) ==> diagram_sites(d) == sites@,
{
    let center = Point16::new(img_size.width / 2, img_size.height / 2);
    build_diagram(&center, img_size, sites)
}

/// The cell of the diagram that the pixel `(x, y)` is given to: the walk
/// starts at the cell `current_site` and steps from cell to neighbouring
/// cell towards the pixel.
fn get_cell_index(voronoi: &Voronoi, current_site: usize, x: u16, y: u16) -> (cell: usize)
    requires
        current_site < diagram_sites(*voronoi).len(),
    ensures
        cell == path_end(*voronoi, current_site as int, x as int, y as int),
        cell < diagram_sites(*voronoi).len(),
{
    match last_on_path(voronoi, current_site, x, y) {
        Some(cell) => cell,
        None => current_site,
    }
}

/// The cell from which the walk towards pixel `(x, y)` starts, in a scan
/// that goes column by column and, within a column, through the rows
/// `0..rows`: the cell that the pixel scanned just before was given to, and
/// cell 0 for the first pixel.
pub open spec fn scan_start(diagram: Voronoi, rows: int, x: int, y: int) -> int
    decreases x, y,
{
    if x < 0 || y < 0 || rows < 0 {
        0
    } else if y > 0 {
        path_end(diagram, scan_start(diagram, rows, x, y - 1), x, y - 1)
    } else if x > 0 && rows > 0 {
        path_end(diagram, scan_start(diagram, rows, x - 1, rows - 1), x - 1, rows - 1)
    } else if x > 0 {
        scan_start(diagram, rows, x - 1, 0)
    } else {
        0
    }
}

/// The cell that the scan gives pixel `(x, y)` to.
pub open spec fn scan_owner(diagram: Voronoi, rows: int, x: int, y: int) -> int {
    path_end(diagram, scan_start(diagram, rows, x, y), x, y)
}

/// The pixels that the scan has given to cell `cell` when it comes to
/// pixel `(x, y)`, in scan order.
pub open spec fn scanned(diagram: Voronoi, rows: int, cell: int, x: int, y: int) -> Seq<(u16, u16)>
    decreases x, y,
{
    if x < 0 || y < 0 || rows < 0 {
        Seq::empty()
    } else if y > 0 {
        let before = scanned(diagram, rows, cell, x, y - 1);
        if scan_owner(diagram, rows, x, y - 1) == cell {
            before.push((x as u16, (y - 1) as u16))
        } else {
            before
        }
    } else if x > 0 {
        scanned(diagram, rows, cell, x - 1, rows)
    } else {
        Seq::empty()
    }
}

/// How many columns and rows of a canvas the scan covers: all but the last
/// of each.
pub open spec fn scan_extent(img_size: Size16) -> (int, int) {
    (
        if img_size.width > 0 {
            img_size.width - 1
        } else {
            0
        },
        if img_size.height > 0 {
            img_size.height - 1
        } else {
            0
        },
    )
}

/// How often the scan has come to the pixel `px` when it comes to pixel
/// `(x, y)`: once if `px` comes before `(x, y)`, and not at all otherwise.
pub open spec fn scanned_before(px: (u16, u16), rows: int, x: int, y: int) -> nat {
    if (px.0 < x && px.1 < rows) || (px.0 == x && px.1 < y) {
        1
    } else {
        0
    }
}

/// Whether the scan of a canvas comes to the pixel `px`.
pub open spec fn in_scan(px: (u16, u16), img_size: Size16) -> bool {
    px.0 < scan_extent(img_size).0 && px.1 < scan_extent(img_size).1
}

/// Region `cell` after the scan of the canvas: the pixels that the scan
/// gave to its cell come behind those it had, and its box is the smallest
/// around all of them.
pub open spec fn rasterized_region(
    region: RegionView,
    diagram: Voronoi,
    img_size: Size16,
    cell: int,
) -> RegionView {
    let extent = scan_extent(img_size);
    let pixels = region.pixels + scanned(diagram, extent.1, cell, extent.0, 0);
    RegionView {
        pixels,
        bottom_left: Bounds::of_pixels(pixels).bottom_left,
        top_right: Bounds::of_pixels(pixels).top_right,
        ..region
    }
}

/// The regions after the scan of the canvas.
pub open spec fn rasterized(regions: Seq<RegionView>, diagram: Voronoi, img_size: Size16) -> Seq<
    RegionView,
> {
    Seq::new(regions.len(), |i: int| rasterized_region(regions[i], diagram, img_size, i))
}

/// Every pixel that the scan has handed out when it comes to pixel
/// `(x, y)` is one that it came to before.
pub proof fn lemma_scanned_before_here(diagram: Voronoi, rows: int, cell: int, x: int, y: int)
    requires
        0 <= x <= u16::MAX,
        0 <= y <= rows <= u16::MAX,
    ensures
        forall|k: int|
            0 <= k < scanned(diagram, rows, cell, x, y).len() ==> scanned_before(
                #[trigger] scanned(diagram, rows, cell, x, y)[k],
                rows,
                x,
                y,
            ) == 1,
    decreases x, y,
{
    if y > 0 {
        lemma_scanned_before_here(diagram, rows, cell, x, y - 1);
        let before = scanned(diagram, rows, cell, x, y - 1);
        let now = scanned(diagram, rows, cell, x, y);
        assert forall|k: int| 0 <= k < now.len() implies scanned_before(
            #[trigger] now[k],
            rows,
            x,
            y,
        ) == 1 by {
            if k < before.len() {
                assert(now[k] == before[k]);
            }
        }
    } else if x > 0 {
        lemma_scanned_before_here(diagram, rows, cell, x - 1, rows);
        let before = scanned(diagram, rows, cell, x - 1, rows);
        let now = scanned(diagram, rows, cell, x, y);
        assert(now == before);
        assert forall|k: int| 0 <= k < now.len() implies scanned_before(
            #[trigger] now[k],
            rows,
            x,
            y,
        ) == 1 by {
            assert(scanned_before(before[k], rows, x - 1, rows) == 1);
        }
    }
}

/// The scan keeps the boxes right and the pixels on the canvas: after it,
/// the box of every region is the smallest around the region's pixels, and
/// a region whose pixels lay on the canvas has them there still.
pub proof fn lemma_rasterized_fits(
    regions: Seq<RegionView>,
    diagram: Voronoi,
    img_size: Size16,
    i: int,
)
    requires
        0 <= i < regions.len(),
    ensures
        rasterized(regions, diagram, img_size)[i].bounds_exact(),
        regions[i].within(img_size) ==> rasterized(regions, diagram, img_size)[i].within(img_size),
{
    let extent = scan_extent(img_size);
    lemma_scanned_before_here(diagram, extent.1, i, extent.0, 0);
    let given = scanned(diagram, extent.1, i, extent.0, 0);
    let after = rasterized(regions, diagram, img_size)[i];
    if regions[i].within(img_size) {
        assert forall|k: int| 0 <= k < after.pixels.len() implies (#[trigger] after.pixels[k]).0
            < img_size.width && after.pixels[k].1 < img_size.height by {
            if k < regions[i].pixels.len() {
                assert(after.pixels[k] == regions[i].pixels[k]);
            } else {
                assert(after.pixels[k] == given[k - regions[i].pixels.len()]);
            }
        }
    }
}

/// Scans the canvas and gives every pixel to the region of the diagram's
/// cell that holds it; then fits each region's box around its pixels.  The
/// scan goes column by column, each from row 0 up, and leaves out the last
/// column and the last row.  The walk to a pixel's cell starts at the cell
/// of the pixel before.
pub fn rasterize(diagram: &Voronoi, img_size: &Size16, regions: &mut Vec<Region>)
    requires
        diagram_sites(*diagram).len() == old(regions).len(),
    ensures
        regions_view(final(regions)@) == rasterized(regions_view(old(regions)@), *diagram, *img_size),
        old(regions).len() > 0 ==> forall|px: (u16, u16)| #[trigger]
            regions_pixel_count(regions_view(final(regions)@), px) == regions_pixel_count(
                regions_view(old(regions)@),
                px,
            ) + if in_scan(px, *img_size) {
                1nat
            } else {
                0nat
            },
        final(regions).len() == old(regions).len(),
        forall|i: int|
            0 <= i < final(regions).len() ==> (#[trigger] final(regions)[i])@.bounds_exact(),
{
    let count: usize = regions.len();
    let columns: u16 = if img_size.width > 0 { img_size.width - 1 } else { 0 };
    let rows: u16 = if img_size.height > 0 { img_size.height - 1 } else { 0 };
    let ghost start = regions_view(regions@);
    if count == 0 {
        assert(start =~= rasterized(start, *diagram, *img_size));
        return ;
    }
    let mut last_site_index: usize = 0;
    let mut x: u16 = 0;
    while x < columns
        invariant
            x <= columns,
            regions.len() == count,
            start.len() == count,
            diagram_sites(*diagram).len() == count,
            last_site_index < count,
            last_site_index == scan_start(*diagram, rows as int, x as int, 0),
            forall|i: int|
                0 <= i < count ==> (#[trigger] regions[i])@ == (RegionView {
                    pixels: start[i].pixels + scanned(*diagram, rows as int, i, x as int, 0),
                    ..start[i]
                }),
            forall|px: (u16, u16)| #[trigger]
                regions_pixel_count(regions_view(regions@), px) == regions_pixel_count(start, px)
                    + scanned_before(px, rows as int, x as int, 0),
        decreases columns - x,
    {
        let mut y: u16 = 0;
        while y < rows
            invariant
                x < columns,
                y <= rows,
                regions.len() == count,
                start.len() == count,
                diagram_sites(*diagram).len() == count,
                last_site_index < count,
                last_site_index == scan_start(*diagram, rows as int, x as int, y as int),
                forall|i: int|
                    0 <= i < count ==> (#[trigger] regions[i])@ == (RegionView {
                        pixels: start[i].pixels + scanned(*diagram, rows as int, i, x as int, y as int),
                        ..start[i]
                    }),
                forall|px: (u16, u16)| #[trigger]
                    regions_pixel_count(regions_view(regions@), px) == regions_pixel_count(
                        start,
                        px,
                    ) + scanned_before(px, rows as int, x as int, y as int),
            decreases rows - y,
        {
            let site_index = get_cell_index(diagram, last_site_index, x, y);
            last_site_index = site_index;
            let ghost before = regions@;
            regions[site_index].pixels.push((x, y));
            proof {
                assert forall|i: int| 0 <= i < count implies (#[trigger] regions[i])@
                    == (RegionView {
                    pixels: start[i].pixels + scanned(*diagram, rows as int, i, x as int, y + 1),
                    ..start[i]
                }) by {
                    if i == site_index {
                        assert(regions[i]@.pixels =~= start[i].pixels + scanned(
                            *diagram,
                            rows as int,
                            i,
                            x as int,
                            y + 1,
                        ));
                    } else {
                        assert(regions[i] == before[i]);
                    }
                }
                let was = regions_view(before);
                let now = regions_view(regions@);
                assert(now =~= was.update(site_index as int, now[site_index as int]));
                assert forall|px: (u16, u16)| #[trigger]
                    regions_pixel_count(now, px) == regions_pixel_count(start, px)
                        + scanned_before(px, rows as int, x as int, y + 1) by {
                    lemma_sum_update(was, site_index as int, now[site_index as int], region_weight(px));
                    lemma_sum_push(was[site_index as int].pixels, (x, y), is_pixel(px));
                    assert(now[site_index as int].pixels =~= was[site_index as int].pixels.push(
                        (x, y),
                    ));
                    assert(regions_pixel_count(was, px) == regions_pixel_count(start, px)
                        + scanned_before(px, rows as int, x as int, y as int));
                }
            }
            y += 1;
        }
        x += 1;
    }
    let ghost scanned_over = regions_view(regions@);
    assert forall|px: (u16, u16)|
        scanned_before(px, rows as int, x as int, 0) == if in_scan(px, *img_size) {
            1nat
        } else {
            0nat
        } by {}
    let mut i: usize = 0;
    while i < count
        invariant
            i <= count,
            regions.len() == count,
            start.len() == count,
            x == columns,
            columns == scan_extent(*img_size).0,
            rows == scan_extent(*img_size).1,
            forall|k: int|
                0 <= k < i ==> (#[trigger] regions[k])@ == rasterized_region(
                    start[k],
                    *diagram,
                    *img_size,
                    k,
                ),
            forall|k: int|
                i <= k < count ==> (#[trigger] regions[k])@ == (RegionView {
                    pixels: start[k].pixels + scanned(*diagram, rows as int, k, x as int, 0),
                    ..start[k]
                }),
        decreases count - i,
    {
        regions[i].fit_bounds();
        i += 1;
    }
    assert(regions_view(regions@) =~= rasterized(start, *diagram, *img_size));
    proof {
        assert forall|i: int| 0 <= i < regions.len() implies (#[trigger] regions[i])@.bounds_exact() by {
            lemma_rasterized_fits(start, *diagram, *img_size, i);
            assert(regions_view(regions@)[i] == regions[i]@);
        }
        let now = regions_view(regions@);
        assert forall|px: (u16, u16)| #[trigger]
            regions_pixel_count(now, px) == regions_pixel_count(start, px) + if in_scan(
                px,
                *img_size,
            ) {
                1nat
            } else {
                0nat
            } by {
            lemma_sum_pointwise(now, region_weight(px), scanned_over, region_weight(px));
            assert(regions_pixel_count(scanned_over, px) == regions_pixel_count(start, px)
                + scanned_before(px, rows as int, x as int, 0));
        }
    }
}

/// Whether no site occurs twice.
pub fn all_distinct(sites: &Vec<Point16>) -> (distinct: bool)
    ensures
        distinct == sites_distinct(sites@),
{
    let mut seen = PixelMarks::new();
    let mut i: usize = 0;
    while i < sites.len()
        invariant
            i <= sites.len(),
            forall|a: int, b: int| 0 <= a < b < i ==> sites[a] != sites[b],
            forall|k: int| 0 <= k < i ==> seen@.contains_key((#[trigger] sites[k].x, sites[k].y)),
            forall|px: (u16, u16)|
                seen@.contains_key(px) ==> exists|k: int|
                    0 <= k < i && (#[trigger] sites[k]).x == px.0 && sites[k].y == px.1,
        decreases sites.len() - i,
    {
        let site = sites[i];
        if seen.contains_key((site.x, site.y)) {
            let ghost k = choose|k: int|
                0 <= k < i && (#[trigger] sites[k]).x == site.x && sites[k].y == site.y;
            assert(sites[k] == sites[i as int]);
            return false;
        }
        seen.insert((site.x, site.y), false);
        assert forall|px: (u16, u16)| seen@.contains_key(px) implies exists|k: int|
            0 <= k < i + 1 && (#[trigger] sites[k]).x == px.0 && sites[k].y == px.1 by {
            if px == (site.x, site.y) {
                assert(sites[i as int].x == px.0);
            } else {
                let k = choose|k: int|
                    0 <= k < i && (#[trigger] sites[k]).x == px.0 && sites[k].y == px.1;
                assert(sites[k].x == px.0);
            }
        }
        i += 1;
    }
    true
}

/// The site of each region, in list order.
pub open spec fn region_sites(regions: Seq<RegionView>) -> Seq<Point16> {
    regions.map_values(|r: RegionView| r.site_point)
}

/// Builds the Voronoi diagram of the regions' sites on the canvas and
/// gives every scanned pixel to the region whose cell holds it, as
/// [`rasterize`] does.  Fails, and changes nothing, where two regions share
/// a site, where the sites start the triangulation from a triangle that is
/// not known to be of bounded size, and where the sites span no triangle.
pub fn build_voronoi_and_apply_site_pixels_and_corners(
    img_size: &Size16,
    regions: &mut Vec<Region>,
) -> (outcome: Result<(), WorldError>)
    ensures
        match outcome {
            Ok(_) => {
                &&& sites_distinct(region_sites(regions_view(old(regions)@)))
                &&& seed_bounded(region_sites(regions_view(old(regions)@)))
                &&& voronoi_diagram(
                    canvas_center(*img_size),
                    *img_size,
                    region_sites(regions_view(old(regions)@)),
                ) matches Some(diagram)
                &&& regions_view(final(regions)@) == rasterized(
                    regions_view(old(regions)@),
                    diagram,
                    *img_size,
                )
                &&& old(regions).len() > 0 ==> forall|px: (u16, u16)| #[trigger]
                    regions_pixel_count(regions_view(final(regions)@), px) == regions_pixel_count(
                        regions_view(old(regions)@),
                        px,
                    ) + if in_scan(px, *img_size) {
                        1nat
                    } else {
                        0nat
                    }
                &&& forall|i: int|
                    0 <= i < final(regions).len() ==> (#[trigger] final(regions)[i])@.bounds_exact()
            },
            Err(error) => {
                &&& error == WorldError::DegenerateSites
                &&& !sites_distinct(region_sites(regions_view(old(regions)@))) || !seed_bounded(
                    region_sites(regions_view(old(regions)@)),
                ) || voronoi_diagram(
                    canvas_center(*img_size),
                    *img_size,
                    region_sites(regions_view(old(regions)@)),
                ) is None
                &&& final(regions)@ == old(regions)@
            },
        },
{
    let mut sites: Vec<Point16> = Vec::new();
    let mut i: usize = 0;
    while i < regions.len()
        invariant
            i <= regions.len(),
            regions@ == old(regions)@,
            sites.len() == i,
            forall|k: int| 0 <= k < i ==> (#[trigger] sites[k]) == regions[k].site_point,
        decreases regions.len() - i,
    {
        sites.push(regions[i].site_point);
        i += 1;
    }
    assert(sites@ =~= region_sites(regions_view(regions@)));
    if !all_distinct(&sites) || !seed_fits(&sites) {
        return Err(WorldError::DegenerateSites);
    }
    match build(img_size, &sites) {
        Some(voronoi) => {
            rasterize(&voronoi, img_size, regions);
            Ok(())
        },
        None => Err(WorldError::DegenerateSites),
    }
}

/// A region around each site, in the order of the sites, none with a pixel
/// yet.
pub fn build_regions_and_assign_sites(sites: Vec<Point16>) -> (regions: Vec<Region>)
    ensures
        regions.len() == sites.len(),
        forall|i: int|
            0 <= i < sites.len() ==> (#[trigger] regions[i])@ == (RegionView {
                site_point: sites[i],
                top_right: Bounds::empty().top_right,
                bottom_left: Bounds::empty().bottom_left,
                grey_value: 0,
                pixels: Seq::empty(),
            }),
{
    let mut regions: Vec<Region> = Vec::new();
    let mut i: usize = 0;
    while i < sites.len()
        invariant
            i <= sites.len(),
            regions.len() == i,
            forall|k: int|
                0 <= k < i ==> (#[trigger] regions[k])@ == (RegionView {
                    site_point: sites[k],
                    top_right: Bounds::empty().top_right,
                    bottom_left: Bounds::empty().bottom_left,
                    grey_value: 0,
                    pixels: Seq::empty(),
                }),
        decreases sites.len() - i,
    {
        regions.push(Region::new(sites[i]));
        i += 1;
    }
    regions
}

} // verus!
