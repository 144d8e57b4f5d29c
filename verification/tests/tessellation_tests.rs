use world::continent::Region;
use world::error::WorldError;
use world::point::{calculate_distance, Point16, Size16};
use world::seed::seed_fits;
use world::voronoi_builder::{
    all_distinct, build, build_regions_and_assign_sites,
    build_voronoi_and_apply_site_pixels_and_corners, rasterize,
};

fn sample_sites() -> Vec<Point16> {
    vec![
        Point16::new(2, 2),
        Point16::new(12, 3),
        Point16::new(7, 12),
        Point16::new(13, 13),
        Point16::new(4, 8),
    ]
}

fn check_partition(canvas: &Size16, regions: &Vec<Region>) {
    let columns = canvas.width as usize - 1;
    let rows = canvas.height as usize - 1;
    let mut owners = vec![0usize; columns * rows];
    for region in regions {
        for px in &region.pixels {
            assert!((px.0 as usize) < columns && (px.1 as usize) < rows);
            owners[px.0 as usize * rows + px.1 as usize] += 1;
        }
    }
    assert!(owners.iter().all(|count| *count == 1));
}

#[test]
fn regions_start_without_pixels() {
    let regions = build_regions_and_assign_sites(sample_sites());
    assert_eq!(regions.len(), 5);
    for (region, site) in regions.iter().zip(sample_sites()) {
        assert_eq!(region.site_point, site);
        assert_eq!(region.bottom_left, Point16::new(u16::MAX, u16::MAX));
        assert_eq!(region.top_right, Point16::new(0, 0));
        assert_eq!(region.grey_value, 0);
        assert!(region.pixels.is_empty());
    }
}

#[test]
fn every_scanned_pixel_has_one_owner() {
    let canvas = Size16::new(16, 16);
    let mut regions = build_regions_and_assign_sites(sample_sites());
    assert_eq!(build_voronoi_and_apply_site_pixels_and_corners(&canvas, &mut regions), Ok(()));
    let total: usize = regions.iter().map(|r| r.pixels.len()).sum();
    assert_eq!(total, 15 * 15);
    check_partition(&canvas, &regions);
}

#[test]
fn every_pixel_goes_to_a_nearest_site() {
    let canvas = Size16::new(16, 16);
    let sites = sample_sites();
    let mut regions = build_regions_and_assign_sites(sample_sites());
    assert_eq!(build_voronoi_and_apply_site_pixels_and_corners(&canvas, &mut regions), Ok(()));
    for region in &regions {
        assert!(!region.pixels.is_empty());
        for px in &region.pixels {
            let at = Point16::new(px.0, px.1);
            let own = calculate_distance(&region.site_point, &at);
            let least = sites.iter().map(|s| calculate_distance(s, &at)).min().unwrap();
            assert_eq!(own, least);
        }
    }
}

#[test]
fn pixels_come_in_scan_order() {
    let canvas = Size16::new(16, 16);
    let mut regions = build_regions_and_assign_sites(sample_sites());
    assert_eq!(build_voronoi_and_apply_site_pixels_and_corners(&canvas, &mut regions), Ok(()));
    for region in &regions {
        for pair in region.pixels.windows(2) {
            assert!(pair[0] < pair[1]);
        }
    }
}

#[test]
fn boxes_are_the_smallest_around_the_pixels() {
    let canvas = Size16::new(16, 16);
    let mut regions = build_regions_and_assign_sites(sample_sites());
    assert_eq!(build_voronoi_and_apply_site_pixels_and_corners(&canvas, &mut regions), Ok(()));
    for region in &regions {
        let min_x = region.pixels.iter().map(|p| p.0).min().unwrap();
        let min_y = region.pixels.iter().map(|p| p.1).min().unwrap();
        let max_x = region.pixels.iter().map(|p| p.0).max().unwrap();
        let max_y = region.pixels.iter().map(|p| p.1).max().unwrap();
        assert_eq!(region.bottom_left, Point16::new(min_x, min_y));
        assert_eq!(region.top_right, Point16::new(max_x, max_y));
    }
}

#[test]
fn the_last_column_and_row_are_left_out() {
    let canvas = Size16::new(9, 6);
    let mut regions = build_regions_and_assign_sites(vec![
        Point16::new(1, 1),
        Point16::new(7, 2),
        Point16::new(4, 4),
    ]);
    assert_eq!(build_voronoi_and_apply_site_pixels_and_corners(&canvas, &mut regions), Ok(()));
    let total: usize = regions.iter().map(|r| r.pixels.len()).sum();
    assert_eq!(total, 8 * 5);
    check_partition(&canvas, &regions);
}

#[test]
fn a_canvas_of_one_column_is_not_scanned() {
    let canvas = Size16::new(1, 16);
    let mut regions = build_regions_and_assign_sites(sample_sites());
    assert_eq!(build_voronoi_and_apply_site_pixels_and_corners(&canvas, &mut regions), Ok(()));
    for region in &regions {
        assert!(region.pixels.is_empty());
        assert_eq!(region.bottom_left, Point16::new(u16::MAX, u16::MAX));
        assert_eq!(region.top_right, Point16::new(0, 0));
    }
}

#[test]
fn sites_on_a_line_have_no_diagram() {
    let canvas = Size16::new(16, 16);
    let mut regions = build_regions_and_assign_sites(vec![
        Point16::new(1, 1),
        Point16::new(2, 2),
        Point16::new(3, 3),
    ]);
    assert_eq!(
        build_voronoi_and_apply_site_pixels_and_corners(&canvas, &mut regions),
        Err(WorldError::DegenerateSites)
    );
    assert!(regions.iter().all(|r| r.pixels.is_empty()));
}

#[test]
fn two_sites_have_no_diagram() {
    let canvas = Size16::new(16, 16);
    let mut regions =
        build_regions_and_assign_sites(vec![Point16::new(1, 1), Point16::new(9, 2)]);
    assert_eq!(
        build_voronoi_and_apply_site_pixels_and_corners(&canvas, &mut regions),
        Err(WorldError::DegenerateSites)
    );
}

#[test]
fn no_site_and_one_site_have_no_diagram() {
    let canvas = Size16::new(16, 16);
    let mut none = build_regions_and_assign_sites(Vec::new());
    assert_eq!(
        build_voronoi_and_apply_site_pixels_and_corners(&canvas, &mut none),
        Err(WorldError::DegenerateSites)
    );
    let mut one = build_regions_and_assign_sites(vec![Point16::new(5, 5)]);
    assert_eq!(
        build_voronoi_and_apply_site_pixels_and_corners(&canvas, &mut one),
        Err(WorldError::DegenerateSites)
    );
    assert!(build(&canvas, &Vec::new()).is_none());
}

#[test]
fn sites_on_a_lattice_have_a_diagram() {
    let canvas = Size16::new(13, 13);
    let mut sites = Vec::new();
    for x in 0..4u16 {
        for y in 0..4u16 {
            sites.push(Point16::new(x * 4, y * 4));
        }
    }
    let mut regions = build_regions_and_assign_sites(sites.clone());
    assert_eq!(build_voronoi_and_apply_site_pixels_and_corners(&canvas, &mut regions), Ok(()));
    check_partition(&canvas, &regions);
    for region in &regions {
        for px in &region.pixels {
            let at = Point16::new(px.0, px.1);
            let own = calculate_distance(&region.site_point, &at);
            let least = sites.iter().map(|s| calculate_distance(s, &at)).min().unwrap();
            assert_eq!(own, least);
        }
    }
}

#[test]
fn a_site_given_twice_is_refused() {
    let canvas = Size16::new(16, 16);
    let mut sites = sample_sites();
    sites.push(Point16::new(12, 3));
    assert!(!all_distinct(&sites));
    let mut regions = build_regions_and_assign_sites(sites);
    assert_eq!(
        build_voronoi_and_apply_site_pixels_and_corners(&canvas, &mut regions),
        Err(WorldError::DegenerateSites)
    );
    assert!(regions.iter().all(|r| r.pixels.is_empty()));
}

#[test]
fn distinct_sites_are_told_apart() {
    assert!(all_distinct(&sample_sites()));
    assert!(all_distinct(&Vec::new()));
    assert!(all_distinct(&vec![Point16::new(1, 2), Point16::new(2, 1)]));
    assert!(!all_distinct(&vec![Point16::new(1, 2), Point16::new(2, 1), Point16::new(1, 2)]));
}

#[test]
fn rasterize_keeps_the_pixels_that_a_region_had() {
    let canvas = Size16::new(16, 16);
    let sites = sample_sites();
    let diagram = build(&canvas, &sites).unwrap();
    let mut regions = build_regions_and_assign_sites(sample_sites());
    regions[0].pixels.push((200, 300));
    rasterize(&diagram, &canvas, &mut regions);
    assert_eq!(regions[0].pixels[0], (200, 300));
    assert_eq!(regions[0].top_right, Point16::new(200, 300));
    let total: usize = regions.iter().map(|r| r.pixels.len()).sum();
    assert_eq!(total, 15 * 15 + 1);
}

#[test]
fn the_same_sites_give_the_same_regions() {
    let canvas = Size16::new(16, 16);
    let mut first = build_regions_and_assign_sites(sample_sites());
    let mut second = build_regions_and_assign_sites(sample_sites());
    assert_eq!(build_voronoi_and_apply_site_pixels_and_corners(&canvas, &mut first), Ok(()));
    assert_eq!(build_voronoi_and_apply_site_pixels_and_corners(&canvas, &mut second), Ok(()));
    for (a, b) in first.iter().zip(second.iter()) {
        assert_eq!(a.pixels, b.pixels);
    }
}

#[test]
fn a_new_region_has_the_box_that_encloses_nothing() {
    let region = Region::new(Point16::new(7, 9));
    assert_eq!(region.site_point, Point16::new(7, 9));
    assert_eq!(region.bottom_left, Point16::new(u16::MAX, u16::MAX));
    assert_eq!(region.top_right, Point16::new(u16::MIN, u16::MIN));
    assert!(region.pixels.is_empty());
}

#[test]
fn fit_bounds_draws_the_box_around_the_pixels() {
    let mut region = Region::new(Point16::new(0, 0));
    region.pixels = vec![(4, 9), (2, 11), (6, 3)];
    region.fit_bounds();
    assert_eq!(region.bottom_left, Point16::new(2, 3));
    assert_eq!(region.top_right, Point16::new(6, 11));
    region.pixels.clear();
    region.fit_bounds();
    assert_eq!(region.bottom_left, Point16::new(u16::MAX, u16::MAX));
    assert_eq!(region.top_right, Point16::new(0, 0));
}

#[test]
fn sites_with_a_near_seed_fit() {
    assert!(seed_fits(&sample_sites()));
    assert!(seed_fits(&Vec::new()));
    assert!(seed_fits(&vec![Point16::new(3, 3)]));
    // two sites, and sites on one line, make no triangle at all
    assert!(seed_fits(&vec![Point16::new(3, 3), Point16::new(9, 4)]));
    assert!(seed_fits(&vec![Point16::new(0, 0), Point16::new(4, 4), Point16::new(9, 9)]));
    // a right triangle with legs of 1024: the circumradius squared is 524288
    assert!(seed_fits(&vec![Point16::new(0, 0), Point16::new(1024, 0), Point16::new(0, 1024)]));
}

#[test]
fn sites_with_a_far_seed_do_not_fit() {
    let sites = vec![
        Point16::new(0, 0),
        Point16::new(1, 0),
        Point16::new(2, 0),
        Point16::new(3, 0),
        Point16::new(65535, 1),
    ];
    assert!(all_distinct(&sites));
    assert!(!seed_fits(&sites));
    let canvas = Size16::new(16, 16);
    let mut regions = build_regions_and_assign_sites(sites);
    assert_eq!(
        build_voronoi_and_apply_site_pixels_and_corners(&canvas, &mut regions),
        Err(WorldError::DegenerateSites)
    );
    assert!(regions.iter().all(|r| r.pixels.is_empty()));
}

#[test]
fn the_seed_bound_is_sharp() {
    // the sites (0, 0), (2, 0) and (1, h) lie on a circle of radius (1 + h * h) / (2 * h)
    let near = vec![Point16::new(0, 0), Point16::new(2, 0), Point16::new(1, 20000)];
    assert!(seed_fits(&near));
    // three sites with a circumradius above 2^20: (0, 0), (1, 0) and (60000, 1)
    let far = vec![Point16::new(0, 0), Point16::new(1, 0), Point16::new(60000, 1)];
    assert!(!seed_fits(&far));
}
