use rand::rngs::StdRng;
use rand::SeedableRng;
use std::collections::HashSet;
use world::continent::Continent;
use world::error::WorldError;
use world::grid::{ContinentGrid, Planet};
use world::hierarchy::{
    assign_provinces_to_realms, assign_realms_to_continents, assign_regions_to_provinces,
};
use world::pixels_utils::collect_pixels;
use world::planet_builder::build_planet;
use world::point::{Point16, Size16};
use world::seam::merge_continents;
use world::seamless::{merge_centered_continents, move_continents_pixels_towards_edge};
use world::settings::{builder_settings, create_planet_settings};
use world::shader::GradientTexture;
use world::sites::{
    build_continents_with_site, build_provinces_and_generate_sites,
    build_realms_and_generate_sites,
};
use world::voronoi_builder::{
    build_regions_and_assign_sites, build_voronoi_and_apply_site_pixels_and_corners,
};

fn gradient(size: u16, rising: bool) -> GradientTexture {
    let mut columns = Vec::new();
    for x in 0..size {
        let mut column = Vec::new();
        for y in 0..size {
            let step = if rising { x + y } else { 2 * size - 2 - x - y };
            column.push((step * 255 / (2 * size - 2)) as u8);
        }
        columns.push(column);
    }
    GradientTexture { size: Size16::new(size, size), columns }
}

fn all_pixels(grid: &ContinentGrid) -> Vec<(u16, u16)> {
    let mut all = Vec::new();
    for x in 0..grid.size.width {
        for y in 0..grid.size.height {
            if let Some(continent) = grid.get(x, y) {
                all.extend(collect_pixels(continent));
            }
        }
    }
    all
}

fn planet_pixels(planet: &Planet) -> Vec<(u16, u16)> {
    let mut all = all_pixels(&planet.edge_continents);
    all.extend(all_pixels(&planet.continents));
    all
}

fn assert_no_pixel_twice(pixels: &Vec<(u16, u16)>) {
    let distinct: HashSet<(u16, u16)> = pixels.iter().copied().collect();
    assert_eq!(distinct.len(), pixels.len());
}

fn nothing_vacant(continent: &Continent) -> bool {
    continent.realms.iter().all(|realm| {
        !realm.provinces.is_empty()
            && realm.provinces.iter().all(|province| {
                !province.regions.is_empty()
                    && province.regions.iter().all(|region| !region.pixels.is_empty())
            })
    })
}

#[test]
fn sixteen_regions_share_a_canvas_of_sixteen_pixels_square() {
    let settings = create_planet_settings(8, 8, 4, 4, 4, 2).unwrap();
    assert_eq!(settings.img_size, Size16::new(16, 16));
    let builder = builder_settings(&settings, 4, 4, 4).unwrap();
    let mut sites = Vec::new();
    for x in 0..4u16 {
        for y in 0..4u16 {
            sites.push(Point16::new(x * 4 + (x + y) % 3 + 1, y * 4 + (2 * x + y) % 3));
        }
    }
    let mut regions = build_regions_and_assign_sites(sites);
    assert_eq!(build_voronoi_and_apply_site_pixels_and_corners(&settings.img_size, &mut regions), Ok(()));
    assert_eq!(regions.len(), 16);
    let scanned: Vec<(u16, u16)> = regions.iter().flat_map(|r| r.pixels.clone()).collect();
    assert_eq!(scanned.len(), 15 * 15);
    assert_no_pixel_twice(&scanned);

    let mut rng = StdRng::seed_from_u64(16);
    let mut provinces = build_provinces_and_generate_sites(&mut rng, &builder);
    assert_eq!(assign_regions_to_provinces(regions, &mut provinces, &builder), Ok(()));
    let mut realms = build_realms_and_generate_sites(&mut rng, &builder);
    assert_eq!(assign_provinces_to_realms(provinces, &mut realms, &builder), Ok(()));
    let mut continents = build_continents_with_site(&mut rng, &settings);
    assert_eq!(assign_realms_to_continents(realms, &mut continents, &settings), Ok(()));
    let mut held = all_pixels(&continents);
    held.sort();
    let mut expected = scanned.clone();
    expected.sort();
    assert_eq!(held, expected);

    let margin = all_pixels_of_margin(&continents);
    let (seam, interior) = merge_continents(&mut continents).unwrap();
    let mut planet = Planet { edge_continents: seam, continents: interior };
    let before = planet_pixels(&planet);
    assert_eq!(before.len() + margin, 15 * 15);
    assert_no_pixel_twice(&before);

    move_continents_pixels_towards_edge(&mut planet, &settings);
    let after = planet_pixels(&planet);
    assert_eq!(after.len(), before.len());
    assert_no_pixel_twice(&after);
    let moved: HashSet<(u16, u16)> = after.iter().copied().collect();
    for px in &before {
        assert!(moved.contains(&((px.0 + 8) % 16, (px.1 + 8) % 16)));
    }
    if before.contains(&(0, 0)) {
        assert!(moved.contains(&(8, 8)));
    }
}

fn all_pixels_of_margin(continents: &ContinentGrid) -> usize {
    let mut count = 0;
    for x in 0..continents.size.width {
        for y in 0..continents.size.height {
            if x == 0 || y == 0 {
                count += collect_pixels(continents.get(x, y).unwrap()).len();
            }
        }
    }
    count
}

#[test]
fn a_built_planet_holds_no_pixel_twice() {
    let settings = create_planet_settings(96, 96, 48, 24, 12, 4).unwrap();
    assert!(settings.is_valid());
    assert_eq!(settings.img_size, Size16::new(144, 144));
    assert_eq!(settings.final_continent_grid_size, Size16::new(4, 4));
    let textures: Vec<GradientTexture> = (0..16).map(|d| gradient(128, d % 2 == 0)).collect();
    let mut rng = StdRng::seed_from_u64(2024);
    let mut planet = build_planet(&mut rng, &settings, &textures).unwrap();
    assert_eq!(planet.continents.size, Size16::new(4, 4));
    assert_eq!(planet.edge_continents.size, Size16::new(4, 4));
    let pixels = planet_pixels(&planet);
    assert!(!pixels.is_empty());
    assert!(pixels.iter().all(|px| px.0 < 144 && px.1 < 144));
    assert_no_pixel_twice(&pixels);
    for x in 0..4u16 {
        for y in 0..4u16 {
            assert_eq!(planet.edge_continents.contains_key(x, y), x == 0 || y == 0);
            assert_eq!(planet.continents.contains_key(x, y), x > 0 && y > 0);
        }
    }

    assert_eq!(merge_centered_continents(&mut planet, &settings), Ok(()));
    let merged = planet_pixels(&planet);
    assert_eq!(merged.len(), pixels.len());
    assert_no_pixel_twice(&merged);
    assert!(nothing_vacant(planet.edge_continents.get(0, 0).unwrap()));
    assert!(nothing_vacant(planet.edge_continents.get(2, 0).unwrap()));
    assert!(nothing_vacant(planet.edge_continents.get(0, 2).unwrap()));
    for i in 1..3u16 {
        assert!(nothing_vacant(planet.continents.get(i, 2).unwrap()));
        assert!(nothing_vacant(planet.continents.get(2, i).unwrap()));
    }
}

#[test]
fn a_built_planet_is_shaded_within_its_elevation() {
    let settings = create_planet_settings(96, 96, 48, 24, 12, 4).unwrap();
    let flat = |value: u8| GradientTexture {
        size: Size16::new(2, 2),
        columns: vec![vec![value, value], vec![value, value]],
    };
    let textures: Vec<GradientTexture> = (0..16).map(|_| flat(200)).collect();
    let mut rng = StdRng::seed_from_u64(7);
    let planet = build_planet(&mut rng, &settings, &textures).unwrap();
    let mut seen = 0;
    for grid in [&planet.edge_continents, &planet.continents] {
        for x in 0..4u16 {
            for y in 0..4u16 {
                if let Some(continent) = grid.get(x, y) {
                    let expected = (200u32 * continent.elevation as u32 / 1000) as u8;
                    for realm in &continent.realms {
                        for province in &realm.provinces {
                            for region in &province.regions {
                                assert_eq!(region.grey_value, expected);
                                seen += 1;
                            }
                            if !province.regions.is_empty() {
                                assert_eq!(province.average_grey_value, expected);
                            }
                        }
                    }
                }
            }
        }
    }
    assert!(seen > 0);
}

#[test]
fn the_same_seed_builds_the_same_planet() {
    let settings = create_planet_settings(96, 96, 48, 24, 12, 4).unwrap();
    let textures: Vec<GradientTexture> = (0..16).map(|d| gradient(128, d % 2 == 0)).collect();
    let mut first = StdRng::seed_from_u64(5);
    let mut second = StdRng::seed_from_u64(5);
    let a = build_planet(&mut first, &settings, &textures).unwrap();
    let b = build_planet(&mut second, &settings, &textures).unwrap();
    assert_eq!(planet_pixels(&a), planet_pixels(&b));
}

#[test]
fn a_planet_is_not_built_without_textures() {
    let settings = create_planet_settings(96, 96, 48, 24, 12, 4).unwrap();
    let textures: Vec<GradientTexture> = Vec::new();
    let mut rng = StdRng::seed_from_u64(5);
    assert_eq!(build_planet(&mut rng, &settings, &textures).err(), Some(WorldError::MissingEntity));
}

#[test]
fn a_built_planet_is_whole_and_its_boxes_are_right() {
    let settings = create_planet_settings(96, 96, 48, 24, 12, 4).unwrap();
    let textures: Vec<GradientTexture> = (0..16).map(|d| gradient(128, d % 2 == 0)).collect();
    let mut rng = StdRng::seed_from_u64(11);
    let planet = build_planet(&mut rng, &settings, &textures).unwrap();
    for x in 0..4u16 {
        for y in 0..4u16 {
            let cell = if x == 0 || y == 0 {
                planet.edge_continents.get(x, y)
            } else {
                planet.continents.get(x, y)
            };
            let continent = cell.unwrap();
            let held = collect_pixels(continent);
            if !held.is_empty() {
                let low_x = held.iter().map(|px| px.0).min().unwrap();
                let low_y = held.iter().map(|px| px.1).min().unwrap();
                let high_x = held.iter().map(|px| px.0).max().unwrap();
                let high_y = held.iter().map(|px| px.1).max().unwrap();
                assert_eq!(continent.bottom_left, Point16::new(low_x, low_y));
                assert_eq!(continent.top_right, Point16::new(high_x, high_y));
            }
            for realm in &continent.realms {
                for province in &realm.provinces {
                    for region in &province.regions {
                        // a region that the scan gave no pixel has the box that encloses nothing
                        let low_x = region.pixels.iter().map(|px| px.0).min().unwrap_or(u16::MAX);
                        let high_y = region.pixels.iter().map(|px| px.1).max().unwrap_or(0);
                        assert_eq!(region.bottom_left.x, low_x);
                        assert_eq!(region.top_right.y, high_y);
                    }
                }
            }
        }
    }
}

#[test]
fn a_built_planet_cannot_be_folded_again() {
    let settings = create_planet_settings(96, 96, 48, 24, 12, 4).unwrap();
    let textures: Vec<GradientTexture> = (0..16).map(|d| gradient(128, d % 2 == 0)).collect();
    let mut rng = StdRng::seed_from_u64(21);
    let mut planet = build_planet(&mut rng, &settings, &textures).unwrap();
    let before = planet_pixels(&planet);
    assert_eq!(merge_continents(&mut planet.continents).err(), Some(WorldError::MissingEntity));
    assert_eq!(merge_continents(&mut planet.edge_continents).err(), Some(WorldError::MissingEntity));
    assert_eq!(planet_pixels(&planet), before);
    for x in 1..4u16 {
        for y in 1..4u16 {
            assert_eq!(planet.continents.get(x, y).unwrap().grid_coord, Point16::new(x, y));
        }
    }
}
