use rand::rngs::StdRng;
use rand::SeedableRng;
use world::color::{light_pixel_value, Color8};
use world::continent::{Continent, Province, Realm, Region};
use world::grid::{ContinentGrid, Planet};
use world::image_builder::{
    build_planet_image, build_provinces_image, build_realms_image, build_regions_image,
    debug_color, debug_planet_image, draw_continent, Ink, Raster,
};
use world::point::{Point16, Size16};
use world::settings::{builder_settings, create_planet_settings};

fn region_of(grey: u8, pixels: &[(u16, u16)]) -> Region {
    let mut region = Region::new(Point16::new(0, 0));
    region.grey_value = grey;
    region.pixels = pixels.to_vec();
    region
}

fn province_of(regions: Vec<Region>) -> Province {
    let mut province = Province::new(Point16::new(0, 0), Point16::new(0, 0));
    province.regions = regions;
    province
}

fn realm_of(provinces: Vec<Province>) -> Realm {
    let mut realm = Realm::new(Point16::new(0, 0), Point16::new(0, 0));
    realm.provinces = provinces;
    realm
}

fn continent_of(grey: u8, pixels: &[(u16, u16)]) -> Continent {
    let mut continent = Continent::new(Point16::new(0, 0), Point16::new(0, 0), 0, 200);
    continent.realms.push(realm_of(vec![province_of(vec![region_of(grey, pixels)])]));
    continent
}

fn grey(value: u8) -> Color8 {
    Color8::new(value, value, value)
}

#[test]
fn a_new_raster_is_black() {
    let raster = Raster::new(Size16::new(3, 2));
    assert_eq!(raster.columns.len(), 3);
    for x in 0..3u16 {
        for y in 0..2u16 {
            assert_eq!(raster.get_pixel(x, y), Some(Color8::new(0, 0, 0)));
        }
    }
    assert_eq!(raster.get_pixel(3, 0), None);
    assert_eq!(raster.get_pixel(0, 2), None);
}

#[test]
fn paint_draws_on_the_image_only() {
    let mut raster = Raster::new(Size16::new(3, 2));
    raster.paint(&vec![(1, 1), (3, 0), (0, 2), (2, 0)], Color8::new(9, 8, 7));
    assert_eq!(raster.get_pixel(1, 1), Some(Color8::new(9, 8, 7)));
    assert_eq!(raster.get_pixel(2, 0), Some(Color8::new(9, 8, 7)));
    assert_eq!(raster.get_pixel(0, 0), Some(Color8::new(0, 0, 0)));
    assert_eq!(raster.get_pixel(1, 0), Some(Color8::new(0, 0, 0)));
}

#[test]
fn a_continent_is_drawn_in_grey_or_in_one_colour() {
    let mut continent = continent_of(100, &[(0, 0), (1, 1)]);
    continent.realms[0].provinces[0].regions.push(region_of(50, &[(1, 1), (2, 1)]));
    let mut raster = Raster::new(Size16::new(3, 2));
    draw_continent(&mut raster, Some(&continent), &Ink::Grey);
    assert_eq!(raster.get_pixel(0, 0), Some(grey(100)));
    assert_eq!(raster.get_pixel(1, 1), Some(grey(50)));
    assert_eq!(raster.get_pixel(2, 1), Some(grey(50)));
    draw_continent(&mut raster, Some(&continent), &Ink::Plain(Color8::new(1, 2, 3)));
    assert_eq!(raster.get_pixel(0, 0), Some(Color8::new(1, 2, 3)));
    assert_eq!(raster.get_pixel(2, 1), Some(Color8::new(1, 2, 3)));
    assert_eq!(raster.get_pixel(2, 0), Some(Color8::new(0, 0, 0)));
    draw_continent(&mut raster, None, &Ink::Grey);
    assert_eq!(raster.get_pixel(0, 0), Some(Color8::new(1, 2, 3)));
}

fn small_planet() -> Planet {
    let mut edge = ContinentGrid::new(Size16::new(2, 2));
    let mut interior = ContinentGrid::new(Size16::new(2, 2));
    interior.insert(1, 1, continent_of(10, &[(0, 0), (1, 1), (7, 7), (8, 8)]));
    edge.insert(1, 0, continent_of(20, &[(1, 1), (2, 2)]));
    edge.insert(0, 0, continent_of(30, &[(2, 2), (3, 3)]));
    edge.insert(0, 1, continent_of(40, &[(3, 3), (4, 4), (0, 9)]));
    // not on the final grid: never drawn
    interior.insert(0, 0, continent_of(99, &[(5, 5)]));
    edge.insert(1, 1, continent_of(99, &[(6, 6)]));
    Planet { edge_continents: edge, continents: interior }
}

#[test]
fn the_planet_image_shows_the_seam_over_the_interior() {
    let settings = create_planet_settings(8, 8, 4, 4, 4, 2).unwrap();
    let raster = build_planet_image(&small_planet(), &settings);
    assert_eq!(raster.size, Size16::new(8, 8));
    assert_eq!(raster.get_pixel(0, 0), Some(grey(10)));
    assert_eq!(raster.get_pixel(1, 1), Some(grey(20)));
    assert_eq!(raster.get_pixel(2, 2), Some(grey(30)));
    assert_eq!(raster.get_pixel(3, 3), Some(grey(40)));
    assert_eq!(raster.get_pixel(4, 4), Some(grey(40)));
    assert_eq!(raster.get_pixel(7, 7), Some(grey(10)));
    assert_eq!(raster.get_pixel(5, 5), Some(grey(0)));
    assert_eq!(raster.get_pixel(6, 6), Some(grey(0)));
    assert_eq!(raster.get_pixel(8, 8), None);
}

#[test]
fn the_inspection_image_in_final_colours_is_the_planet_image() {
    let settings = create_planet_settings(8, 8, 4, 4, 4, 2).unwrap();
    let planet = small_planet();
    let mut rng = StdRng::seed_from_u64(1);
    let shown = debug_planet_image(&mut rng, &planet, &settings, true, true, false);
    assert_eq!(shown.columns, build_planet_image(&planet, &settings).columns);
    let centre = debug_planet_image(&mut rng, &planet, &settings, true, true, true);
    assert_eq!(centre.get_pixel(1, 1), Some(grey(10)));
    assert_eq!(centre.get_pixel(2, 2), Some(grey(0)));
}

#[test]
fn the_inspection_image_marks_the_cells() {
    let settings = create_planet_settings(8, 8, 4, 4, 4, 2).unwrap();
    let planet = small_planet();
    let mut rng = StdRng::seed_from_u64(1);
    let shown = debug_planet_image(&mut rng, &planet, &settings, false, false, false);
    assert_eq!(shown.size, Size16::new(16, 16));
    assert_eq!(shown.get_pixel(2, 2), Some(Color8::new(255, 255, 255)));
    let interior = shown.get_pixel(0, 0).unwrap();
    assert_eq!(interior.r, interior.g);
    assert_eq!(interior.g, interior.b);
    assert!((60..=190).contains(&interior.r));
    let column = shown.get_pixel(0, 9).unwrap();
    assert_eq!(column.r, 240);
    assert!((60..=190).contains(&column.g) && (60..=190).contains(&column.b));
    let row = shown.get_pixel(1, 1).unwrap();
    assert_eq!(row.b, 240);
    // cells that the walk does not come to are not drawn
    assert_eq!(shown.get_pixel(5, 5), Some(Color8::new(0, 0, 0)));
    assert_eq!(shown.get_pixel(6, 6), Some(Color8::new(0, 0, 0)));
}

#[test]
fn debug_colours_go_by_the_cell() {
    assert_eq!(debug_color(0, 0, 70, 80), Color8::new(255, 255, 255));
    assert_eq!(debug_color(0, 3, 70, 80), Color8::new(240, 70, 80));
    assert_eq!(debug_color(3, 0, 70, 80), Color8::new(70, 80, 240));
    assert_eq!(debug_color(3, 3, 70, 80), Color8::new(70, 70, 70));
}

#[test]
fn regions_provinces_and_realms_get_a_colour_each() {
    let planet_settings = create_planet_settings(8, 8, 4, 4, 4, 2).unwrap();
    let settings = builder_settings(&planet_settings, 4, 4, 4).unwrap();
    let regions = vec![region_of(0, &[(0, 0), (0, 1)]), region_of(0, &[(5, 5), (40, 40)])];
    let mut rng = StdRng::seed_from_u64(3);
    let image = build_regions_image(&mut rng, &settings, &regions);
    assert_eq!(image.size, Size16::new(16, 16));
    assert_eq!(image.get_pixel(0, 0), image.get_pixel(0, 1));
    // the colours come from the generator, three values for each region in turn
    let mut again = StdRng::seed_from_u64(3);
    let mut colour = || {
        let r = rand::Rng::gen_range(&mut again, 0..256u16) as u8;
        let g = rand::Rng::gen_range(&mut again, 0..256u16) as u8;
        let b = rand::Rng::gen_range(&mut again, 0..256u16) as u8;
        Color8::new(r, g, b)
    };
    assert_eq!(image.get_pixel(0, 0), Some(colour()));
    assert_eq!(image.get_pixel(5, 5), Some(colour()));
    assert_eq!(image.get_pixel(9, 9), Some(Color8::new(0, 0, 0)));
    let painted = (0..16u16)
        .flat_map(|x| (0..16u16).map(move |y| (x, y)))
        .filter(|px| image.get_pixel(px.0, px.1) != Some(Color8::new(0, 0, 0)))
        .count();
    assert!(painted <= 3);

    let provinces = vec![
        province_of(vec![region_of(0, &[(1, 1)]), region_of(0, &[(2, 2)])]),
        province_of(vec![region_of(0, &[(3, 3)])]),
    ];
    let image = build_provinces_image(&mut rng, &settings, &provinces);
    assert_eq!(image.get_pixel(1, 1), image.get_pixel(2, 2));
    assert_eq!(image.get_pixel(4, 4), Some(Color8::new(0, 0, 0)));

    let realms = vec![realm_of(provinces)];
    let image = build_realms_image(&mut rng, &settings, &realms);
    assert_eq!(image.get_pixel(1, 1), image.get_pixel(3, 3));
    assert_eq!(image.get_pixel(4, 4), Some(Color8::new(0, 0, 0)));
}

#[test]
fn only_very_light_pixels_show() {
    assert_eq!(light_pixel_value(172), 0);
    assert_eq!(light_pixel_value(173), 173);
    assert_eq!(light_pixel_value(255), 255);
    assert_eq!(light_pixel_value(0), 0);
}
