use world::continent::{Continent, Province, Realm, Region};
use world::error::WorldError;
use world::grid::{ContinentGrid, Planet};
use world::point::{Point16, Size16};
use world::settings::create_planet_settings;
use world::shader::{
    assign_continent_gradient_to_pixels, assign_gradient_color_to_regions, calculate_pixel_pos,
    scale_grey, GradientTexture,
};

fn texture(width: u16, height: u16) -> GradientTexture {
    let mut columns = Vec::new();
    for x in 0..width {
        let mut column = Vec::new();
        for y in 0..height {
            column.push((x * 16 + y) as u8);
        }
        columns.push(column);
    }
    GradientTexture { size: Size16::new(width, height), columns }
}

fn province_of(sites: &[(u16, u16)]) -> Province {
    let mut province = Province::new(Point16::new(0, 0), Point16::new(0, 0));
    for site in sites {
        province.regions.push(Region::new(Point16::new(site.0, site.1)));
    }
    province
}

fn continent_of(provinces: Vec<Province>, direction: u8, elevation: u16) -> Continent {
    let mut realm = Realm::new(Point16::new(0, 0), Point16::new(0, 0));
    realm.provinces = provinces;
    let mut continent =
        Continent::new(Point16::new(0, 0), Point16::new(4, 4), direction, elevation);
    continent.bottom_left = Point16::new(0, 0);
    continent.top_right = Point16::new(8, 8);
    continent.realms.push(realm);
    continent
}

#[test]
fn scale_grey_rounds_down_and_stays_in_eight_bits() {
    assert_eq!(scale_grey(200, 500), 100);
    assert_eq!(scale_grey(255, 699), 178);
    assert_eq!(scale_grey(255, 200), 51);
    assert_eq!(scale_grey(1, 999), 0);
    assert_eq!(scale_grey(0, 65535), 0);
    assert_eq!(scale_grey(255, 1000), 255);
    assert_eq!(scale_grey(255, 2000), 255);
}

#[test]
fn calculate_pixel_pos_scales_the_offset_into_the_texture() {
    let size = Size16::new(128, 128);
    let bottom_left = Point16::new(10, 10);
    let top_right = Point16::new(20, 50);
    assert_eq!(
        calculate_pixel_pos(&Point16::new(15, 30), &bottom_left, &top_right, &size),
        Point16::new(64, 64)
    );
    assert_eq!(
        calculate_pixel_pos(&Point16::new(10, 10), &bottom_left, &top_right, &size),
        Point16::new(0, 0)
    );
    assert_eq!(
        calculate_pixel_pos(&Point16::new(13, 11), &bottom_left, &top_right, &size),
        Point16::new(38, 3)
    );
}

#[test]
fn calculate_pixel_pos_stops_at_the_greatest_coordinate() {
    let bottom_left = Point16::new(10, 10);
    let top_right = Point16::new(20, 50);
    assert_eq!(
        calculate_pixel_pos(&Point16::new(20, 50), &bottom_left, &top_right, &Size16::new(128, 128)),
        Point16::new(127, 127)
    );
    assert_eq!(
        calculate_pixel_pos(&Point16::new(20, 50), &bottom_left, &top_right, &Size16::new(64, 200)),
        Point16::new(63, 127)
    );
    assert_eq!(
        calculate_pixel_pos(&Point16::new(900, 900), &bottom_left, &top_right, &Size16::new(512, 4)),
        Point16::new(127, 3)
    );
}

#[test]
fn calculate_pixel_pos_takes_a_site_before_the_box_as_its_corner() {
    assert_eq!(
        calculate_pixel_pos(
            &Point16::new(3, 30),
            &Point16::new(10, 10),
            &Point16::new(20, 50),
            &Size16::new(128, 128)
        ),
        Point16::new(0, 64)
    );
}

#[test]
fn regions_take_the_scaled_value_of_their_texel() {
    let mut continent = continent_of(vec![province_of(&[(4, 6), (0, 0), (8, 8)])], 3, 500);
    assert_eq!(assign_gradient_color_to_regions(&mut continent, &texture(4, 4)), Ok(()));
    let regions = &continent.realms[0].provinces[0].regions;
    // (4, 6) of a box of 8 by 8 on a texture of 4 by 4 is texel (2, 3): 35
    assert_eq!(regions[0].grey_value, 17);
    assert_eq!(regions[1].grey_value, 0);
    // (8, 8) would be texel (4, 4) and is kept on the texture: (3, 3) is 51
    assert_eq!(regions[2].grey_value, 25);
}

#[test]
fn provinces_and_realms_take_the_mean_rounded_down() {
    let mut continent = continent_of(
        vec![province_of(&[(4, 6), (0, 0), (8, 8)]), province_of(&[(8, 8)]), province_of(&[])],
        3,
        500,
    );
    assert_eq!(assign_gradient_color_to_regions(&mut continent, &texture(4, 4)), Ok(()));
    let provinces = &continent.realms[0].provinces;
    assert_eq!(provinces[0].average_grey_value, 14);
    assert_eq!(provinces[1].average_grey_value, 25);
    assert_eq!(provinces[2].average_grey_value, 0);
    assert_eq!(continent.realms[0].average_grey_value, 13);
}

#[test]
fn shading_changes_nothing_but_the_grey_values() {
    let mut continent = continent_of(vec![province_of(&[(4, 6)])], 3, 500);
    continent.realms[0].provinces[0].regions[0].pixels = vec![(1, 2), (3, 4)];
    assert_eq!(assign_gradient_color_to_regions(&mut continent, &texture(4, 4)), Ok(()));
    assert_eq!(continent.elevation, 500);
    assert_eq!(continent.plate_movement_direction, 3);
    assert_eq!(continent.bottom_left, Point16::new(0, 0));
    assert_eq!(continent.top_right, Point16::new(8, 8));
    assert_eq!(continent.realms[0].provinces[0].regions[0].pixels, vec![(1, 2), (3, 4)]);
    assert_eq!(continent.realms[0].provinces[0].regions[0].site_point, Point16::new(4, 6));
}

#[test]
fn a_box_without_extent_cannot_be_shaded() {
    let mut continent = continent_of(vec![province_of(&[(4, 6)])], 3, 500);
    continent.top_right = Point16::new(0, 8);
    assert_eq!(
        assign_gradient_color_to_regions(&mut continent, &texture(4, 4)),
        Err(WorldError::DegenerateTexture)
    );
    assert_eq!(continent.realms[0].provinces[0].regions[0].grey_value, 0);
    let mut fresh = Continent::new(Point16::new(0, 0), Point16::new(4, 4), 1, 300);
    assert_eq!(
        assign_gradient_color_to_regions(&mut fresh, &texture(4, 4)),
        Err(WorldError::DegenerateTexture)
    );
}

#[test]
fn a_texture_without_extent_cannot_be_shaded_from() {
    let mut continent = continent_of(vec![province_of(&[(4, 6)])], 3, 500);
    assert_eq!(
        assign_gradient_color_to_regions(&mut continent, &texture(0, 0)),
        Err(WorldError::DegenerateTexture)
    );
    let no_rows = GradientTexture { size: Size16::new(2, 0), columns: vec![vec![], vec![]] };
    assert!(no_rows.is_valid());
    assert_eq!(
        assign_gradient_color_to_regions(&mut continent, &no_rows),
        Err(WorldError::DegenerateTexture)
    );
}

#[test]
fn textures_are_checked_for_their_size() {
    assert!(texture(4, 4).is_valid());
    let mut short = texture(4, 4);
    short.columns[2].pop();
    assert!(!short.is_valid());
    let mut narrow = texture(4, 4);
    narrow.columns.pop();
    assert!(!narrow.is_valid());
}

fn small_planet() -> Planet {
    let mut edge = ContinentGrid::new(Size16::new(2, 2));
    let mut interior = ContinentGrid::new(Size16::new(2, 2));
    edge.insert(0, 0, continent_of(vec![province_of(&[(4, 6)])], 0, 500));
    edge.insert(0, 1, continent_of(vec![province_of(&[(4, 6)])], 1, 1000));
    edge.insert(1, 0, continent_of(vec![province_of(&[(4, 6)])], 1, 1000));
    interior.insert(1, 1, continent_of(vec![province_of(&[(8, 8)])], 1, 1000));
    interior.insert(0, 0, continent_of(vec![province_of(&[(8, 8)])], 1, 1000));
    Planet { edge_continents: edge, continents: interior }
}

#[test]
fn the_planet_is_shaded_by_plate_direction() {
    let settings = create_planet_settings(8, 8, 4, 4, 4, 2).unwrap();
    let mut planet = small_planet();
    let mut flat = texture(4, 4);
    for column in flat.columns.iter_mut() {
        for value in column.iter_mut() {
            *value = 200;
        }
    }
    let textures = vec![texture(4, 4), flat];
    assert_eq!(assign_continent_gradient_to_pixels(&mut planet, &settings, &textures), Ok(()));
    let grey = |c: &Continent| c.realms[0].provinces[0].regions[0].grey_value;
    assert_eq!(grey(planet.edge_continents.get(0, 0).unwrap()), 17);
    assert_eq!(grey(planet.edge_continents.get(0, 1).unwrap()), 200);
    assert_eq!(grey(planet.edge_continents.get(1, 0).unwrap()), 200);
    assert_eq!(grey(planet.continents.get(1, 1).unwrap()), 200);
    // the interior cell (0, 0) is no cell of the final interior
    assert_eq!(grey(planet.continents.get(0, 0).unwrap()), 0);
}

#[test]
fn a_planet_with_a_continent_that_cannot_be_shaded_is_left_alone() {
    let settings = create_planet_settings(8, 8, 4, 4, 4, 2).unwrap();
    let mut planet = small_planet();
    let mut flat = continent_of(vec![province_of(&[(8, 8)])], 1, 1000);
    flat.top_right = flat.bottom_left;
    planet.continents.insert(1, 1, flat);
    let textures = vec![texture(4, 4), texture(4, 4)];
    assert_eq!(
        assign_continent_gradient_to_pixels(&mut planet, &settings, &textures),
        Err(WorldError::DegenerateTexture)
    );
    let grey = |c: &Continent| c.realms[0].provinces[0].regions[0].grey_value;
    assert_eq!(grey(planet.edge_continents.get(0, 0).unwrap()), 0);
    assert_eq!(grey(planet.edge_continents.get(0, 1).unwrap()), 0);
}

#[test]
fn a_planet_with_a_direction_without_a_texture_is_refused() {
    let settings = create_planet_settings(8, 8, 4, 4, 4, 2).unwrap();
    let mut planet = small_planet();
    planet.edge_continents.insert(1, 0, continent_of(vec![province_of(&[(4, 6)])], 9, 1000));
    let textures = vec![texture(4, 4), texture(4, 4)];
    assert_eq!(
        assign_continent_gradient_to_pixels(&mut planet, &settings, &textures),
        Err(WorldError::MissingEntity)
    );
    let grey = |c: &Continent| c.realms[0].provinces[0].regions[0].grey_value;
    assert_eq!(grey(planet.edge_continents.get(0, 0).unwrap()), 0);
    assert_eq!(grey(planet.edge_continents.get(0, 1).unwrap()), 0);
    assert_eq!(grey(planet.continents.get(1, 1).unwrap()), 0);
}

#[test]
fn a_missing_texture_comes_before_a_continent_that_cannot_be_shaded() {
    let settings = create_planet_settings(8, 8, 4, 4, 4, 2).unwrap();
    let mut planet = small_planet();
    let mut flat = continent_of(vec![province_of(&[(8, 8)])], 1, 1000);
    flat.top_right = flat.bottom_left;
    planet.continents.insert(1, 1, flat);
    planet.edge_continents.insert(0, 1, continent_of(vec![province_of(&[(4, 6)])], 5, 1000));
    let textures = vec![texture(4, 4), texture(4, 4)];
    assert_eq!(
        assign_continent_gradient_to_pixels(&mut planet, &settings, &textures),
        Err(WorldError::MissingEntity)
    );
    // a continent off the final grid needs no texture
    let mut planet = small_planet();
    planet.continents.insert(0, 0, continent_of(vec![province_of(&[(8, 8)])], 12, 1000));
    assert_eq!(assign_continent_gradient_to_pixels(&mut planet, &settings, &textures), Ok(()));
}
