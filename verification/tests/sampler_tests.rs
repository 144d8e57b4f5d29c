use rand::rngs::StdRng;
use rand::SeedableRng;
use world::error::WorldError;
use world::hierarchy::build_table;
use world::point::{calculate_distance, Point16, Size16};
use world::settings::create_planet_settings;
use world::sites::{
    build_continents_with_site, build_provinces_and_generate_sites,
    build_realms_and_generate_sites, generate_scattered_sites, get_random_degrees_index,
    get_random_tectonic_elevation, jittered_site, region_site_count, try_place_site,
};

#[test]
fn try_place_site_takes_a_site_that_keeps_its_distance() {
    let mut sites = vec![Point16::new(1, 1), Point16::new(5, 5)];
    assert!(try_place_site(&mut sites, Point16::new(1, 2)));
    assert_eq!(sites, vec![Point16::new(1, 1), Point16::new(5, 5), Point16::new(1, 2)]);
}

#[test]
fn try_place_site_refuses_a_site_that_is_taken() {
    let mut sites = vec![Point16::new(1, 1), Point16::new(5, 5)];
    assert!(!try_place_site(&mut sites, Point16::new(5, 5)));
    assert_eq!(sites, vec![Point16::new(1, 1), Point16::new(5, 5)]);
}

#[test]
fn scattered_sites_lie_on_the_canvas_and_apart() {
    let mut rng = StdRng::seed_from_u64(7);
    let canvas = Size16::new(16, 12);
    let sites = generate_scattered_sites(&mut rng, &canvas, 40).unwrap();
    assert_eq!(sites.len(), 40);
    for (i, a) in sites.iter().enumerate() {
        assert!(a.x < 16 && a.y < 12);
        for b in sites.iter().skip(i + 1) {
            assert!(calculate_distance(a, b) >= 1);
        }
    }
}

#[test]
fn scattered_sites_fill_a_small_canvas() {
    let mut rng = StdRng::seed_from_u64(3);
    let sites = generate_scattered_sites(&mut rng, &Size16::new(2, 2), 4).unwrap();
    let mut seen = sites.clone();
    seen.sort_by_key(|p| (p.x, p.y));
    assert_eq!(
        seen,
        vec![Point16::new(0, 0), Point16::new(0, 1), Point16::new(1, 0), Point16::new(1, 1)]
    );
}

#[test]
fn five_sites_do_not_fit_a_canvas_of_four_pixels() {
    let mut rng = StdRng::seed_from_u64(11);
    assert_eq!(
        generate_scattered_sites(&mut rng, &Size16::new(2, 2), 5),
        Err(WorldError::SamplingExhaustion)
    );
}

#[test]
fn no_site_fits_an_empty_canvas() {
    let mut rng = StdRng::seed_from_u64(11);
    assert_eq!(
        generate_scattered_sites(&mut rng, &Size16::new(0, 9), 1),
        Err(WorldError::SamplingExhaustion)
    );
}

#[test]
fn no_sites_are_always_to_be_had() {
    let mut rng = StdRng::seed_from_u64(11);
    assert_eq!(generate_scattered_sites(&mut rng, &Size16::new(0, 0), 0), Ok(Vec::new()));
}

#[test]
fn the_same_seed_scatters_the_same_sites() {
    let canvas = Size16::new(64, 64);
    let mut first = StdRng::seed_from_u64(99);
    let mut second = StdRng::seed_from_u64(99);
    assert_eq!(
        generate_scattered_sites(&mut first, &canvas, 30),
        generate_scattered_sites(&mut second, &canvas, 30)
    );
}

#[test]
fn region_site_count_is_a_quarter_of_the_grid() {
    assert_eq!(region_site_count(&Size16::new(597, 341)), 298 * 170);
    assert_eq!(region_site_count(&Size16::new(4, 4)), 4);
    assert_eq!(region_site_count(&Size16::new(1, 9)), 0);
    assert_eq!(region_site_count(&Size16::new(65535, 65535)), 32767 * 32767);
}

#[test]
fn jittered_site_lies_in_its_cell() {
    let site = jittered_site(&Point16::new(3, 2), &Size16::new(14, 28), &Point16::new(13, 0));
    assert_eq!(site, Point16::new(3 * 14 + 13, 2 * 28));
}

#[test]
fn drawn_directions_and_elevations_stay_in_range() {
    let mut rng = StdRng::seed_from_u64(5);
    let mut directions = [false; 16];
    for _ in 0..2000 {
        let direction = get_random_degrees_index(&mut rng);
        assert!(direction < 16);
        directions[direction as usize] = true;
        let elevation = get_random_tectonic_elevation(&mut rng);
        assert!((200..700).contains(&elevation));
    }
    assert!(directions.iter().all(|seen| *seen));
}

#[test]
fn provinces_come_one_for_each_cell_in_walk_order() {
    let planet = create_planet_settings(8, 8, 4, 4, 4, 2).unwrap();
    let settings = world::settings::builder_settings(&planet, 4, 4, 4).unwrap();
    let mut rng = StdRng::seed_from_u64(1);
    let provinces = build_provinces_and_generate_sites(&mut rng, &settings);
    assert_eq!(provinces.len(), 16);
    for x in 0..4u16 {
        for y in 0..4u16 {
            let province = &provinces[(x * 4 + y) as usize];
            assert_eq!(province.grid_coord, Point16::new(x, y));
            assert!(province.site_point.x >= x * 4 && province.site_point.x < (x + 1) * 4);
            assert!(province.site_point.y >= y * 4 && province.site_point.y < (y + 1) * 4);
            assert!(province.regions.is_empty());
            assert_eq!(province.bottom_left, Point16::new(u16::MAX, u16::MAX));
            assert_eq!(province.top_right, Point16::new(0, 0));
            assert_eq!(province.average_grey_value, 0);
        }
    }
    let keys: Vec<(Point16, Point16)> =
        provinces.iter().map(|p| (p.grid_coord, p.site_point)).collect();
    assert!(build_table(&keys, settings.province_grid_size).is_some());
}

#[test]
fn realms_come_one_for_each_cell_in_walk_order() {
    let planet = create_planet_settings(1536, 768, 512, 128, 64, 12).unwrap();
    let settings = world::settings::builder_settings(&planet, 512, 128, 64).unwrap();
    let mut rng = StdRng::seed_from_u64(2);
    let realms = build_realms_and_generate_sites(&mut rng, &settings);
    assert_eq!(realms.len(), 64 * 36);
    for (k, realm) in realms.iter().enumerate() {
        let x = (k / 36) as u16;
        let y = (k % 36) as u16;
        assert_eq!(realm.grid_coord, Point16::new(x, y));
        assert!(realm.site_point.x >= x * 28 && realm.site_point.x < (x + 1) * 28);
        assert!(realm.site_point.y >= y * 28 && realm.site_point.y < (y + 1) * 28);
        assert!(realm.provinces.is_empty());
    }
}

#[test]
fn continents_come_one_for_each_cell() {
    let planet = create_planet_settings(1536, 768, 512, 128, 64, 12).unwrap();
    let mut rng = StdRng::seed_from_u64(4);
    let continents = build_continents_with_site(&mut rng, &planet);
    assert_eq!(continents.size, Size16::new(14, 8));
    for x in 0..14u16 {
        for y in 0..8u16 {
            let continent = continents.get(x, y).unwrap();
            assert_eq!(continent.grid_coord, Point16::new(x, y));
            assert!(continent.site_point.x >= x * 128 && continent.site_point.x < (x + 1) * 128);
            assert!(continent.site_point.y >= y * 128 && continent.site_point.y < (y + 1) * 128);
            assert!(continent.plate_movement_direction < 16);
            assert!((200..700).contains(&continent.elevation));
            assert!(continent.realms.is_empty());
            assert_eq!(continent.bottom_left, Point16::new(u16::MAX, u16::MAX));
            assert_eq!(continent.top_right, Point16::new(0, 0));
        }
    }
    assert!(continents.get(14, 0).is_none());
    assert!(continents.get(0, 8).is_none());
}
