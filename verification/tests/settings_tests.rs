use world::point::Size16;
use world::settings::{builder_settings, create_planet_settings};

#[test]
fn create_planet_settings_derives_every_size() {
    let settings = create_planet_settings(1536, 768, 512, 128, 64, 12).unwrap();
    assert_eq!(settings.final_img_size, Size16::new(1536, 768));
    assert_eq!(settings.final_continent_grid_size, Size16::new(12, 6));
    assert_eq!(settings.continent_cell_size, Size16::new(128, 128));
    assert_eq!(settings.img_size, Size16::new(1792, 1024));
    assert_eq!(settings.continent_grid_size, Size16::new(14, 8));
    assert_eq!(settings.region_grid_size, Size16::new(597, 341));
    assert_eq!(settings.province_grid_size, Size16::new(128, 73));
    assert_eq!(settings.realm_grid_size, Size16::new(64, 36));
    assert_eq!(settings.province_cell_size, Size16::new(14, 14));
    assert_eq!(settings.realm_cell_size, Size16::new(28, 28));
    assert_eq!(settings.region_pref_width, 512);
    assert_eq!(settings.province_pref_width, 128);
    assert_eq!(settings.realm_pref_width, 64);
    assert_eq!(settings.continent_pref_width, 12);
    assert!(settings.is_valid());
}

#[test]
fn create_planet_settings_for_a_small_canvas() {
    let settings = create_planet_settings(8, 8, 4, 4, 4, 2).unwrap();
    assert_eq!(settings.final_continent_grid_size, Size16::new(2, 2));
    assert_eq!(settings.continent_cell_size, Size16::new(4, 4));
    assert_eq!(settings.img_size, Size16::new(16, 16));
    assert_eq!(settings.continent_grid_size, Size16::new(4, 4));
    assert_eq!(settings.region_grid_size, Size16::new(4, 4));
    assert_eq!(settings.province_grid_size, Size16::new(4, 4));
    assert_eq!(settings.province_cell_size, Size16::new(4, 4));
    assert_eq!(settings.realm_grid_size, Size16::new(4, 4));
    assert_eq!(settings.realm_cell_size, Size16::new(4, 4));
}

#[test]
fn create_planet_settings_refuses_a_preferred_width_of_zero() {
    assert!(create_planet_settings(1536, 768, 512, 128, 64, 0).is_none());
    assert!(create_planet_settings(1536, 768, 0, 128, 64, 12).is_none());
    assert!(create_planet_settings(1536, 768, 512, 0, 64, 12).is_none());
    assert!(create_planet_settings(1536, 768, 512, 128, 0, 12).is_none());
}

#[test]
fn create_planet_settings_refuses_a_canvas_narrower_than_preferred() {
    assert!(create_planet_settings(10, 10, 4, 4, 4, 12).is_none());
}

#[test]
fn create_planet_settings_refuses_a_canvas_too_low_for_a_row() {
    assert!(create_planet_settings(1536, 100, 512, 128, 64, 12).is_none());
}

#[test]
fn create_planet_settings_refuses_sizes_beyond_sixteen_bits() {
    assert!(create_planet_settings(65535, 65535, 512, 128, 64, 65535).is_none());
    assert!(create_planet_settings(65000, 65000, 512, 128, 64, 2).is_none());
}

#[test]
fn builder_settings_agree_with_the_planet_settings() {
    let planet = create_planet_settings(1536, 768, 512, 128, 64, 12).unwrap();
    let builder = builder_settings(&planet, 512, 128, 64).unwrap();
    assert_eq!(builder.img_size, planet.img_size);
    assert_eq!(builder.continent_grid_size, planet.continent_grid_size);
    assert_eq!(builder.region_grid_size, planet.region_grid_size);
    assert_eq!(builder.province_grid_size, planet.province_grid_size);
    assert_eq!(builder.realm_grid_size, planet.realm_grid_size);
    assert_eq!(builder.province_cell_size, planet.province_cell_size);
    assert_eq!(builder.realm_cell_size, planet.realm_cell_size);
    assert!(builder.is_valid());
}

#[test]
fn builder_settings_refuse_a_preferred_width_of_zero() {
    let planet = create_planet_settings(1536, 768, 512, 128, 64, 12).unwrap();
    assert!(builder_settings(&planet, 0, 128, 64).is_none());
    assert!(builder_settings(&planet, 512, 2000, 64).is_none());
}

#[test]
fn settings_with_a_wrong_margin_are_not_valid() {
    let mut settings = create_planet_settings(1536, 768, 512, 128, 64, 12).unwrap();
    settings.img_size = Size16::new(1536, 768);
    assert!(!settings.is_valid());
}

#[test]
fn create_planet_settings_returns_settings_without_a_region_row() {
    // the generation canvas is 1020 by 30; the regions' width goes into it 1020 times
    let settings = create_planet_settings(1000, 10, 1, 510, 510, 100).unwrap();
    assert_eq!(settings.final_continent_grid_size, Size16::new(100, 1));
    assert_eq!(settings.continent_cell_size, Size16::new(10, 10));
    assert_eq!(settings.img_size, Size16::new(1020, 30));
    assert_eq!(settings.continent_grid_size, Size16::new(102, 3));
    assert_eq!(settings.region_grid_size, Size16::new(1, 0));
    assert_eq!(settings.province_grid_size, Size16::new(510, 15));
    assert_eq!(settings.province_cell_size, Size16::new(2, 2));
    assert_eq!(settings.realm_grid_size, Size16::new(510, 15));
    // such settings are returned, and are not usable
    assert!(!settings.is_valid());
    assert!(create_planet_settings(1000, 10, 2, 510, 510, 100).unwrap().region_grid_size.height == 0);
    assert!(create_planet_settings(1536, 768, 512, 128, 64, 12).unwrap().is_valid());
}
