use world::continent::{Continent, Province, Realm, Region};
use world::error::WorldError;
use world::grid::ContinentGrid;
use world::hierarchy::{
    assign_provinces_to_realms, assign_realms_to_continents, assign_regions_to_provinces,
    build_table, find_nearest,
};
use world::point::{Point16, Size16};
use world::settings::{create_planet_settings, ContinentBuilderSettings, PlanetSettings};

fn settings_for(grid: Size16, cell: Size16) -> ContinentBuilderSettings {
    ContinentBuilderSettings {
        img_size: Size16::new(grid.width * cell.width, grid.height * cell.height),
        region_grid_size: grid,
        province_grid_size: grid,
        realm_grid_size: grid,
        continent_grid_size: grid,
        province_cell_size: cell,
        realm_cell_size: cell,
    }
}

fn region_at(x: u16, y: u16) -> Region {
    let mut region = Region::new(Point16::new(x, y));
    region.pixels.push((x, y));
    region.bottom_left = Point16::new(x, y);
    region.top_right = Point16::new(x, y);
    region
}

fn four_provinces() -> Vec<Province> {
    vec![
        Province::new(Point16::new(0, 0), Point16::new(4, 4)),
        Province::new(Point16::new(0, 1), Point16::new(4, 12)),
        Province::new(Point16::new(1, 0), Point16::new(12, 4)),
        Province::new(Point16::new(1, 1), Point16::new(12, 12)),
    ]
}

#[test]
fn a_region_goes_to_the_nearest_province() {
    let settings = settings_for(Size16::new(2, 2), Size16::new(8, 8));
    let mut provinces = four_provinces();
    let regions = vec![region_at(7, 7), region_at(15, 15), region_at(1, 14), region_at(9, 1)];
    assert_eq!(assign_regions_to_provinces(regions, &mut provinces, &settings), Ok(()));
    assert_eq!(provinces[0].regions.len(), 1);
    assert_eq!(provinces[0].regions[0].site_point, Point16::new(7, 7));
    assert_eq!(provinces[1].regions[0].site_point, Point16::new(1, 14));
    assert_eq!(provinces[2].regions[0].site_point, Point16::new(9, 1));
    assert_eq!(provinces[3].regions[0].site_point, Point16::new(15, 15));
}

#[test]
fn the_earlier_province_wins_a_tie() {
    let settings = settings_for(Size16::new(2, 2), Size16::new(8, 8));
    let mut provinces = four_provinces();
    // (8, 4) falls into cell (1, 0) and is as far from (4, 4) as from (12, 4)
    let regions = vec![region_at(8, 4)];
    assert_eq!(assign_regions_to_provinces(regions, &mut provinces, &settings), Ok(()));
    assert_eq!(provinces[0].regions.len(), 1);
    assert_eq!(provinces[2].regions.len(), 0);
}

#[test]
fn the_window_reaches_the_cell_beyond() {
    let settings = settings_for(Size16::new(2, 1), Size16::new(8, 8));
    let mut provinces = vec![
        Province::new(Point16::new(0, 0), Point16::new(0, 0)),
        Province::new(Point16::new(1, 0), Point16::new(8, 0)),
    ];
    // (7, 0) falls into cell (0, 0); the province of cell (1, 0) is nearer
    let regions = vec![region_at(7, 0)];
    assert_eq!(assign_regions_to_provinces(regions, &mut provinces, &settings), Ok(()));
    assert_eq!(provinces[0].regions.len(), 0);
    assert_eq!(provinces[1].regions.len(), 1);
}

#[test]
fn the_window_does_not_reach_two_cells_away() {
    let settings = settings_for(Size16::new(3, 1), Size16::new(4, 4));
    let mut provinces = vec![
        Province::new(Point16::new(0, 0), Point16::new(0, 0)),
        Province::new(Point16::new(1, 0), Point16::new(4, 3)),
        Province::new(Point16::new(2, 0), Point16::new(8, 0)),
    ];
    // (3, 0) falls into cell (0, 0): the window holds cells (0, 0) and (1, 0);
    // their sites are 9 and 10 away in squares, the site of cell (2, 0) is 25
    let mut regions = vec![region_at(3, 0)];
    // a region far to the right of the grid finds no cell in its window and
    // goes to the province at the origin
    regions.push(region_at(40, 0));
    assert_eq!(assign_regions_to_provinces(regions, &mut provinces, &settings), Ok(()));
    assert_eq!(provinces[0].regions.len(), 2);
    assert_eq!(provinces[0].regions[1].site_point, Point16::new(40, 0));
}

#[test]
fn a_province_grows_its_box_around_its_regions() {
    let settings = settings_for(Size16::new(2, 2), Size16::new(8, 8));
    let mut provinces = four_provinces();
    let mut wide = Region::new(Point16::new(2, 2));
    wide.pixels = vec![(0, 3), (5, 1)];
    wide.bottom_left = Point16::new(0, 1);
    wide.top_right = Point16::new(5, 3);
    let regions = vec![wide, region_at(6, 7)];
    assert_eq!(assign_regions_to_provinces(regions, &mut provinces, &settings), Ok(()));
    assert_eq!(provinces[0].regions.len(), 2);
    assert_eq!(provinces[0].bottom_left, Point16::new(0, 1));
    assert_eq!(provinces[0].top_right, Point16::new(6, 7));
    assert_eq!(provinces[3].bottom_left, Point16::new(u16::MAX, u16::MAX));
    assert_eq!(provinces[3].top_right, Point16::new(0, 0));
}

#[test]
fn regions_keep_their_order_within_a_province() {
    let settings = settings_for(Size16::new(2, 2), Size16::new(8, 8));
    let mut provinces = four_provinces();
    let regions = vec![region_at(1, 1), region_at(14, 14), region_at(2, 2), region_at(3, 3)];
    assert_eq!(assign_regions_to_provinces(regions, &mut provinces, &settings), Ok(()));
    let sites: Vec<Point16> = provinces[0].regions.iter().map(|r| r.site_point).collect();
    assert_eq!(sites, vec![Point16::new(1, 1), Point16::new(2, 2), Point16::new(3, 3)]);
}

#[test]
fn every_region_ends_in_one_province() {
    let settings = settings_for(Size16::new(2, 2), Size16::new(8, 8));
    let mut provinces = four_provinces();
    let mut regions = Vec::new();
    for x in 0..16u16 {
        for y in 0..16u16 {
            regions.push(region_at(x, y));
        }
    }
    assert_eq!(assign_regions_to_provinces(regions, &mut provinces, &settings), Ok(()));
    let mut seen = vec![0usize; 256];
    for province in &provinces {
        for region in &province.regions {
            seen[(region.site_point.x * 16 + region.site_point.y) as usize] += 1;
        }
    }
    assert!(seen.iter().all(|count| *count == 1));
}

#[test]
fn a_missing_province_fails_the_assignment() {
    let settings = settings_for(Size16::new(2, 2), Size16::new(8, 8));
    let mut provinces = four_provinces();
    provinces.remove(2);
    let regions = vec![region_at(7, 7)];
    assert_eq!(
        assign_regions_to_provinces(regions, &mut provinces, &settings),
        Err(WorldError::MissingEntity)
    );
    assert!(provinces.iter().all(|p| p.regions.is_empty()));
}

#[test]
fn a_grid_without_cells_fails_the_assignment() {
    let settings = settings_for(Size16::new(0, 0), Size16::new(8, 8));
    let mut provinces = four_provinces();
    assert_eq!(
        assign_regions_to_provinces(Vec::new(), &mut provinces, &settings),
        Err(WorldError::MissingEntity)
    );
}

#[test]
fn the_last_province_of_a_cell_stands_for_it() {
    let settings = settings_for(Size16::new(1, 1), Size16::new(8, 8));
    let mut provinces = vec![
        Province::new(Point16::new(0, 0), Point16::new(1, 1)),
        Province::new(Point16::new(0, 0), Point16::new(6, 6)),
    ];
    let regions = vec![region_at(1, 1)];
    assert_eq!(assign_regions_to_provinces(regions, &mut provinces, &settings), Ok(()));
    assert_eq!(provinces[0].regions.len(), 0);
    assert_eq!(provinces[1].regions.len(), 1);
}

#[test]
fn a_province_goes_to_the_nearest_realm() {
    let settings = settings_for(Size16::new(2, 2), Size16::new(8, 8));
    let mut realms = vec![
        Realm::new(Point16::new(0, 0), Point16::new(4, 4)),
        Realm::new(Point16::new(0, 1), Point16::new(4, 12)),
        Realm::new(Point16::new(1, 0), Point16::new(12, 4)),
        Realm::new(Point16::new(1, 1), Point16::new(12, 12)),
    ];
    let mut province = Province::new(Point16::new(3, 3), Point16::new(13, 3));
    province.bottom_left = Point16::new(10, 1);
    province.top_right = Point16::new(15, 6);
    let other = Province::new(Point16::new(0, 0), Point16::new(0, 15));
    assert_eq!(assign_provinces_to_realms(vec![province, other], &mut realms, &settings), Ok(()));
    assert_eq!(realms[2].provinces.len(), 1);
    assert_eq!(realms[2].provinces[0].grid_coord, Point16::new(3, 3));
    assert_eq!(realms[2].bottom_left, Point16::new(10, 1));
    assert_eq!(realms[2].top_right, Point16::new(15, 6));
    assert_eq!(realms[1].provinces.len(), 1);
    assert_eq!(realms[0].provinces.len(), 0);
}

#[test]
fn a_missing_realm_fails_the_assignment() {
    let settings = settings_for(Size16::new(2, 1), Size16::new(8, 8));
    let mut realms = vec![Realm::new(Point16::new(1, 0), Point16::new(12, 4))];
    let province = Province::new(Point16::new(0, 0), Point16::new(13, 3));
    assert_eq!(
        assign_provinces_to_realms(vec![province], &mut realms, &settings),
        Err(WorldError::MissingEntity)
    );
    assert!(realms[0].provinces.is_empty());
}

fn planet_settings(grid: Size16, cell: Size16) -> PlanetSettings {
    let mut settings = create_planet_settings(8, 8, 4, 4, 4, 2).unwrap();
    settings.continent_grid_size = grid;
    settings.continent_cell_size = cell;
    settings
}

#[test]
fn a_realm_goes_to_the_nearest_continent() {
    let settings = planet_settings(Size16::new(2, 2), Size16::new(8, 8));
    let mut continents = ContinentGrid::new(Size16::new(2, 2));
    continents.insert(0, 0, Continent::new(Point16::new(0, 0), Point16::new(4, 4), 1, 300));
    continents.insert(0, 1, Continent::new(Point16::new(0, 1), Point16::new(4, 12), 2, 300));
    continents.insert(1, 0, Continent::new(Point16::new(1, 0), Point16::new(12, 4), 3, 300));
    continents.insert(1, 1, Continent::new(Point16::new(1, 1), Point16::new(12, 12), 4, 300));
    let mut realm = Realm::new(Point16::new(5, 5), Point16::new(3, 13));
    realm.bottom_left = Point16::new(1, 9);
    realm.top_right = Point16::new(6, 15);
    let tie = Realm::new(Point16::new(6, 6), Point16::new(8, 4));
    assert_eq!(assign_realms_to_continents(vec![realm, tie], &mut continents, &settings), Ok(()));
    let taken = continents.get(0, 1).unwrap();
    assert_eq!(taken.realms.len(), 1);
    assert_eq!(taken.realms[0].grid_coord, Point16::new(5, 5));
    assert_eq!(taken.bottom_left, Point16::new(1, 9));
    assert_eq!(taken.top_right, Point16::new(6, 15));
    assert_eq!(taken.plate_movement_direction, 2);
    assert_eq!(continents.get(0, 0).unwrap().realms.len(), 1);
    assert_eq!(continents.get(1, 0).unwrap().realms.len(), 0);
}

#[test]
fn a_vacant_cell_fails_the_assignment_to_continents() {
    let settings = planet_settings(Size16::new(2, 1), Size16::new(8, 8));
    let mut continents = ContinentGrid::new(Size16::new(2, 1));
    continents.insert(0, 0, Continent::new(Point16::new(0, 0), Point16::new(4, 4), 1, 300));
    let realm = Realm::new(Point16::new(5, 5), Point16::new(3, 3));
    assert_eq!(
        assign_realms_to_continents(vec![realm], &mut continents, &settings),
        Err(WorldError::MissingEntity)
    );
    assert!(continents.get(0, 0).unwrap().realms.is_empty());
}

#[test]
fn find_nearest_walks_the_window_column_by_column() {
    let keys = vec![
        (Point16::new(0, 0), Point16::new(4, 4)),
        (Point16::new(0, 1), Point16::new(4, 12)),
        (Point16::new(1, 0), Point16::new(12, 4)),
        (Point16::new(1, 1), Point16::new(12, 12)),
    ];
    let table = build_table(&keys, Size16::new(2, 2)).unwrap();
    assert_eq!(table.slots[1][0].index, 2);
    assert_eq!(table.slots[1][0].site, Point16::new(12, 4));
    let cell = Size16::new(8, 8);
    assert_eq!(find_nearest(&table, &cell, &Point16::new(8, 8)), Point16::new(0, 0));
    assert_eq!(find_nearest(&table, &cell, &Point16::new(9, 8)), Point16::new(1, 0));
    assert_eq!(find_nearest(&table, &cell, &Point16::new(9, 9)), Point16::new(1, 1));
    assert_eq!(find_nearest(&table, &cell, &Point16::new(60000, 60000)), Point16::new(0, 0));
}

#[test]
fn build_table_wants_every_cell_claimed() {
    let keys = vec![
        (Point16::new(0, 0), Point16::new(4, 4)),
        (Point16::new(5, 5), Point16::new(4, 12)),
    ];
    assert!(build_table(&keys, Size16::new(1, 1)).is_some());
    assert!(build_table(&keys, Size16::new(2, 1)).is_none());
    assert!(build_table(&keys, Size16::new(0, 1)).is_none());
}
