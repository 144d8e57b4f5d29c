use world::continent::{Continent, Province, Realm, Region};
use world::error::WorldError;
use world::grid::{ContinentGrid, Planet};
use world::point::{Point16, Size16};
use world::seam::merge_continents;
use world::seamless::{
    merge_centered_continents, move_continents_pixels_towards_edge, move_pixels,
};
use world::settings::{create_planet_settings, PlanetSettings};

fn continent_with(x: u16, y: u16, pixels: &[(u16, u16)]) -> Continent {
    let mut region = Region::new(Point16::new(x, y));
    region.pixels = pixels.to_vec();
    let mut province = Province::new(Point16::new(x, y), Point16::new(x, y));
    province.regions.push(region);
    let mut realm = Realm::new(Point16::new(x, y), Point16::new(x, y));
    realm.provinces.push(province);
    let mut continent =
        Continent::new(Point16::new(x, y), Point16::new(x * 10, y * 10), (x % 16) as u8, 300);
    continent.bottom_left = Point16::new(x * 10, y * 10);
    continent.top_right = Point16::new(x * 10 + 9, y * 10 + 9);
    continent.realms.push(realm);
    continent
}

fn full_grid(width: u16, height: u16) -> ContinentGrid {
    let mut grid = ContinentGrid::new(Size16::new(width, height));
    for x in 0..width {
        for y in 0..height {
            grid.insert(x, y, continent_with(x, y, &[(x, y)]));
        }
    }
    grid
}

fn names(continent: &Continent) -> Vec<(u16, u16)> {
    continent.realms.iter().map(|r| (r.grid_coord.x, r.grid_coord.y)).collect()
}

fn pixels(continent: &Continent) -> Vec<(u16, u16)> {
    world::pixels_utils::collect_pixels(continent)
}

#[test]
fn a_grid_holds_what_is_put_there() {
    let mut grid = ContinentGrid::new(Size16::new(3, 2));
    assert!(grid.get(1, 1).is_none());
    assert!(!grid.contains_key(1, 1));
    assert!(grid.insert(1, 1, continent_with(1, 1, &[])).is_none());
    assert!(grid.contains_key(1, 1));
    assert_eq!(grid.get(1, 1).unwrap().grid_coord, Point16::new(1, 1));
    let before = grid.insert(1, 1, continent_with(7, 7, &[])).unwrap();
    assert_eq!(before.grid_coord, Point16::new(1, 1));
    assert_eq!(grid.remove(1, 1).unwrap().grid_coord, Point16::new(7, 7));
    assert!(grid.remove(1, 1).is_none());
    assert!(grid.remove(3, 0).is_none());
    assert!(grid.get(0, 2).is_none());
    grid.insert(2, 0, continent_with(2, 0, &[]));
    assert_eq!(grid.take(2, 0).grid_coord, Point16::new(2, 0));
    assert!(!grid.contains_key(2, 0));
}

#[test]
fn the_fold_makes_the_corner_of_four_cells() {
    let mut grid = full_grid(5, 4);
    let (seam, _) = merge_continents(&mut grid).unwrap();
    let corner = seam.get(0, 0).unwrap();
    assert_eq!(names(corner), vec![(2, 2), (2, 1), (1, 2), (1, 1)]);
    assert_eq!(corner.grid_coord, Point16::new(0, 0));
    assert_eq!(corner.site_point, Point16::new(15, 15));
    assert_eq!(corner.bottom_left, Point16::new(10, 10));
    assert_eq!(corner.top_right, Point16::new(29, 29));
    assert_eq!(corner.plate_movement_direction, 2);
}

#[test]
fn the_fold_makes_the_seam_of_pairs() {
    let mut grid = full_grid(5, 4);
    let (seam, _) = merge_continents(&mut grid).unwrap();
    assert_eq!(seam.size, Size16::new(3, 2));
    let up = seam.get(0, 1).unwrap();
    assert_eq!(names(up), vec![(2, 3), (1, 3)]);
    assert_eq!(up.grid_coord, Point16::new(0, 1));
    assert_eq!(up.site_point, Point16::new(15, 30));
    assert_eq!(up.bottom_left, Point16::new(10, 30));
    assert_eq!(up.top_right, Point16::new(29, 39));
    let across = seam.get(1, 0).unwrap();
    assert_eq!(names(across), vec![(3, 2), (3, 1)]);
    assert_eq!(across.grid_coord, Point16::new(1, 0));
    assert_eq!(across.site_point, Point16::new(30, 15));
    assert_eq!(names(seam.get(2, 0).unwrap()), vec![(4, 2), (4, 1)]);
    assert!(seam.get(1, 1).is_none());
    assert!(seam.get(2, 1).is_none());
}

#[test]
fn the_fold_moves_the_rest_into_the_interior() {
    let mut grid = full_grid(5, 4);
    let (_, interior) = merge_continents(&mut grid).unwrap();
    assert_eq!(interior.size, Size16::new(3, 2));
    let moved = interior.get(1, 1).unwrap();
    assert_eq!(names(moved), vec![(3, 3)]);
    assert_eq!(moved.grid_coord, Point16::new(1, 1));
    assert_eq!(moved.site_point, Point16::new(30, 30));
    assert_eq!(names(interior.get(2, 1).unwrap()), vec![(4, 3)]);
    assert!(interior.get(0, 0).is_none());
    assert!(interior.get(1, 0).is_none());
    assert!(interior.get(0, 1).is_none());
}

#[test]
fn the_fold_drops_the_margin_and_makes_no_pixel() {
    let mut grid = full_grid(5, 4);
    let (seam, interior) = merge_continents(&mut grid).unwrap();
    let mut all = Vec::new();
    for x in 0..3u16 {
        for y in 0..2u16 {
            if let Some(continent) = seam.get(x, y) {
                all.extend(pixels(continent));
            }
            if let Some(continent) = interior.get(x, y) {
                all.extend(pixels(continent));
            }
        }
    }
    all.sort();
    let mut expected = Vec::new();
    for x in 1..5u16 {
        for y in 1..4u16 {
            expected.push((x, y));
        }
    }
    assert_eq!(all, expected);
}

#[test]
fn a_folded_grid_cannot_be_folded_again() {
    let mut grid = full_grid(5, 4);
    assert!(merge_continents(&mut grid).is_ok());
    for x in 0..5u16 {
        for y in 0..4u16 {
            assert!(grid.get(x, y).is_none());
        }
    }
    assert_eq!(merge_continents(&mut grid).err(), Some(WorldError::MissingEntity));
}

#[test]
fn a_grid_without_its_margin_ring_is_refused() {
    let mut grid = full_grid(3, 3);
    for i in 0..3u16 {
        grid.remove(0, i);
        grid.remove(i, 0);
    }
    assert_eq!(merge_continents(&mut grid).err(), Some(WorldError::MissingEntity));
    // the grid holds what it held
    for x in 1..3u16 {
        for y in 1..3u16 {
            assert_eq!(names(grid.get(x, y).unwrap()), vec![(x, y)]);
        }
    }
    // one cell of the margin ring missing is enough
    let mut grid = full_grid(5, 5);
    grid.remove(3, 0);
    assert_eq!(merge_continents(&mut grid).err(), Some(WorldError::MissingEntity));
    assert!(grid.contains_key(2, 2));
    assert!(grid.contains_key(0, 0));
}

#[test]
fn the_smallest_grid_folds_into_a_corner() {
    let mut grid = full_grid(3, 3);
    let (seam, interior) = merge_continents(&mut grid).unwrap();
    assert_eq!(seam.size, Size16::new(1, 1));
    assert_eq!(names(seam.get(0, 0).unwrap()), vec![(2, 2), (2, 1), (1, 2), (1, 1)]);
    assert!(interior.get(0, 0).is_none());
}

#[test]
fn a_folded_map_cannot_be_folded_again() {
    let mut grid = full_grid(7, 6);
    let (mut seam, mut interior) = merge_continents(&mut grid).unwrap();
    assert_eq!(interior.size, Size16::new(5, 4));
    // the interior has every cell off its column 0 and row 0, and is refused
    assert_eq!(merge_continents(&mut interior).err(), Some(WorldError::MissingEntity));
    for x in 1..5u16 {
        for y in 1..4u16 {
            let continent = interior.get(x, y).unwrap();
            assert_eq!(names(continent), vec![(x + 2, y + 2)]);
            assert_eq!(continent.grid_coord, Point16::new(x, y));
        }
    }
    assert!(interior.get(0, 0).is_none());
    // and so is the seam strip
    assert_eq!(merge_continents(&mut seam).err(), Some(WorldError::MissingEntity));
    assert_eq!(names(seam.get(0, 0).unwrap()), vec![(2, 2), (2, 1), (1, 2), (1, 1)]);
    assert_eq!(names(seam.get(0, 1).unwrap()), vec![(2, 3), (1, 3)]);
}

#[test]
fn a_fold_that_misses_a_cell_changes_nothing() {
    let mut grid = full_grid(5, 4);
    grid.remove(4, 3);
    assert_eq!(merge_continents(&mut grid).err(), Some(WorldError::MissingEntity));
    assert!(grid.contains_key(2, 2));
    assert!(grid.contains_key(0, 0));
    assert_eq!(names(grid.get(2, 2).unwrap()), vec![(2, 2)]);
}

#[test]
fn a_grid_too_small_to_fold_is_refused() {
    let mut grid = full_grid(2, 5);
    assert_eq!(merge_continents(&mut grid).err(), Some(WorldError::MissingEntity));
    assert!(grid.contains_key(1, 1));
}

#[test]
fn the_move_wraps_around_the_canvas() {
    let mut continent = continent_with(0, 0, &[(0, 0), (8, 8), (7, 15), (15, 7), (9, 3)]);
    move_pixels(&mut continent, &Size16::new(8, 8), &Size16::new(16, 16));
    assert_eq!(pixels(&continent), vec![(8, 8), (0, 0), (15, 7), (7, 15), (1, 11)]);
    assert_eq!(continent.site_point, Point16::new(0, 0));
    // the boxes are drawn anew around the moved pixels
    assert_eq!(continent.bottom_left, Point16::new(0, 0));
    assert_eq!(continent.top_right, Point16::new(15, 15));
    let region = &continent.realms[0].provinces[0].regions[0];
    assert_eq!(region.bottom_left, Point16::new(0, 0));
    assert_eq!(region.top_right, Point16::new(15, 15));
}

#[test]
fn the_move_draws_the_boxes_anew() {
    let mut continent = continent_with(0, 0, &[(9, 10), (12, 14)]);
    move_pixels(&mut continent, &Size16::new(8, 8), &Size16::new(16, 16));
    assert_eq!(pixels(&continent), vec![(1, 2), (4, 6)]);
    assert_eq!(continent.bottom_left, Point16::new(1, 2));
    assert_eq!(continent.top_right, Point16::new(4, 6));
    let realm = &continent.realms[0];
    assert_eq!((realm.bottom_left, realm.top_right), (Point16::new(1, 2), Point16::new(4, 6)));
    let province = &realm.provinces[0];
    assert_eq!(
        (province.bottom_left, province.top_right),
        (Point16::new(1, 2), Point16::new(4, 6))
    );
}

#[test]
fn the_move_by_nothing_and_by_the_whole_canvas_change_nothing() {
    let mut continent = continent_with(0, 0, &[(0, 0), (5, 9), (15, 15)]);
    move_pixels(&mut continent, &Size16::new(0, 0), &Size16::new(16, 16));
    assert_eq!(pixels(&continent), vec![(0, 0), (5, 9), (15, 15)]);
    move_pixels(&mut continent, &Size16::new(16, 16), &Size16::new(16, 16));
    assert_eq!(pixels(&continent), vec![(0, 0), (5, 9), (15, 15)]);
}

#[test]
fn the_move_brings_no_two_pixels_together() {
    let mut all = Vec::new();
    for x in 0..16u16 {
        for y in 0..12u16 {
            all.push((x, y));
        }
    }
    let mut continent = continent_with(0, 0, &all);
    move_pixels(&mut continent, &Size16::new(6, 4), &Size16::new(16, 12));
    let mut moved = pixels(&continent);
    moved.sort();
    assert_eq!(moved, all);
}

fn planet_on(settings: &PlanetSettings) -> Planet {
    let grid = settings.final_continent_grid_size;
    let mut edge = ContinentGrid::new(grid);
    let mut interior = ContinentGrid::new(grid);
    for x in 0..grid.width {
        for y in 0..grid.height {
            if x == 0 || y == 0 {
                edge.insert(x, y, continent_with(x, y, &[(x, y)]));
            } else {
                interior.insert(x, y, continent_with(x, y, &[(x, y)]));
            }
        }
    }
    Planet { edge_continents: edge, continents: interior }
}

#[test]
fn the_planet_moves_by_the_margin() {
    let settings = create_planet_settings(8, 8, 4, 4, 4, 2).unwrap();
    let mut planet = planet_on(&settings);
    move_continents_pixels_towards_edge(&mut planet, &settings);
    assert_eq!(pixels(planet.edge_continents.get(0, 0).unwrap()), vec![(8, 8)]);
    assert_eq!(pixels(planet.edge_continents.get(0, 1).unwrap()), vec![(8, 9)]);
    assert_eq!(pixels(planet.edge_continents.get(1, 0).unwrap()), vec![(9, 8)]);
    assert_eq!(pixels(planet.continents.get(1, 1).unwrap()), vec![(9, 9)]);
}

#[test]
fn the_planet_moves_only_on_the_final_grid() {
    let settings = create_planet_settings(8, 8, 4, 4, 4, 2).unwrap();
    let mut planet = planet_on(&settings);
    planet.continents.insert(0, 1, continent_with(0, 1, &[(12, 12)]));
    planet.edge_continents.insert(1, 1, continent_with(1, 1, &[(12, 12)]));
    move_continents_pixels_towards_edge(&mut planet, &settings);
    assert_eq!(pixels(planet.continents.get(0, 1).unwrap()), vec![(12, 12)]);
    assert_eq!(pixels(planet.edge_continents.get(1, 1).unwrap()), vec![(12, 12)]);
}

fn wide_settings() -> PlanetSettings {
    // a final grid of four by four cells
    create_planet_settings(16, 16, 4, 4, 4, 4).unwrap()
}

#[test]
fn the_merge_gathers_the_seams_in_the_corner() {
    let settings = wide_settings();
    assert_eq!(settings.final_continent_grid_size, Size16::new(4, 4));
    let mut planet = planet_on(&settings);
    assert_eq!(merge_centered_continents(&mut planet, &settings), Ok(()));
    let corner = planet.edge_continents.get(0, 0).unwrap();
    assert_eq!(names(corner), vec![(0, 0), (0, 3), (3, 0)]);
    assert!(planet.edge_continents.get(0, 3).is_none());
    assert!(planet.edge_continents.get(3, 0).is_none());
    assert_eq!(names(planet.edge_continents.get(0, 1).unwrap()), vec![(0, 1)]);
    assert_eq!(names(planet.edge_continents.get(2, 0).unwrap()), vec![(2, 0)]);
}

#[test]
fn the_merge_gathers_the_last_row_and_column() {
    let settings = wide_settings();
    let mut planet = planet_on(&settings);
    assert_eq!(merge_centered_continents(&mut planet, &settings), Ok(()));
    assert_eq!(names(planet.continents.get(1, 2).unwrap()), vec![(1, 2), (1, 3)]);
    assert_eq!(names(planet.continents.get(2, 1).unwrap()), vec![(2, 1), (3, 1)]);
    assert_eq!(
        names(planet.continents.get(2, 2).unwrap()),
        vec![(2, 2), (2, 3), (3, 3), (3, 2)]
    );
    assert_eq!(names(planet.continents.get(1, 1).unwrap()), vec![(1, 1)]);
    for i in 1..4u16 {
        assert!(planet.continents.get(i, 3).is_none());
        assert!(planet.continents.get(3, i).is_none());
    }
}

#[test]
fn the_merge_moves_realms_last_first() {
    let settings = wide_settings();
    let mut planet = planet_on(&settings);
    let mut donor = continent_with(0, 3, &[(0, 3)]);
    let mut second = Realm::new(Point16::new(50, 50), Point16::new(0, 0));
    let mut province = Province::new(Point16::new(0, 0), Point16::new(0, 0));
    let mut region = Region::new(Point16::new(0, 0));
    region.pixels.push((50, 50));
    province.regions.push(region);
    second.provinces.push(province);
    donor.realms.push(second);
    planet.edge_continents.insert(0, 3, donor);
    assert_eq!(merge_centered_continents(&mut planet, &settings), Ok(()));
    let corner = planet.edge_continents.get(0, 0).unwrap();
    assert_eq!(names(corner), vec![(0, 0), (50, 50), (0, 3), (3, 0)]);
}

#[test]
fn the_merge_takes_apart_what_lies_over_each_other() {
    let settings = wide_settings();
    let mut planet = planet_on(&settings);
    // the corner gets a pixel twice, from itself and from the seam's last cell
    planet.edge_continents.insert(0, 3, continent_with(0, 3, &[(0, 0), (0, 3)]));
    // the seam cells next to the ones that leave hold pixels of the corner
    planet.edge_continents.insert(2, 0, continent_with(2, 0, &[(0, 0), (2, 0), (3, 0)]));
    planet.edge_continents.insert(0, 2, continent_with(0, 2, &[(0, 3)]));
    // the gathered interior holds pixels of the seam strip
    planet.continents.insert(1, 2, continent_with(1, 2, &[(1, 2), (1, 0), (0, 0)]));
    planet.continents.insert(3, 1, continent_with(3, 1, &[(0, 1), (3, 1)]));
    planet.continents.insert(3, 3, continent_with(3, 3, &[(2, 0)]));
    // an interior cell that the merge does not come to keeps what it holds
    planet.continents.insert(1, 1, continent_with(1, 1, &[(0, 0), (1, 1)]));
    assert_eq!(merge_centered_continents(&mut planet, &settings), Ok(()));
    assert_eq!(pixels(planet.edge_continents.get(0, 0).unwrap()), vec![(0, 0), (0, 3), (3, 0)]);
    assert_eq!(pixels(planet.edge_continents.get(2, 0).unwrap()), vec![(2, 0)]);
    // a continent left without a realm leaves the map
    assert!(planet.edge_continents.get(0, 2).is_none());
    // every box is the smallest around what stayed
    let corner = planet.edge_continents.get(0, 0).unwrap();
    assert_eq!((corner.bottom_left, corner.top_right), (Point16::new(0, 0), Point16::new(3, 3)));
    let next = planet.edge_continents.get(2, 0).unwrap();
    assert_eq!((next.bottom_left, next.top_right), (Point16::new(2, 0), Point16::new(2, 0)));
    let kept = planet.continents.get(1, 1).unwrap();
    assert_eq!((kept.bottom_left, kept.top_right), (Point16::new(0, 0), Point16::new(1, 1)));
    assert_eq!(pixels(planet.continents.get(1, 2).unwrap()), vec![(1, 2), (1, 3)]);
    assert_eq!(pixels(planet.continents.get(2, 1).unwrap()), vec![(2, 1), (3, 1)]);
    assert_eq!(names(planet.continents.get(2, 2).unwrap()), vec![(2, 2), (2, 3), (3, 2)]);
    assert_eq!(pixels(planet.continents.get(1, 1).unwrap()), vec![(0, 0), (1, 1)]);
}

#[test]
fn a_merged_planet_cannot_be_merged_again() {
    let settings = wide_settings();
    let mut planet = planet_on(&settings);
    assert_eq!(merge_centered_continents(&mut planet, &settings), Ok(()));
    assert_eq!(merge_centered_continents(&mut planet, &settings), Err(WorldError::MissingEntity));
    assert_eq!(names(planet.edge_continents.get(0, 0).unwrap()), vec![(0, 0), (0, 3), (3, 0)]);
}

#[test]
fn a_merge_that_misses_a_continent_changes_nothing() {
    let settings = wide_settings();
    let mut planet = planet_on(&settings);
    planet.continents.remove(2, 3);
    assert_eq!(merge_centered_continents(&mut planet, &settings), Err(WorldError::MissingEntity));
    assert_eq!(names(planet.edge_continents.get(0, 0).unwrap()), vec![(0, 0)]);
    assert!(planet.edge_continents.contains_key(0, 3));
    assert_eq!(names(planet.continents.get(1, 2).unwrap()), vec![(1, 2)]);
}

#[test]
fn a_merge_reads_only_the_last_rows_and_columns() {
    let settings = wide_settings();
    let mut planet = planet_on(&settings);
    planet.continents.remove(1, 1);
    assert_eq!(merge_centered_continents(&mut planet, &settings), Ok(()));
    assert!(planet.continents.get(1, 1).is_none());
}

#[test]
fn a_final_grid_of_two_cells_is_too_small_to_merge() {
    let settings = create_planet_settings(8, 8, 4, 4, 4, 2).unwrap();
    let mut planet = planet_on(&settings);
    assert_eq!(merge_centered_continents(&mut planet, &settings), Err(WorldError::MissingEntity));
}
