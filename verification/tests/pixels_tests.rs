use world::continent::{Continent, Province, Realm, Region};
use world::marks::PixelMarks;
use world::pixels_utils::{
    clean_continent, collect_pixels, mark_overlaping_pixels, note_pixels,
    remove_extra_realms, remove_overlaping_pixels_from_regions, remove_pixels_from_continent,
};
use world::point::Point16;

fn region_of(pixels: &[(u16, u16)]) -> Region {
    let mut region = Region::new(Point16::new(0, 0));
    region.pixels = pixels.to_vec();
    region
}

fn province_of(regions: Vec<Region>) -> Province {
    let mut province = Province::new(Point16::new(0, 0), Point16::new(0, 0));
    province.regions = regions;
    province
}

fn realm_of(name: u16, provinces: Vec<Province>) -> Realm {
    let mut realm = Realm::new(Point16::new(name, 0), Point16::new(0, 0));
    realm.provinces = provinces;
    realm
}

fn continent_of(realms: Vec<Realm>) -> Continent {
    let mut continent = Continent::new(Point16::new(0, 0), Point16::new(0, 0), 0, 200);
    continent.realms = realms;
    continent
}

fn shape(continent: &Continent) -> Vec<Vec<Vec<Vec<(u16, u16)>>>> {
    continent
        .realms
        .iter()
        .map(|realm| {
            realm
                .provinces
                .iter()
                .map(|province| province.regions.iter().map(|r| r.pixels.clone()).collect())
                .collect()
        })
        .collect()
}

#[test]
fn marks_hold_what_is_put_in() {
    let mut marks = PixelMarks::new();
    assert!(!marks.contains_key((1, 2)));
    assert_eq!(marks.get((1, 2)), None);
    marks.insert((1, 2), false);
    marks.insert((2, 1), true);
    assert!(marks.contains_key((1, 2)));
    assert_eq!(marks.get((1, 2)), Some(false));
    assert_eq!(marks.get((2, 1)), Some(true));
    marks.insert((1, 2), true);
    assert_eq!(marks.get((1, 2)), Some(true));
    assert!(!marks.contains_key((65535, 65535)));
    marks.insert((65535, 65535), false);
    assert!(marks.contains_key((65535, 65535)));
    assert!(!marks.contains_key((65535, 65534)));
}

#[test]
fn held_pixels_are_removed_and_the_marks_stay() {
    let mut continent = continent_of(vec![realm_of(
        1,
        vec![province_of(vec![region_of(&[(1, 1), (2, 2), (3, 3)]), region_of(&[(2, 2), (4, 4)])])],
    )]);
    let mut marks = PixelMarks::new();
    marks.insert((2, 2), false);
    remove_pixels_from_continent(&mut continent, &mut marks, false);
    assert_eq!(shape(&continent), vec![vec![vec![vec![(1, 1), (3, 3)], vec![(4, 4)]]]]);
    assert!(!marks.contains_key((1, 1)));
    assert!(marks.contains_key((2, 2)));
}

#[test]
fn a_noting_walk_keeps_each_pixel_once() {
    let mut continent = continent_of(vec![
        realm_of(1, vec![province_of(vec![region_of(&[(1, 1), (2, 2), (1, 1)])])]),
        realm_of(2, vec![province_of(vec![region_of(&[(2, 2), (5, 5)]), region_of(&[(9, 9)])])]),
    ]);
    let mut marks = PixelMarks::new();
    marks.insert((9, 9), true);
    remove_pixels_from_continent(&mut continent, &mut marks, true);
    assert_eq!(
        shape(&continent),
        vec![vec![vec![vec![(1, 1), (2, 2)]]], vec![vec![vec![(5, 5)]]]]
    );
    assert_eq!(marks.get((1, 1)), Some(false));
    assert_eq!(marks.get((2, 2)), Some(false));
    assert_eq!(marks.get((5, 5)), Some(false));
    assert_eq!(marks.get((9, 9)), Some(true));
}

#[test]
fn what_is_left_with_nothing_beneath_it_is_dropped() {
    let mut continent = continent_of(vec![
        realm_of(1, vec![province_of(vec![region_of(&[(1, 1)])])]),
        realm_of(
            2,
            vec![
                province_of(vec![region_of(&[(1, 1)]), region_of(&[])]),
                province_of(vec![region_of(&[(7, 7)]), region_of(&[(1, 1)])]),
            ],
        ),
        realm_of(3, vec![]),
        realm_of(4, vec![province_of(vec![])]),
    ]);
    let mut marks = PixelMarks::new();
    marks.insert((1, 1), false);
    remove_pixels_from_continent(&mut continent, &mut marks, false);
    assert_eq!(shape(&continent), vec![vec![vec![vec![(7, 7)]]]]);
    assert_eq!(continent.realms[0].grid_coord, Point16::new(2, 0));
}

#[test]
fn a_continent_may_be_left_without_a_realm() {
    let mut continent =
        continent_of(vec![realm_of(1, vec![province_of(vec![region_of(&[(1, 1)])])])]);
    let mut marks = PixelMarks::new();
    marks.insert((1, 1), false);
    remove_pixels_from_continent(&mut continent, &mut marks, true);
    assert!(continent.realms.is_empty());
}

#[test]
fn clean_continent_drops_what_is_vacant_and_keeps_every_pixel() {
    let mut continent = continent_of(vec![
        realm_of(1, vec![province_of(vec![region_of(&[]), region_of(&[(1, 1), (1, 1)])])]),
        realm_of(2, vec![province_of(vec![region_of(&[])])]),
        realm_of(3, vec![]),
    ]);
    clean_continent(&mut continent);
    assert_eq!(shape(&continent), vec![vec![vec![vec![(1, 1), (1, 1)]]]]);
}

#[test]
fn only_flagged_pixels_overlap() {
    let mut continent = continent_of(vec![realm_of(
        1,
        vec![province_of(vec![region_of(&[(1, 1), (2, 2)]), region_of(&[(3, 3)])])],
    )]);
    let mut marks = PixelMarks::new();
    marks.insert((1, 1), false);
    marks.insert((2, 2), true);
    marks.insert((3, 3), true);
    remove_overlaping_pixels_from_regions(&mut continent, &mut marks);
    assert_eq!(shape(&continent), vec![vec![vec![vec![(1, 1)]]]]);
    assert_eq!(marks.get((1, 1)), Some(false));
    assert_eq!(marks.get((2, 2)), Some(true));
}

#[test]
fn mark_overlaping_pixels_flags_what_both_hold() {
    let mut marks = PixelMarks::new();
    note_pixels(&vec![(1, 1), (2, 2), (3, 3)], &mut marks);
    mark_overlaping_pixels(&vec![(2, 2), (7, 7)], &mut marks);
    assert_eq!(marks.get((1, 1)), Some(false));
    assert_eq!(marks.get((2, 2)), Some(true));
    assert_eq!(marks.get((3, 3)), Some(false));
    assert_eq!(marks.get((7, 7)), None);
}

#[test]
fn note_pixels_clears_the_flag_of_a_pixel() {
    let mut marks = PixelMarks::new();
    marks.insert((2, 2), true);
    note_pixels(&vec![(2, 2)], &mut marks);
    assert_eq!(marks.get((2, 2)), Some(false));
}

#[test]
fn collect_pixels_walks_realms_provinces_and_regions() {
    let continent = continent_of(vec![
        realm_of(
            1,
            vec![
                province_of(vec![region_of(&[(1, 1), (2, 2)]), region_of(&[(3, 3)])]),
                province_of(vec![region_of(&[(4, 4)])]),
            ],
        ),
        realm_of(2, vec![province_of(vec![region_of(&[(5, 5), (1, 1)])])]),
    ]);
    assert_eq!(collect_pixels(&continent), vec![(1, 1), (2, 2), (3, 3), (4, 4), (5, 5), (1, 1)]);
}

#[test]
fn remove_extra_realms_takes_the_listed_realms_out() {
    let mut continent = continent_of(vec![
        realm_of(10, vec![]),
        realm_of(11, vec![]),
        realm_of(12, vec![]),
        realm_of(13, vec![]),
        realm_of(14, vec![]),
    ]);
    remove_extra_realms(&mut continent, vec![0, 2, 4]);
    let names: Vec<u16> = continent.realms.iter().map(|r| r.grid_coord.x).collect();
    assert_eq!(names, vec![11, 13]);
    remove_extra_realms(&mut continent, vec![]);
    assert_eq!(continent.realms.len(), 2);
}

#[test]
fn remove_extra_realms_takes_the_places_from_the_last_to_the_first() {
    let mut continent = continent_of(vec![
        realm_of(10, vec![]),
        realm_of(11, vec![]),
        realm_of(12, vec![]),
        realm_of(13, vec![]),
    ]);
    // place 1 of four goes first, then place 2 of three, then place 0 of two
    remove_extra_realms(&mut continent, vec![0, 2, 1]);
    let names: Vec<u16> = continent.realms.iter().map(|r| r.grid_coord.x).collect();
    assert_eq!(names, vec![12]);
    let mut continent = continent_of(vec![realm_of(10, vec![]), realm_of(11, vec![]), realm_of(12, vec![])]);
    remove_extra_realms(&mut continent, vec![1, 1]);
    let names: Vec<u16> = continent.realms.iter().map(|r| r.grid_coord.x).collect();
    assert_eq!(names, vec![10]);
}

#[test]
fn a_walk_draws_the_boxes_anew() {
    let mut continent = continent_of(vec![realm_of(
        0,
        vec![province_of(vec![region_of(&[(2, 3), (9, 9)]), region_of(&[(5, 1)])])],
    )]);
    let mut marks = PixelMarks::new();
    marks.insert((9, 9), false);
    remove_pixels_from_continent(&mut continent, &mut marks, false);
    assert_eq!(continent.bottom_left, Point16::new(2, 1));
    assert_eq!(continent.top_right, Point16::new(5, 3));
    let province = &continent.realms[0].provinces[0];
    assert_eq!(province.bottom_left, Point16::new(2, 1));
    assert_eq!(province.top_right, Point16::new(5, 3));
    assert_eq!(province.regions[0].bottom_left, Point16::new(2, 3));
    assert_eq!(province.regions[0].top_right, Point16::new(2, 3));
    assert_eq!(province.regions[1].bottom_left, Point16::new(5, 1));
}

#[test]
fn remove_extra_realms_draws_the_continents_box_anew() {
    let mut near = realm_of(1, vec![province_of(vec![region_of(&[(2, 3)])])]);
    near.bottom_left = Point16::new(2, 3);
    near.top_right = Point16::new(2, 3);
    let mut far = realm_of(2, vec![province_of(vec![region_of(&[(40, 50)])])]);
    far.bottom_left = Point16::new(40, 50);
    far.top_right = Point16::new(40, 50);
    let mut continent = continent_of(vec![near, far]);
    continent.bottom_left = Point16::new(2, 3);
    continent.top_right = Point16::new(40, 50);
    remove_extra_realms(&mut continent, vec![1]);
    assert_eq!(continent.realms.len(), 1);
    assert_eq!(continent.bottom_left, Point16::new(2, 3));
    assert_eq!(continent.top_right, Point16::new(2, 3));
    remove_extra_realms(&mut continent, vec![0]);
    assert!(continent.realms.is_empty());
    assert_eq!(continent.bottom_left, Point16::new(u16::MAX, u16::MAX));
    assert_eq!(continent.top_right, Point16::new(0, 0));
}
