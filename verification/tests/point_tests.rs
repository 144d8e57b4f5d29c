use world::point::{
    calculate_distance, center_of_two_points, try_map_min_max_points,
    try_map_min_max_points_by_points, try_map_points_min_max_points_by_points, Point16, Size16,
};

#[test]
fn size_and_point_hold_what_they_are_given() {
    let size = Size16::new(1792, 1024);
    assert_eq!(size.width, 1792);
    assert_eq!(size.height, 1024);
    let point = Point16::new(7, 9);
    assert_eq!(point.x, 7);
    assert_eq!(point.y, 9);
    assert_eq!(Point16::default(), Point16::new(0, 0));
}

#[test]
fn substract_takes_each_coordinate_off() {
    let p = Point16::substract(&Point16::new(100, 50), &Point16::new(30, 50));
    assert_eq!(p, Point16::new(70, 0));
}

#[test]
fn multiply_scales_each_coordinate() {
    let p = Point16::multiply(&Point16::new(3, 200), &Point16::new(5, 2));
    assert_eq!(p, Point16::new(15, 400));
}

#[test]
fn multiply_by_size_scales_each_axis() {
    let p = Point16::multiply_by_size(&Point16::new(3, 2), &Size16::new(14, 28));
    assert_eq!(p, Point16::new(42, 56));
}

#[test]
fn center_of_two_points_rounds_down() {
    let a = Point16::new(1, 2);
    let b = Point16::new(4, 65535);
    assert_eq!(center_of_two_points(&a, &b), Point16::new(2, 32768));
}

#[test]
fn center_of_two_points_does_not_overflow() {
    let a = Point16::new(65535, 65535);
    assert_eq!(center_of_two_points(&a, &a), Point16::new(65535, 65535));
}

#[test]
fn calculate_distance_is_the_square_of_the_distance() {
    assert_eq!(calculate_distance(&Point16::new(0, 0), &Point16::new(3, 4)), 25);
    assert_eq!(calculate_distance(&Point16::new(3, 4), &Point16::new(0, 0)), 25);
    assert_eq!(calculate_distance(&Point16::new(7, 7), &Point16::new(7, 7)), 0);
    assert_eq!(
        calculate_distance(&Point16::new(0, 0), &Point16::new(65535, 65535)),
        2 * 65535u64 * 65535u64
    );
}

#[test]
fn try_map_min_max_points_widens_to_a_pixel() {
    let mut bottom_left_x: u16 = u16::MAX;
    let mut bottom_left_y: u16 = u16::MAX;
    let mut top_right_x: u16 = u16::MIN;
    let mut top_right_y: u16 = u16::MIN;
    try_map_min_max_points(
        &mut bottom_left_x,
        &mut bottom_left_y,
        &mut top_right_x,
        &mut top_right_y,
        5,
        9,
    );
    assert_eq!((bottom_left_x, bottom_left_y, top_right_x, top_right_y), (5, 9, 5, 9));
    try_map_min_max_points(
        &mut bottom_left_x,
        &mut bottom_left_y,
        &mut top_right_x,
        &mut top_right_y,
        7,
        2,
    );
    assert_eq!((bottom_left_x, bottom_left_y, top_right_x, top_right_y), (5, 2, 7, 9));
}

#[test]
fn try_map_min_max_points_by_points_widens_to_a_box() {
    let mut bottom_left_x: u16 = 10;
    let mut bottom_left_y: u16 = 10;
    let mut top_right_x: u16 = 20;
    let mut top_right_y: u16 = 20;
    try_map_min_max_points_by_points(
        &mut bottom_left_x,
        &mut bottom_left_y,
        &mut top_right_x,
        &mut top_right_y,
        &Point16::new(12, 4),
        &Point16::new(30, 15),
    );
    assert_eq!((bottom_left_x, bottom_left_y, top_right_x, top_right_y), (10, 4, 30, 20));
}

#[test]
fn merging_into_the_box_that_encloses_nothing_yields_the_other_box() {
    let mut bottom_left = Point16::new(u16::MAX, u16::MAX);
    let mut top_right = Point16::new(u16::MIN, u16::MIN);
    try_map_points_min_max_points_by_points(
        &mut bottom_left,
        &mut top_right,
        &Point16::new(3, 4),
        &Point16::new(8, 9),
    );
    assert_eq!(bottom_left, Point16::new(3, 4));
    assert_eq!(top_right, Point16::new(8, 9));
}

#[test]
fn merging_the_box_that_encloses_nothing_changes_no_box() {
    let mut bottom_left = Point16::new(3, 4);
    let mut top_right = Point16::new(8, 9);
    try_map_points_min_max_points_by_points(
        &mut bottom_left,
        &mut top_right,
        &Point16::new(u16::MAX, u16::MAX),
        &Point16::new(u16::MIN, u16::MIN),
    );
    assert_eq!(bottom_left, Point16::new(3, 4));
    assert_eq!(top_right, Point16::new(8, 9));
}
