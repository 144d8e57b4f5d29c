use world::color::{
    get_pixel_color_by_depth, grey_color, new_color, surface_by_depth, white_color, Color8,
    SurfaceDepths, GREY_VALUE,
};
use world::error::WorldError;
use world::shader::get_degrees_by_index;

#[test]
fn every_error_has_its_message() {
    assert_eq!(WorldError::MissingEntity.message(), "a grid cell or a texture is missing");
    assert_eq!(
        WorldError::DegenerateTexture.message(),
        "a texture or a bounding box has no extent"
    );
    assert_eq!(
        WorldError::SamplingExhaustion.message(),
        "cannot place the requested number of sites"
    );
    assert_eq!(WorldError::DegenerateSites.message(), "the sites have no sound diagram");
}

#[test]
fn colors_hold_what_they_are_given() {
    assert_eq!(Color8::new(1, 2, 3), Color8 { r: 1, g: 2, b: 3 });
    assert_eq!(new_color(4, 5, 6), Color8 { r: 4, g: 5, b: 6 });
    assert_eq!(GREY_VALUE, 127);
    assert_eq!(grey_color(), Color8::new(127, 127, 127));
    assert_eq!(white_color(), Color8::new(255, 255, 255));
}

#[test]
fn depth_colors_change_at_their_limits() {
    assert_eq!(get_pixel_color_by_depth(0), Color8::new(28, 101, 142));
    assert_eq!(get_pixel_color_by_depth(34), Color8::new(28, 101, 142));
    assert_eq!(get_pixel_color_by_depth(35), Color8::new(47, 137, 187));
    assert_eq!(get_pixel_color_by_depth(49), Color8::new(47, 137, 187));
    assert_eq!(get_pixel_color_by_depth(50), Color8::new(142, 182, 134));
    assert_eq!(get_pixel_color_by_depth(60), Color8::new(121, 162, 92));
    assert_eq!(get_pixel_color_by_depth(84), Color8::new(138, 170, 96));
    assert_eq!(get_pixel_color_by_depth(105), Color8::new(167, 184, 101));
    assert_eq!(get_pixel_color_by_depth(126), Color8::new(184, 192, 105));
    assert_eq!(get_pixel_color_by_depth(147), Color8::new(239, 225, 123));
    assert_eq!(get_pixel_color_by_depth(168), Color8::new(223, 195, 113));
    assert_eq!(get_pixel_color_by_depth(189), Color8::new(202, 158, 100));
    assert_eq!(get_pixel_color_by_depth(210), Color8::new(166, 135, 113));
    assert_eq!(get_pixel_color_by_depth(230), Color8::new(166, 135, 113));
    assert_eq!(get_pixel_color_by_depth(231), Color8::new(255, 255, 255));
    assert_eq!(get_pixel_color_by_depth(255), Color8::new(255, 255, 255));
}

#[test]
fn surfaces_follow_the_depth() {
    assert_eq!(surface_by_depth(0), SurfaceDepths::DeepSea);
    assert_eq!(surface_by_depth(59), SurfaceDepths::Coast);
    assert_eq!(surface_by_depth(83), SurfaceDepths::Plains);
    assert_eq!(surface_by_depth(252), SurfaceDepths::Peaks);
}

#[test]
fn degrees_go_round_in_sixteenths() {
    let expected: [u16; 16] =
        [0, 22, 45, 67, 90, 112, 135, 157, 180, 202, 225, 247, 270, 292, 315, 337];
    for index in 0..16u8 {
        assert_eq!(get_degrees_by_index(index), expected[index as usize]);
    }
    assert_eq!(get_degrees_by_index(16), 337);
    assert_eq!(get_degrees_by_index(255), 337);
}
