//! Colours, and the colours of the surfaces of a height map.

use vstd::prelude::*;

verus! {

/// The grey value halfway up the scale.
pub const GREY_VALUE: u8 = 255 / 2;

/// A colour of eight bits for each of red, green and blue.
#[derive(Clone, Copy, Debug, PartialEq, Eq, Structural)]
pub struct Color8 {
    pub r: u8,
    pub g: u8,
    pub b: u8,
}

impl Color8 {
    pub fn new(r: u8, g: u8, b: u8) -> (color: Color8)
        ensures
            color == (Color8 { r, g, b }),
    {
        Color8 { r, g, b }
    }
}

pub fn new_color(r: u8, g: u8, b: u8) -> (color: Color8)
    ensures
        color == (Color8 { r, g, b }),
{
    Color8 { r, g, b }
}

/// Mid grey.
pub fn grey_color() -> (color: Color8)
    ensures
        color == (Color8 { r: GREY_VALUE, g: GREY_VALUE, b: GREY_VALUE }),
{
    Color8 { r: GREY_VALUE, g: GREY_VALUE, b: GREY_VALUE }
}

/// White.
pub fn white_color() -> (color: Color8)
    ensures
        color == (Color8 { r: 255, g: 255, b: 255 }),
{
    Color8 { r: 255, g: 255, b: 255 }
}

/// The kinds of surface that a height map is coloured by, from the deep
/// sea up to the peaks.
#[derive(Clone, Copy, Debug, PartialEq, Eq, Structural)]
pub enum SurfaceDepths {
    DeepSea,
    ShallowSea,
    Coast,
    Plains,
    GentleHill,
    SteepHill,
    RuggedHill,
    LowerMountain,
    Plateaus,
    HighMountain,
    MountainPlateaus,
    Peaks,
}

impl SurfaceDepths {
    /// The grey value that the surface stays below.
    pub open spec fn limit(self) -> int {
        match self {
            SurfaceDepths::DeepSea => 35,
            SurfaceDepths::ShallowSea => 50,
            SurfaceDepths::Coast => 60,
            SurfaceDepths::Plains => 84,
            SurfaceDepths::GentleHill => 105,
            SurfaceDepths::SteepHill => 126,
            SurfaceDepths::RuggedHill => 147,
            SurfaceDepths::LowerMountain => 168,
            SurfaceDepths::Plateaus => 189,
            SurfaceDepths::HighMountain => 210,
            SurfaceDepths::MountainPlateaus => 231,
            SurfaceDepths::Peaks => 256,
        }
    }

    /// The grey value at which the surface begins: the limit of the surface
    /// below it.
    pub open spec fn floor(self) -> int {
        match self {
            SurfaceDepths::DeepSea => 0,
            SurfaceDepths::ShallowSea => 35,
            SurfaceDepths::Coast => 50,
            SurfaceDepths::Plains => 60,
            SurfaceDepths::GentleHill => 84,
            SurfaceDepths::SteepHill => 105,
            SurfaceDepths::RuggedHill => 126,
            SurfaceDepths::LowerMountain => 147,
            SurfaceDepths::Plateaus => 168,
            SurfaceDepths::HighMountain => 189,
            SurfaceDepths::MountainPlateaus => 210,
            SurfaceDepths::Peaks => 231,
        }
    }

    /// The colour that the surface is drawn in.
    pub open spec fn color(self) -> Color8 {
        match self {
            SurfaceDepths::DeepSea => Color8 { r: 28, g: 101, b: 142 },
            SurfaceDepths::ShallowSea => Color8 { r: 47, g: 137, b: 187 },
            SurfaceDepths::Coast => Color8 { r: 142, g: 182, b: 134 },
            SurfaceDepths::Plains => Color8 { r: 121, g: 162, b: 92 },
            SurfaceDepths::GentleHill => Color8 { r: 138, g: 170, b: 96 },
            SurfaceDepths::SteepHill => Color8 { r: 167, g: 184, b: 101 },
            SurfaceDepths::RuggedHill => Color8 { r: 184, g: 192, b: 105 },
            SurfaceDepths::LowerMountain => Color8 { r: 239, g: 225, b: 123 },
            SurfaceDepths::Plateaus => Color8 { r: 223, g: 195, b: 113 },
            SurfaceDepths::HighMountain => Color8 { r: 202, g: 158, b: 100 },
            SurfaceDepths::MountainPlateaus => Color8 { r: 166, g: 135, b: 113 },
            SurfaceDepths::Peaks => Color8 { r: 255, g: 255, b: 255 },
        }
    }
}

/// The surface at a height given as a grey value.
pub fn surface_by_depth(grey_value: u8) -> (surface: SurfaceDepths)
    ensures
        surface.floor() <= grey_value < surface.limit(),
{
    if grey_value < 35 {
        SurfaceDepths::DeepSea
    } else if grey_value < 50 {
        SurfaceDepths::ShallowSea
    } else if grey_value < 60 {
        SurfaceDepths::Coast
    } else if grey_value < 84 {
        SurfaceDepths::Plains
    } else if grey_value < 105 {
        SurfaceDepths::GentleHill
    } else if grey_value < 126 {
        SurfaceDepths::SteepHill
    } else if grey_value < 147 {
        SurfaceDepths::RuggedHill
    } else if grey_value < 168 {
        SurfaceDepths::LowerMountain
    } else if grey_value < 189 {
        SurfaceDepths::Plateaus
    } else if grey_value < 210 {
        SurfaceDepths::HighMountain
    } else if grey_value < 231 {
        SurfaceDepths::MountainPlateaus
    } else {
        SurfaceDepths::Peaks
    }
}

/// The colour of the surface at a height given as a grey value: that of
/// the one surface whose range of grey values holds it.
pub fn get_pixel_color_by_depth(grey_value: u8) -> (color: Color8)
    ensures
        exists|surface: SurfaceDepths|
            surface.floor() <= grey_value < surface.limit() && color == #[trigger] surface.color(),
{
    let surface = surface_by_depth(grey_value);
    let color = match surface {
        SurfaceDepths::DeepSea => Color8 { r: 28, g: 101, b: 142 },
        SurfaceDepths::ShallowSea => Color8 { r: 47, g: 137, b: 187 },
        SurfaceDepths::Coast => Color8 { r: 142, g: 182, b: 134 },
        SurfaceDepths::Plains => Color8 { r: 121, g: 162, b: 92 },
        SurfaceDepths::GentleHill => Color8 { r: 138, g: 170, b: 96 },
        SurfaceDepths::SteepHill => Color8 { r: 167, g: 184, b: 101 },
        SurfaceDepths::RuggedHill => Color8 { r: 184, g: 192, b: 105 },
        SurfaceDepths::LowerMountain => Color8 { r: 239, g: 225, b: 123 },
        SurfaceDepths::Plateaus => Color8 { r: 223, g: 195, b: 113 },
        SurfaceDepths::HighMountain => Color8 { r: 202, g: 158, b: 100 },
        SurfaceDepths::MountainPlateaus => Color8 { r: 166, g: 135, b: 113 },
        SurfaceDepths::Peaks => Color8 { r: 255, g: 255, b: 255 },
    };
    assert(color == surface.color());
    color
}

/// The grey value above which a pixel counts as very light.
pub const LIGHT_PIXEL: u8 = 172;

/// What the map of very light pixels shows for a pixel of the given grey
/// value: the value itself where it is very light, and black elsewhere.
pub fn light_pixel_value(px_value: u8) -> (shown: u8)
    ensures
        shown == if px_value > LIGHT_PIXEL {
            px_value
        } else {
            0
        },
{
    if px_value > LIGHT_PIXEL {
        px_value
    } else {
        0
    }
}

/// No two surfaces share a grey value, so the surface at a height is the
/// only one whose range holds it.
pub proof fn lemma_surfaces_apart(a: SurfaceDepths, b: SurfaceDepths, grey_value: u8)
    requires
        a.floor() <= grey_value < a.limit(),
        b.floor() <= grey_value < b.limit(),
    ensures
        a == b,
{
}

} // verus!
