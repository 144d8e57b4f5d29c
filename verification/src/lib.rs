//! Procedural generation of a tileable planetary map.
//!
//! A canvas of pixels is partitioned into Voronoi regions, the regions are
//! gathered bottom-up into provinces, realms and continents by nearest site,
//! every continent is shaded along a tectonic gradient, and the oversized
//! generation margin is folded away so that the final image wraps around.

pub mod color;
pub mod continent;
pub mod error;
pub mod grid;
pub mod hierarchy;
pub mod hierarchy_laws;
pub mod image_builder;
pub mod marks;
pub mod pixels_laws;
pub mod pixels_utils;
pub mod planet_builder;
pub mod point;
pub mod seam;
pub mod seam_laws;
pub mod seamless;
pub mod seamless_laws;
pub mod seed;
pub mod settings;
pub mod shader;
pub mod shader_laws;
pub mod sites;
pub mod sums;
pub mod voronoi_builder;

