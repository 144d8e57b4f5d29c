//! The ways in which a phase of the generation gives up.

use vstd::prelude::*;

verus! {

/// Why a phase of the generation gave up.
#[derive(Clone, Copy, Debug, PartialEq, Eq, Structural)]
pub enum WorldError {
    /// Something that a phase looks up is not there: a grid cell that it
    /// relies on holds no entity, or the table of textures has none for the
    /// plate direction of a continent.
    MissingEntity,
    /// A gradient texture or a continent's bounding box has no extent.
    DegenerateTexture,
    /// The sampler cannot place the requested number of separated sites.
    SamplingExhaustion,
    /// The sites have no Voronoi diagram that can be relied on: two of them
    /// coincide, they span no triangle, or the triangle that their
    /// triangulation starts from is not known to be of bounded size.
    DegenerateSites,
}

impl WorldError {
    /// The diagnostic for the error, as a mathematical value.
    pub open spec fn message_text(self) -> Seq<char> {
        match self {
            WorldError::MissingEntity => "a grid cell or a texture is missing"@,
            WorldError::DegenerateTexture => "a texture or a bounding box has no extent"@,
            WorldError::SamplingExhaustion => "cannot place the requested number of sites"@,
            WorldError::DegenerateSites => "the sites have no sound diagram"@,
        }
    }

    /// A one-line diagnostic for the error.
    pub fn message(&self) -> (text: &'static str)
        ensures
            text@ == self.message_text(),
    {
        match self {
            WorldError::MissingEntity => {
                proof { reveal_strlit("a grid cell or a texture is missing"); }
                "a grid cell or a texture is missing"
            },
            WorldError::DegenerateTexture => {
                proof { reveal_strlit("a texture or a bounding box has no extent"); }
                "a texture or a bounding box has no extent"
            },
            WorldError::SamplingExhaustion => {
                proof { reveal_strlit("cannot place the requested number of sites"); }
                "cannot place the requested number of sites"
            },
            WorldError::DegenerateSites => {
                proof { reveal_strlit("the sites have no sound diagram"); }
                "the sites have no sound diagram"
            },
        }
    }
}

} // verus!
