//! The errors of mesh construction.
use vstd::prelude::*;

verus! {

/// Why a face, a join or an assembled shape could not be built.
#[derive(Clone, Copy, Debug, PartialEq, Eq, Structural)]
pub enum MeshError {
    /// A grid needs at least one vertex along each axis; the counts asked for
    /// are carried along.
    InsufficientResolution { n_x: u32, n_z: u32 },
    /// A join names the same face on both sides.
    SameFaceJoin,
    /// A border loop handed to the stitcher has no vertex.
    EmptyEdgeLoop,
    /// More vertices than a 16-bit index can address.
    IndexOverflow,
}

impl MeshError {
    /// The text that describes each kind of error.
    pub open spec fn text(&self) -> Seq<char> {
        match self {
            MeshError::InsufficientResolution { .. } => "Cannot create mesh (not enough vertices)"@,
            MeshError::SameFaceJoin => "Edges belong to the same face"@,
            MeshError::EmptyEdgeLoop => "Received empty edge in EdgeJoin"@,
            MeshError::IndexOverflow => "Cannot address more than 65536 vertices"@,
        }
    }

    /// A short description of the error, for people.
    pub fn message(&self) -> (text: &'static str)
        ensures
            text@ == self.text(),
    {
        match self {
            MeshError::InsufficientResolution { .. } => "Cannot create mesh (not enough vertices)",
            MeshError::SameFaceJoin => "Edges belong to the same face",
            MeshError::EmptyEdgeLoop => "Received empty edge in EdgeJoin",
            MeshError::IndexOverflow => "Cannot address more than 65536 vertices",
        }
    }
}

} // verus!
