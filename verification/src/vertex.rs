use vstd::prelude::*;

verus! {

/// One mesh vertex in the layout the index buffers refer to.
///
/// Every component is the IEEE-754 single-precision bit pattern of the real
/// coordinate, so a vertex is a plain value that can be copied, compared and
/// handed to a renderer bit for bit. The library never interprets the bits.
#[derive(Clone, Copy, Debug, PartialEq, Eq)]
pub struct Vertex {
    pub position: [u32; 3],
    pub normal: [u32; 3],
    pub tex_coords: [u32; 2],
}

impl Vertex {
    /// A vertex with exactly the given components.
    pub fn new(position: [u32; 3], normal: [u32; 3], tex_coords: [u32; 2]) -> (v: Vertex)
        ensures
            v.position == position,
            v.normal == normal,
            v.tex_coords == tex_coords,
    {
        Vertex { position, normal, tex_coords }
    }
}

} // verus!
