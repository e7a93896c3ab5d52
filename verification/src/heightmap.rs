//! Terrain heights of one square chunk of the world.
use vstd::prelude::*;

verus! {

/// Number of cells along each side of a chunk.
pub const CHUNK_SIZE_M: usize = 16;

/// The height of the ground in every cell of a chunk, stored row by row along
/// z.
#[derive(Clone, Debug)]
pub struct HeightMap {
    map: [[u64; CHUNK_SIZE_M]; CHUNK_SIZE_M],
}

impl HeightMap {
    /// The height stored for the cell at `(x, z)`.
    pub closed spec fn cell(&self, x: int, z: int) -> u64 {
        self.map[z][x]
    }

    /// A chunk with the given rows: `map[z][x]` is the height at `(x, z)`.
    pub fn new(map: [[u64; CHUNK_SIZE_M]; CHUNK_SIZE_M]) -> (chunk: HeightMap)
        ensures
            forall|x: int, z: int|
                0 <= x < CHUNK_SIZE_M && 0 <= z < CHUNK_SIZE_M ==> #[trigger] chunk.cell(x, z)
                    == map[z][x],
    {
        HeightMap { map }
    }

    /// A chunk that has the same height everywhere.
    pub fn flat(height: u64) -> (chunk: HeightMap)
        ensures
            forall|x: int, z: int|
                0 <= x < CHUNK_SIZE_M && 0 <= z < CHUNK_SIZE_M ==> #[trigger] chunk.cell(x, z)
                    == height,
    {
        HeightMap { map: [[height; CHUNK_SIZE_M]; CHUNK_SIZE_M] }
    }

    /// The height at `(x, z)`.
    pub fn height_at(&self, x: usize, z: usize) -> (height: u64)
        requires
            x < CHUNK_SIZE_M,
            z < CHUNK_SIZE_M,
        ensures
            height == self.cell(x as int, z as int),
    {
        self.map[z][x]
    }
}

} // verus!
