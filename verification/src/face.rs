//! A face: one rectangular grid patch with its triangulation and its four
//! border loops.
use vstd::prelude::*;
use crate::error::MeshError;
use crate::grid::{
    border_nx, border_nz, border_px, border_pz, bottom_border, left_border,
    lemma_slot_in_range, lemma_slot_order, lemma_triangle_index_in_range, right_border, slot,
    top_border, triangle_indices, triangles, valid_counts, widen,
};
use crate::vertex::Vertex;

verus! {

/// Every entry of `s` is an index below `n`.
pub open spec fn all_below(s: Seq<u16>, n: int) -> bool {
    forall|t: int| 0 <= t < s.len() ==> (#[trigger] s[t] as int) < n
}

/// A buffer whose integer reading stays below `n` holds only indices below
/// `n`.
pub proof fn lemma_widen_below(s: Seq<u16>, n: int)
    requires
        forall|t: int| 0 <= t < widen(s).len() ==> widen(s)[t] < n,
    ensures
        all_below(s, n),
{
    assert forall|t: int| 0 <= t < s.len() implies (#[trigger] s[t] as int) < n by {
        assert(widen(s)[t] == s[t] as int);
    }
}

/// Anything that can be drawn: a vertex buffer and a 16-bit index buffer into
/// it, three entries per triangle.
pub trait Mesh {
    /// The vertex buffer, as a sequence.
    spec fn vertex_seq(&self) -> Seq<Vertex>;

    /// The index buffer, as a sequence.
    spec fn index_seq(&self) -> Seq<u16>;

    /// The vertex buffer.
    fn vertices(&self) -> (out: &[Vertex])
        ensures
            out@ == self.vertex_seq(),
    ;

    /// The index buffer.
    fn indices(&self) -> (out: &[u16])
        ensures
            out@ == self.index_seq(),
    ;
}

/// A mesh patch in its own index space.
///
/// The four border loops run counter-clockwise when the grid the face was
/// built from is seen from above, with -z at the top and +x to the right.
#[derive(Debug)]
pub struct Face {
    vertices: Vec<Vertex>,
    indices: Vec<u16>,
    edge_px: Vec<u16>,
    edge_nx: Vec<u16>,
    edge_pz: Vec<u16>,
    edge_nz: Vec<u16>,
}

/// What a face holds, as sequences.
pub struct FaceView {
    pub vertices: Seq<Vertex>,
    pub indices: Seq<u16>,
    pub edge_px: Seq<u16>,
    pub edge_nx: Seq<u16>,
    pub edge_pz: Seq<u16>,
    pub edge_nz: Seq<u16>,
}

impl View for Face {
    type V = FaceView;

    closed spec fn view(&self) -> FaceView {
        FaceView {
            vertices: self.vertices@,
            indices: self.indices@,
            edge_px: self.edge_px@,
            edge_nx: self.edge_nx@,
            edge_pz: self.edge_pz@,
            edge_nz: self.edge_nz@,
        }
    }
}

/// Checks that every entry of `s` is below `n`.
pub(crate) fn check_all_below(s: &Vec<u16>, n: usize) -> (ok: bool)
    ensures
        ok == all_below(s@, n as int),
{
    let mut t: usize = 0;
    while t < s.len()
        invariant
            0 <= t <= s.len(),
            forall|q: int| 0 <= q < t ==> (#[trigger] s@[q] as int) < n,
        decreases s.len() - t,
    {
        if s[t] as usize >= n {
            return false;
        }
        t += 1;
    }
    true
}

impl Face {
    /// The face invariant: the triangulation and the four border loops refer
    /// only to vertices of this face.
    pub open spec fn wf(&self) -> bool {
        let n = self@.vertices.len() as int;
        &&& all_below(self@.indices, n)
        &&& all_below(self@.edge_px, n)
        &&& all_below(self@.edge_nx, n)
        &&& all_below(self@.edge_pz, n)
        &&& all_below(self@.edge_nz, n)
    }

    /// A face from its parts, taken as they are. The result is well formed
    /// exactly when every index given refers to one of the vertices given.
    pub fn new(
        y_up_vertices: Vec<Vertex>,
        indices: Vec<u16>,
        edge_px: Vec<u16>,
        edge_nx: Vec<u16>,
        edge_pz: Vec<u16>,
        edge_nz: Vec<u16>,
    ) -> (face: Face)
        ensures
            face@ == (FaceView {
                vertices: y_up_vertices@,
                indices: indices@,
                edge_px: edge_px@,
                edge_nx: edge_nx@,
                edge_pz: edge_pz@,
                edge_nz: edge_nz@,
            }),
    {
        Face { vertices: y_up_vertices, indices, edge_px, edge_nx, edge_pz, edge_nz }
    }

    /// Tells whether the face invariant holds.
    pub fn is_well_formed(&self) -> (ok: bool)
        ensures
            ok == self.wf(),
    {
        let n: usize = self.vertices.len();
        check_all_below(&self.indices, n) && check_all_below(&self.edge_px, n) && check_all_below(
            &self.edge_nx,
            n,
        ) && check_all_below(&self.edge_pz, n) && check_all_below(&self.edge_nz, n)
    }

    /// The border at the largest x, from the largest z to the smallest.
    pub fn edge_px(&self) -> (edge: &Vec<u16>)
        ensures
            edge@ == self@.edge_px,
    {
        &self.edge_px
    }

    /// The border at the smallest x, from the smallest z to the largest.
    pub fn edge_nx(&self) -> (edge: &Vec<u16>)
        ensures
            edge@ == self@.edge_nx,
    {
        &self.edge_nx
    }

    /// The border at the largest z, from the smallest x to the largest.
    pub fn edge_pz(&self) -> (edge: &Vec<u16>)
        ensures
            edge@ == self@.edge_pz,
    {
        &self.edge_pz
    }

    /// The border at the smallest z, from the largest x to the smallest.
    pub fn edge_nz(&self) -> (edge: &Vec<u16>)
        ensures
            edge@ == self@.edge_nz,
    {
        &self.edge_nz
    }

    /// Builds the face of an `n_x` by `n_z` vertex grid.
    ///
    /// `vertex_at(i, k)` supplies the vertex in column `i` of row `k`; it is
    /// asked once for every grid position, row by row. The triangulation and
    /// the border loops are those of the grid.
    ///
    /// Fails with `InsufficientResolution` when either count is zero, and
    /// with `IndexOverflow` when the grid has more vertices than a 16-bit
    /// index can address.
    pub fn from_function<F: Fn(u32, u32) -> Vertex>(n_x: u32, n_z: u32, vertex_at: F) -> (result:
        Result<Face, MeshError>)
        requires
            forall|i: u32, k: u32| i < n_x && k < n_z ==> call_requires(vertex_at, (i, k)),
        ensures
            n_x == 0 || n_z == 0 ==> result == Err::<Face, MeshError>(
                MeshError::InsufficientResolution { n_x, n_z },
            ),
            n_x >= 1 && n_z >= 1 && n_x * n_z > 65536 ==> result == Err::<Face, MeshError>(
                MeshError::IndexOverflow,
            ),
            valid_counts(n_x as int, n_z as int) ==> result is Ok,
            result matches Ok(face) ==> {
                &&& face.wf()
                &&& face@.vertices.len() == n_x * n_z
                &&& forall|i: u32, k: u32|
                    i < n_x && k < n_z ==> call_ensures(
                        vertex_at,
                        (i, k),
                        #[trigger] face@.vertices[slot(n_x as int, i as int, k as int)],
                    )
                &&& widen(face@.indices) == triangle_indices(n_x as int, n_z as int)
                &&& widen(face@.edge_px) == border_px(n_x as int, n_z as int)
                &&& widen(face@.edge_nx) == border_nx(n_x as int, n_z as int)
                &&& widen(face@.edge_pz) == border_pz(n_x as int, n_z as int)
                &&& widen(face@.edge_nz) == border_nz(n_x as int, n_z as int)
            },
    {
        if n_x == 0 || n_z == 0 {
            return Err(MeshError::InsufficientResolution { n_x, n_z });
        }
        proof {
            assert(n_x * n_z <= 0xffff_ffff * 0xffff_ffff) by (nonlinear_arith)
                requires
                    0 <= n_x <= 0xffff_ffff,
                    0 <= n_z <= 0xffff_ffff,
            ;
        }
        let wanted: u64 = (n_x as u64) * (n_z as u64);
        if wanted > 65536 {
            return Err(MeshError::IndexOverflow);
        }
        let mut vertices: Vec<Vertex> = Vec::new();
        let mut k: u32 = 0;
        while k < n_z
            invariant
                valid_counts(n_x as int, n_z as int),
                forall|i: u32, k: u32| i < n_x && k < n_z ==> call_requires(vertex_at, (i, k)),
                0 <= k <= n_z,
                vertices.len() == slot(n_x as int, 0, k as int),
                forall|i2: u32, k2: u32|
                    i2 < n_x && k2 < k ==> call_ensures(
                        vertex_at,
                        (i2, k2),
                        #[trigger] vertices@[slot(n_x as int, i2 as int, k2 as int)],
                    ),
            decreases n_z - k,
        {
            let mut i: u32 = 0;
            while i < n_x
                invariant
                    valid_counts(n_x as int, n_z as int),
                    forall|i: u32, k: u32|
                        i < n_x && k < n_z ==> call_requires(vertex_at, (i, k)),
                    0 <= k < n_z,
                    0 <= i <= n_x,
                    vertices.len() == slot(n_x as int, i as int, k as int),
                    forall|i2: u32, k2: u32|
                        i2 < n_x && (k2 < k || (k2 == k && i2 < i)) ==> call_ensures(
                            vertex_at,
                            (i2, k2),
                            #[trigger] vertices@[slot(n_x as int, i2 as int, k2 as int)],
                        ),
                decreases n_x - i,
            {
                let ghost before = vertices@;
                let v = vertex_at(i, k);
                vertices.push(v);
                proof {
                    assert forall|i2: u32, k2: u32|
                        i2 < n_x && (k2 < k || (k2 == k && i2 < i + 1)) implies call_ensures(
                        vertex_at,
                        (i2, k2),
                        #[trigger] vertices@[slot(n_x as int, i2 as int, k2 as int)],
                    ) by {
                        if k2 < k || i2 < i {
                            lemma_slot_order(n_x as int, i2 as int, k2 as int, i as int, k as int);
                            assert(vertices@[slot(n_x as int, i2 as int, k2 as int)]
                                == before[slot(n_x as int, i2 as int, k2 as int)]);
                        }
                    }
                }
                i += 1;
            }
            proof {
                assert(slot(n_x as int, n_x as int, k as int) == slot(n_x as int, 0, k + 1))
                    by (nonlinear_arith);
            }
            k += 1;
        }
        let indices = triangles(n_x, n_z);
        let edge_px = right_border(n_x, n_z);
        let edge_nx = left_border(n_x, n_z);
        let edge_pz = bottom_border(n_x, n_z);
        let edge_nz = top_border(n_x, n_z);
        let face = Face { vertices, indices, edge_px, edge_nx, edge_pz, edge_nz };
        proof {
            let nx = n_x as int;
            let nz = n_z as int;
            assert(face@.vertices.len() == nx * nz) by (nonlinear_arith)
                requires
                    face@.vertices.len() == slot(nx, 0, nz),
            ;
            assert(all_below(face@.indices, nx * nz)) by {
                assert forall|t: int| 0 <= t < triangle_indices(nx, nz).len() implies
                    triangle_indices(nx, nz)[t] < nx * nz by {
                    lemma_triangle_index_in_range(nx, nz, t);
                }
                lemma_widen_below(face@.indices, nx * nz);
            }
            assert(all_below(face@.edge_px, nx * nz)) by {
                assert forall|t: int| 0 <= t < border_px(nx, nz).len() implies border_px(
                    nx,
                    nz,
                )[t] < nx * nz by {
                    lemma_slot_in_range(nx, nz, nx - 1, nz - 1 - t);
                }
                lemma_widen_below(face@.edge_px, nx * nz);
            }
            assert(all_below(face@.edge_nx, nx * nz)) by {
                assert forall|t: int| 0 <= t < border_nx(nx, nz).len() implies border_nx(
                    nx,
                    nz,
                )[t] < nx * nz by {
                    lemma_slot_in_range(nx, nz, 0, t);
                }
                lemma_widen_below(face@.edge_nx, nx * nz);
            }
            assert(all_below(face@.edge_pz, nx * nz)) by {
                assert forall|t: int| 0 <= t < border_pz(nx, nz).len() implies border_pz(
                    nx,
                    nz,
                )[t] < nx * nz by {
                    lemma_slot_in_range(nx, nz, t, nz - 1);
                }
                lemma_widen_below(face@.edge_pz, nx * nz);
            }
            assert(all_below(face@.edge_nz, nx * nz)) by {
                assert forall|t: int| 0 <= t < border_nz(nx, nz).len() implies border_nz(
                    nx,
                    nz,
                )[t] < nx * nz by {
                    lemma_slot_in_range(nx, nz, nx - 1 - t, 0);
                }
                lemma_widen_below(face@.edge_nz, nx * nz);
            }
        }
        Ok(face)
    }
}

impl Mesh for Face {
    open spec fn vertex_seq(&self) -> Seq<Vertex> {
        self@.vertices
    }

    open spec fn index_seq(&self) -> Seq<u16> {
        self@.indices
    }

    fn vertices(&self) -> (out: &[Vertex]) {
        self.vertices.as_slice()
    }

    fn indices(&self) -> (out: &[u16]) {
        self.indices.as_slice()
    }
}

} // verus!
