//! A store of meshes in one vertex buffer and one index buffer, the form in
//! which a renderer uploads them.
use std::collections::HashMap;
use vstd::prelude::*;
use vstd::slice::slice_subrange;
use crate::face::all_below;
use crate::vertex::Vertex;

verus! {

broadcast use vstd::std_specs::hash::group_hash_axioms;

/// Why a mesh could not be stored.
#[derive(Clone, Copy, Debug, PartialEq, Eq)]
pub enum MeshStorageError {
    /// The mesh has this index, which is not below its vertex count.
    IndexOutOfBounds(usize),
    /// With the mesh the store would hold more vertices than it may.
    MaxVerticesExceeded,
}

/// The largest number of vertices a store may hold.
pub const STORAGE_MAX_VERTICES: usize = 65535;

/// Meshes stored back to back, each known by the number it got when it was
/// added.
pub struct MeshStorage {
    // vertex start, vertex end, index start, index end; ends are exclusive
    map: HashMap<u64, (usize, usize, usize, usize)>,
    vertex_storage: Vec<Vertex>,
    index_storage: Vec<u16>,
}

/// What a store holds: the ranges of its meshes and the two buffers.
pub struct MeshStorageView {
    pub meshes: Map<u64, (usize, usize, usize, usize)>,
    pub vertices: Seq<Vertex>,
    pub indices: Seq<u16>,
}

impl View for MeshStorage {
    type V = MeshStorageView;

    closed spec fn view(&self) -> MeshStorageView {
        MeshStorageView {
            meshes: self.map@,
            vertices: self.vertex_storage@,
            indices: self.index_storage@,
        }
    }
}

/// The range `r` lies inside buffers of `n_vertices` vertices and `indices`,
/// and every index in its index range refers to a vertex in its vertex range.
pub open spec fn range_in_buffers(
    r: (usize, usize, usize, usize),
    n_vertices: int,
    indices: Seq<u16>,
) -> bool {
    &&& r.0 <= r.1 <= n_vertices
    &&& r.2 <= r.3 <= indices.len()
    &&& forall|p: int| r.2 <= p < r.3 ==> r.0 <= (#[trigger] indices[p]) < r.1
}

/// Position of the first entry of `indices` that is not below `n`; the
/// length of `indices` if there is none.
pub open spec fn first_stray(indices: Seq<u16>, n: int) -> int
    decreases indices.len(),
{
    if indices.len() == 0 || indices[0] >= n {
        0
    } else {
        1 + first_stray(indices.skip(1), n)
    }
}

/// `first_stray` is the position of a stray entry if there is one, and every
/// entry before it is below `n`.
pub proof fn lemma_first_stray(indices: Seq<u16>, n: int)
    ensures
        0 <= first_stray(indices, n) <= indices.len(),
        all_below(indices.take(first_stray(indices, n)), n),
        first_stray(indices, n) < indices.len() ==> indices[first_stray(indices, n)] >= n,
        first_stray(indices, n) == indices.len() <==> all_below(indices, n),
    decreases indices.len(),
{
    if indices.len() == 0 || indices[0] >= n {
    } else {
        let rest = indices.skip(1);
        lemma_first_stray(rest, n);
        let at = first_stray(rest, n);
        assert forall|t: int| 0 <= t < at + 1 implies (#[trigger] indices.take(at + 1)[t] as int)
            < n by {
            if t > 0 {
                assert(indices.take(at + 1)[t] == rest.take(at)[t - 1]);
            }
        }
        if at == rest.len() {
            assert forall|t: int| 0 <= t < indices.len() implies (#[trigger] indices[t] as int)
                < n by {
                if t > 0 {
                    assert(indices[t] == rest[t - 1]);
                }
            }
        } else {
            assert(indices[at + 1] == rest[at]);
        }
    }
}

impl MeshStorage {
    /// The store invariant: the meshes are numbered from 0 without a gap, the
    /// vertex buffer is within its limit, and every mesh lies inside the
    /// buffers and refers only to its own vertices.
    pub open spec fn wf(&self) -> bool {
        &&& self@.meshes.dom().finite()
        &&& forall|id: u64| #[trigger] self@.meshes.contains_key(id) <==> id < self@.meshes.len()
        &&& self@.vertices.len() <= STORAGE_MAX_VERTICES
        &&& forall|id: u64| #[trigger]
            self@.meshes.contains_key(id) ==> range_in_buffers(
                self@.meshes[id],
                self@.vertices.len() as int,
                self@.indices,
            )
    }

    /// An empty store.
    pub fn new() -> (storage: MeshStorage)
        ensures
            storage.wf(),
            storage@.meshes == Map::<u64, (usize, usize, usize, usize)>::empty(),
            storage@.vertices.len() == 0,
            storage@.indices.len() == 0,
    {
        MeshStorage { map: HashMap::new(), vertex_storage: Vec::new(), index_storage: Vec::new() }
    }

    /// Adds a mesh and returns its number. `indices` are relative to
    /// `vertices`; in the store they are moved behind the vertices already
    /// there.
    ///
    /// Fails, and leaves the store as it was, with `MaxVerticesExceeded` when
    /// the store would hold more than 65535 vertices, and otherwise with
    /// `IndexOutOfBounds` and the first index that is not below the number of
    /// `vertices`.
    pub fn add_mesh(&mut self, vertices: &[Vertex], indices: &[u16]) -> (result: Result<
        u64,
        MeshStorageError,
    >)
        requires
            old(self).wf(),
        ensures
            final(self).wf(),
            old(self)@.vertices.len() + vertices@.len() > STORAGE_MAX_VERTICES ==> result == Err::<
                u64,
                MeshStorageError,
            >(MeshStorageError::MaxVerticesExceeded),
            old(self)@.vertices.len() + vertices@.len() <= STORAGE_MAX_VERTICES && !all_below(
                indices@,
                vertices@.len() as int,
            ) ==> first_stray(indices@, vertices@.len() as int) < indices@.len() && result
                == Err::<u64, MeshStorageError>(
                MeshStorageError::IndexOutOfBounds(
                    indices@[first_stray(indices@, vertices@.len() as int)] as usize,
                ),
            ),
            old(self)@.vertices.len() + vertices@.len() <= STORAGE_MAX_VERTICES && all_below(
                indices@,
                vertices@.len() as int,
            ) ==> result is Ok,
            result matches Ok(id) ==> id == old(self)@.meshes.len(),
            result is Err ==> final(self)@ == old(self)@,
            result is Ok ==> {
                let before = old(self)@;
                let after = final(self)@;
                &&& after.vertices == before.vertices + vertices@
                &&& after.indices.len() == before.indices.len() + indices@.len()
                &&& after.indices.take(before.indices.len() as int) == before.indices
                &&& forall|p: int|
                    0 <= p < indices@.len() ==> #[trigger] after.indices[before.indices.len() + p]
                        == before.vertices.len() + indices@[p]
                &&& after.meshes == before.meshes.insert(
                    before.meshes.len() as u64,
                    (
                        before.vertices.len() as usize,
                        after.vertices.len() as usize,
                        before.indices.len() as usize,
                        after.indices.len() as usize,
                    ),
                )
            },
    {
        let before_count_vertices: usize = self.vertex_storage.len();
        let before_count_indexes: usize = self.index_storage.len();
        let n: usize = vertices.len();
        if n > STORAGE_MAX_VERTICES - before_count_vertices {
            return Err(MeshStorageError::MaxVerticesExceeded);
        }
        proof {
            lemma_first_stray(indices@, n as int);
        }
        let mut t: usize = 0;
        while t < indices.len()
            invariant
                *self == *old(self),
                self.wf(),
                n == vertices@.len(),
                before_count_vertices == old(self)@.vertices.len(),
                before_count_vertices + n <= STORAGE_MAX_VERTICES,
                0 <= t <= indices.len(),
                all_below(indices@.take(t as int), n as int),
                t <= first_stray(indices@, n as int),
                0 <= first_stray(indices@, n as int) <= indices@.len(),
                all_below(indices@.take(first_stray(indices@, n as int)), n as int),
                first_stray(indices@, n as int) < indices@.len() ==> indices@[first_stray(
                    indices@,
                    n as int,
                )] >= n,
                first_stray(indices@, n as int) == indices@.len() <==> all_below(
                    indices@,
                    n as int,
                ),
            decreases indices.len() - t,
        {
            let i: usize = indices[t] as usize;
            if i >= n {
                proof {
                    let at = first_stray(indices@, n as int);
                    if t < at {
                        assert(indices@.take(at)[t as int] == indices@[t as int]);
                    }
                }
                return Err(MeshStorageError::IndexOutOfBounds(i));
            }
            proof {
                let at = first_stray(indices@, n as int);
                assert forall|q: int| 0 <= q < t + 1 implies (#[trigger] indices@.take(t + 1)[q]
                    as int) < n by {
                    if q < t {
                        assert(indices@.take(t + 1)[q] == indices@.take(t as int)[q]);
                    }
                }
            }
            t += 1;
        }
        proof {
            assert(indices@.take(indices@.len() as int) =~= indices@);
        }
        let id: u64 = self.map.len() as u64;
        let ghost old_view = self@;
        let mut v: usize = 0;
        while v < n
            invariant
                n == vertices@.len(),
                0 <= v <= n,
                self.map == old(self).map,
                self.index_storage == old(self).index_storage,
                self.vertex_storage@ == old_view.vertices + vertices@.take(v as int),
            decreases n - v,
        {
            self.vertex_storage.push(vertices[v]);
            proof {
                assert(vertices@.take(v + 1) =~= vertices@.take(v as int).push(vertices@[v as int]));
            }
            v += 1;
        }
        proof {
            assert(vertices@.take(n as int) =~= vertices@);
        }
        let mut p: usize = 0;
        while p < indices.len()
            invariant
                0 <= p <= indices.len(),
                before_count_vertices == old_view.vertices.len(),
                before_count_vertices + n <= STORAGE_MAX_VERTICES,
                all_below(indices@, n as int),
                self.map == old(self).map,
                self.vertex_storage@ == old_view.vertices + vertices@,
                self.index_storage@.len() == old_view.indices.len() + p,
                self.index_storage@.take(old_view.indices.len() as int) == old_view.indices,
                forall|q: int|
                    0 <= q < p ==> #[trigger] self.index_storage@[old_view.indices.len() + q]
                        == before_count_vertices + indices@[q],
            decreases indices.len() - p,
        {
            let ghost so_far = self.index_storage@;
            let local: u16 = indices[p];
            assert((indices@[p as int] as int) < n);
            self.index_storage.push((local as usize + before_count_vertices) as u16);
            proof {
                assert(self.index_storage@.take(old_view.indices.len() as int) =~= so_far.take(
                    old_view.indices.len() as int,
                ));
                assert forall|q: int| 0 <= q < p + 1 implies #[trigger] self.index_storage@[old_view.indices.len()
                    + q] == before_count_vertices + indices@[q] by {
                    if q < p {
                        assert(self.index_storage@[old_view.indices.len() + q]
                            == so_far[old_view.indices.len() + q]);
                    }
                }
            }
            p += 1;
        }
        let range: (usize, usize, usize, usize) = (
            before_count_vertices,
            self.vertex_storage.len(),
            before_count_indexes,
            self.index_storage.len(),
        );
        self.map.insert(id, range);
        proof {
            let before = old_view;
            let after = self@;
            assert(!before.meshes.contains_key(id));
            assert(after.meshes.len() == before.meshes.len() + 1);
            assert forall|other: u64| #[trigger]
                after.meshes.contains_key(other) implies range_in_buffers(
                after.meshes[other],
                after.vertices.len() as int,
                after.indices,
            ) by {
                if other != id {
                    assert(before.meshes.contains_key(other));
                    let r = before.meshes[other];
                    assert(range_in_buffers(r, before.vertices.len() as int, before.indices));
                    assert forall|q: int| r.2 <= q < r.3 implies r.0 <= (
                    #[trigger] after.indices[q]) < r.1 by {
                        assert(after.indices.take(before.indices.len() as int)[q]
                            == after.indices[q]);
                    }
                } else {
                    assert forall|q: int| range.2 <= q < range.3 implies range.0 <= (
                    #[trigger] after.indices[q]) < range.1 by {
                        let local = q - before.indices.len();
                        assert(after.indices[before.indices.len() + local]
                            == before.vertices.len() + indices@[local]);
                    }
                }
            }
        }
        Ok(id)
    }

    /// Number of entries in the index buffer.
    pub fn num_indices(&self) -> (n: usize)
        ensures
            n == self@.indices.len(),
    {
        self.index_storage.len()
    }

    /// Where mesh `mesh_id` starts and ends in the index buffer, if there is
    /// such a mesh.
    pub fn get_mesh_index_bounds(&self, mesh_id: &u64) -> (bounds: Option<(usize, usize)>)
        ensures
            match bounds {
                Some((start, end)) => self@.meshes.contains_key(*mesh_id) && start
                    == self@.meshes[*mesh_id].2 && end == self@.meshes[*mesh_id].3,
                None => !self@.meshes.contains_key(*mesh_id),
            },
    {
        match self.map.get(mesh_id) {
            Some(range) => Some((range.2, range.3)),
            None => None,
        }
    }

    /// The vertices and the indices of mesh `mesh_id` as they lie in the
    /// buffers, if there is such a mesh.
    pub fn get_mesh(&self, mesh_id: &u64) -> (mesh: Option<(&[Vertex], &[u16])>)
        requires
            self.wf(),
        ensures
            match mesh {
                Some((vertices, indices)) => {
                    let r = self@.meshes[*mesh_id];
                    &&& self@.meshes.contains_key(*mesh_id)
                    &&& vertices@ == self@.vertices.subrange(r.0 as int, r.1 as int)
                    &&& indices@ == self@.indices.subrange(r.2 as int, r.3 as int)
                },
                None => !self@.meshes.contains_key(*mesh_id),
            },
    {
        match self.map.get(mesh_id) {
            Some(range) => {
                assert(self@.meshes.contains_key(*mesh_id));
                Some(
                    (
                        slice_subrange(self.vertex_storage.as_slice(), range.0, range.1),
                        slice_subrange(self.index_storage.as_slice(), range.2, range.3),
                    ),
                )
            },
            None => None,
        }
    }
}

} // verus!
