//! Assembling faces into one mesh and closing the joins between them.
use vstd::prelude::*;
use crate::error::MeshError;
use crate::face::{all_below, check_all_below, Face, Mesh};
use crate::grid::widen;
use crate::seam::{decides, is_seam, lemma_seam_unique, offset_loop, seam_index_count, stitch};
use crate::vertex::Vertex;

verus! {

/// A request to stitch a border loop of one face to a border loop of another.
///
/// Each loop holds vertex indices local to its face; the faces are named by
/// their positions in the face list the join is assembled with.
#[derive(Debug)]
pub struct EdgeJoin {
    edge_lower: Vec<u16>,
    lower_face_index: usize,
    edge_higher: Vec<u16>,
    higher_face_index: usize,
}

/// What a join holds, as plain values.
pub struct EdgeJoinView {
    pub edge_lower: Seq<u16>,
    pub lower_face_index: int,
    pub edge_higher: Seq<u16>,
    pub higher_face_index: int,
}

impl View for EdgeJoin {
    type V = EdgeJoinView;

    closed spec fn view(&self) -> EdgeJoinView {
        EdgeJoinView {
            edge_lower: self.edge_lower@,
            lower_face_index: self.lower_face_index as int,
            edge_higher: self.edge_higher@,
            higher_face_index: self.higher_face_index as int,
        }
    }
}

impl EdgeJoin {
    /// The join invariant: the two loops belong to different faces.
    pub open spec fn wf(&self) -> bool {
        self@.lower_face_index != self@.higher_face_index
    }

    /// Both loops are non-empty, so a seam between them exists.
    pub open spec fn has_loops(&self) -> bool {
        self@.edge_lower.len() > 0 && self@.edge_higher.len() > 0
    }

    /// The join can be assembled with `faces`: both faces are in the list, and
    /// both loops refer only to vertices of their faces.
    pub open spec fn refers_into(&self, faces: Seq<Face>) -> bool {
        &&& 0 <= self@.lower_face_index < faces.len()
        &&& 0 <= self@.higher_face_index < faces.len()
        &&& all_below(self@.edge_lower, faces[self@.lower_face_index]@.vertices.len() as int)
        &&& all_below(self@.edge_higher, faces[self@.higher_face_index]@.vertices.len() as int)
    }

    /// A join of `edge_lower`, a loop of face `lower_face_index`, with
    /// `edge_higher`, a loop of face `higher_face_index`.
    ///
    /// Fails with `SameFaceJoin` exactly when both loops are said to belong to
    /// the same face.
    pub fn new(
        edge_lower: Vec<u16>,
        lower_face_index: usize,
        edge_higher: Vec<u16>,
        higher_face_index: usize,
    ) -> (result: Result<EdgeJoin, MeshError>)
        ensures
            lower_face_index == higher_face_index ==> result == Err::<EdgeJoin, MeshError>(
                MeshError::SameFaceJoin,
            ),
            lower_face_index != higher_face_index ==> result is Ok,
            result matches Ok(join) ==> {
                &&& join.wf()
                &&& join@ == (EdgeJoinView {
                    edge_lower: edge_lower@,
                    lower_face_index: lower_face_index as int,
                    edge_higher: edge_higher@,
                    higher_face_index: higher_face_index as int,
                })
            },
    {
        if lower_face_index == higher_face_index {
            return Err(MeshError::SameFaceJoin);
        }
        Ok(EdgeJoin { edge_lower, lower_face_index, edge_higher, higher_face_index })
    }

    /// Tells whether the join can be assembled with `faces`.
    pub fn fits(&self, faces: &Vec<Face>) -> (ok: bool)
        ensures
            ok == self.refers_into(faces@),
    {
        if self.lower_face_index >= faces.len() || self.higher_face_index >= faces.len() {
            return false;
        }
        let lower_count: usize = faces[self.lower_face_index].vertices().len();
        let higher_count: usize = faces[self.higher_face_index].vertices().len();
        check_all_below(&self.edge_lower, lower_count) && check_all_below(
            &self.edge_higher,
            higher_count,
        )
    }
}

/// Number of vertices in the first `n` faces: the position, in the assembled
/// vertex buffer, of the first vertex of face `n`.
pub open spec fn vertex_total(faces: Seq<Face>, n: int) -> int
    decreases n,
{
    if n <= 0 {
        0
    } else {
        vertex_total(faces, n - 1) + faces[n - 1]@.vertices.len()
    }
}

/// The vertices of the first `n` faces, face after face, unchanged.
pub open spec fn merged_vertices(faces: Seq<Face>, n: int) -> Seq<Vertex>
    decreases n,
{
    if n <= 0 {
        Seq::empty()
    } else {
        merged_vertices(faces, n - 1) + faces[n - 1]@.vertices
    }
}

/// The triangulations of the first `n` faces, face after face, each moved by
/// the number of vertices before its face.
pub open spec fn merged_indices(faces: Seq<Face>, n: int) -> Seq<int>
    decreases n,
{
    if n <= 0 {
        Seq::empty()
    } else {
        merged_indices(faces, n - 1) + offset_loop(
            faces[n - 1]@.indices,
            vertex_total(faces, n - 1),
        )
    }
}

/// Number of index entries in the seams of the first `m` joins.
pub open spec fn seam_total(joins: Seq<EdgeJoin>, m: int) -> int
    decreases m,
{
    if m <= 0 {
        0
    } else {
        seam_total(joins, m - 1) + seam_index_count(
            joins[m - 1]@.edge_lower.len() as int,
            joins[m - 1]@.edge_higher.len() as int,
        )
    }
}

/// In the index buffer `indices` over `vertices`, the entries that follow the
/// merged triangulations and the seams of the joins before `q` are a seam for
/// join `q`.
pub open spec fn join_stitched<F: Fn(Vertex, Vertex, Vertex, Vertex) -> bool>(
    nearer: F,
    faces: Seq<Face>,
    joins: Seq<EdgeJoin>,
    vertices: Seq<Vertex>,
    indices: Seq<u16>,
    q: int,
) -> bool {
    let join = joins[q]@;
    let from = merged_indices(faces, faces.len() as int).len() + seam_total(joins, q);
    let to = merged_indices(faces, faces.len() as int).len() + seam_total(joins, q + 1);
    &&& 0 <= from <= to <= indices.len()
    &&& is_seam(
        nearer,
        vertices,
        offset_loop(join.edge_lower, vertex_total(faces, join.lower_face_index)),
        offset_loop(join.edge_higher, vertex_total(faces, join.higher_face_index)),
        widen(indices.subrange(from, to)),
    )
}

/// The vertex count never shrinks as faces are added.
pub proof fn lemma_vertex_total_monotonic(faces: Seq<Face>, a: int, b: int)
    requires
        0 <= a <= b,
    ensures
        0 <= vertex_total(faces, a) <= vertex_total(faces, b),
    decreases b,
{
    if a < b {
        lemma_vertex_total_monotonic(faces, a, b - 1);
    } else {
        if a > 0 {
            lemma_vertex_total_monotonic(faces, a - 1, a - 1);
        }
    }
}

/// Merging adds no vertex and drops none: the merged buffer holds as many
/// vertices as the faces hold together.
pub proof fn lemma_merged_vertex_count(faces: Seq<Face>, n: int)
    ensures
        merged_vertices(faces, n).len() == vertex_total(faces, n),
    decreases n,
{
    if n > 0 {
        lemma_merged_vertex_count(faces, n - 1);
    }
}

/// Vertex `t` of face `f` is vertex `vertex_total(faces, f) + t` of the
/// merged buffer.
pub proof fn lemma_merged_vertex_at(faces: Seq<Face>, n: int, f: int, t: int)
    requires
        0 <= f < n,
        0 <= t < faces[f]@.vertices.len(),
    ensures
        0 <= vertex_total(faces, f) + t < merged_vertices(faces, n).len(),
        merged_vertices(faces, n)[vertex_total(faces, f) + t] == faces[f]@.vertices[t],
    decreases n,
{
    lemma_merged_vertex_count(faces, n - 1);
    lemma_vertex_total_monotonic(faces, f, f);
    if f < n - 1 {
        lemma_merged_vertex_at(faces, n - 1, f, t);
    }
}

/// The merged triangulations of well-formed faces refer only to merged
/// vertices.
pub proof fn lemma_merged_indices_in_range(faces: Seq<Face>, n: int, p: int)
    requires
        0 <= n <= faces.len(),
        forall|f: int| 0 <= f < faces.len() ==> (#[trigger] faces[f]).wf(),
        0 <= p < merged_indices(faces, n).len(),
    ensures
        0 <= merged_indices(faces, n)[p] < vertex_total(faces, n),
    decreases n,
{
    if n > 0 {
        let head = merged_indices(faces, n - 1);
        lemma_vertex_total_monotonic(faces, n - 1, n);
        lemma_vertex_total_monotonic(faces, n - 1, n - 1);
        if p < head.len() {
            lemma_merged_indices_in_range(faces, n - 1, p);
        } else {
            assert(faces[n - 1].wf());
            let local = faces[n - 1]@.indices;
            assert((local[p - head.len()] as int) < faces[n - 1]@.vertices.len());
        }
    }
}

/// The seams of joins with non-empty loops never take a negative number of
/// entries, and the count never shrinks as joins are added.
pub proof fn lemma_seam_total_monotonic(joins: Seq<EdgeJoin>, a: int, b: int)
    requires
        0 <= a <= b <= joins.len(),
        forall|q: int| 0 <= q < b ==> (#[trigger] joins[q]).has_loops(),
    ensures
        0 <= seam_total(joins, a) <= seam_total(joins, b),
    decreases b,
{
    if a < b {
        assert(joins[b - 1].has_loops());
        lemma_seam_total_monotonic(joins, a, b - 1);
    } else {
        if a > 0 {
            assert(joins[a - 1].has_loops());
            lemma_seam_total_monotonic(joins, a - 1, a - 1);
        }
    }
}

/// Two index buffers that read as the same integers are the same buffer.
pub proof fn lemma_widen_injective(s: Seq<u16>, t: Seq<u16>)
    requires
        widen(s) == widen(t),
    ensures
        s == t,
{
    assert(s.len() == widen(s).len());
    assert(t.len() == widen(t).len());
    assert forall|p: int| 0 <= p < s.len() implies s[p] == t[p] by {
        assert(widen(s)[p] == s[p] as int);
        assert(widen(t)[p] == t[p] as int);
    }
    assert(s =~= t);
}

/// With a `nearer` that decides, two index buffers that start with the same
/// merged triangulations and hold a seam for every join agree up to the end of
/// the seam of join `m - 1`.
proof fn lemma_stitched_prefix_unique<F: Fn(Vertex, Vertex, Vertex, Vertex) -> bool>(
    nearer: F,
    faces: Seq<Face>,
    joins: Seq<EdgeJoin>,
    vertices: Seq<Vertex>,
    a: Seq<u16>,
    b: Seq<u16>,
    m: int,
)
    requires
        decides(nearer),
        0 <= m <= joins.len(),
        merged_indices(faces, faces.len() as int).len() <= a.len(),
        merged_indices(faces, faces.len() as int).len() <= b.len(),
        widen(a.subrange(0, merged_indices(faces, faces.len() as int).len() as int)) == widen(
            b.subrange(0, merged_indices(faces, faces.len() as int).len() as int),
        ),
        forall|q: int|
            0 <= q < joins.len() ==> #[trigger] join_stitched(nearer, faces, joins, vertices, a, q),
        forall|q: int|
            0 <= q < joins.len() ==> #[trigger] join_stitched(nearer, faces, joins, vertices, b, q),
    ensures
        0 <= merged_indices(faces, faces.len() as int).len() + seam_total(joins, m) <= a.len(),
        merged_indices(faces, faces.len() as int).len() + seam_total(joins, m) <= b.len(),
        a.subrange(0, merged_indices(faces, faces.len() as int).len() + seam_total(joins, m))
            == b.subrange(0, merged_indices(faces, faces.len() as int).len() + seam_total(joins, m)),
    decreases m,
{
    let merged = merged_indices(faces, faces.len() as int).len() as int;
    if m == 0 {
        lemma_widen_injective(a.subrange(0, merged), b.subrange(0, merged));
    } else {
        lemma_stitched_prefix_unique(nearer, faces, joins, vertices, a, b, m - 1);
        let from = merged + seam_total(joins, m - 1);
        let to = merged + seam_total(joins, m);
        assert(join_stitched(nearer, faces, joins, vertices, a, m - 1));
        assert(join_stitched(nearer, faces, joins, vertices, b, m - 1));
        let join = joins[m - 1]@;
        lemma_seam_unique(
            nearer,
            vertices,
            offset_loop(join.edge_lower, vertex_total(faces, join.lower_face_index)),
            offset_loop(join.edge_higher, vertex_total(faces, join.higher_face_index)),
            widen(a.subrange(from, to)),
            widen(b.subrange(from, to)),
        );
        lemma_widen_injective(a.subrange(from, to), b.subrange(from, to));
        assert forall|p: int| 0 <= p < to implies a.subrange(0, to)[p] == b.subrange(0, to)[p] by {
            if p < from {
                assert(a.subrange(0, from)[p] == b.subrange(0, from)[p]);
            } else {
                assert(a.subrange(from, to)[p - from] == b.subrange(from, to)[p - from]);
            }
        }
        assert(a.subrange(0, to) =~= b.subrange(0, to));
    }
}

/// An assembled mesh: the vertices of all its faces in one buffer, and one
/// index buffer over them.
#[derive(Debug)]
pub struct Shape3 {
    vertices: Vec<Vertex>,
    indices: Vec<u16>,
}

/// What a shape holds, as sequences.
pub struct Shape3View {
    pub vertices: Seq<Vertex>,
    pub indices: Seq<u16>,
}

impl View for Shape3 {
    type V = Shape3View;

    closed spec fn view(&self) -> Shape3View {
        Shape3View { vertices: self.vertices@, indices: self.indices@ }
    }
}

impl Shape3 {
    /// The shape invariant: every index refers to a vertex of the shape, and
    /// every vertex can be referred to by a 16-bit index.
    pub open spec fn wf(&self) -> bool {
        &&& self@.vertices.len() <= 65536
        &&& all_below(self@.indices, self@.vertices.len() as int)
    }

    /// `self` is what `faces` and `joins` assemble to when `nearer` compares
    /// the diagonals.
    ///
    /// The vertex buffer is the faces' vertices, face after face. The index
    /// buffer starts with the faces' triangulations, each moved into the
    /// merged index space, and goes on with one seam for each join, in the
    /// order of the joins.
    pub open spec fn assembles<F: Fn(Vertex, Vertex, Vertex, Vertex) -> bool>(
        &self,
        nearer: F,
        faces: Seq<Face>,
        joins: Seq<EdgeJoin>,
    ) -> bool {
        let merged = merged_indices(faces, faces.len() as int);
        &&& self@.vertices == merged_vertices(faces, faces.len() as int)
        &&& self@.vertices.len() == vertex_total(faces, faces.len() as int)
        &&& self@.indices.len() == merged.len() + seam_total(joins, joins.len() as int)
        &&& widen(self@.indices.subrange(0, merged.len() as int)) == merged
        &&& forall|q: int|
            0 <= q < joins.len() ==> #[trigger] join_stitched(
                nearer,
                faces,
                joins,
                self@.vertices,
                self@.indices,
                q,
            )
    }

    /// Assembles `faces` into one mesh and stitches every join of
    /// `face_joins`.
    ///
    /// `nearer(a, b, c, d)` tells whether `a` and `b` lie no further apart
    /// than `c` and `d`; the stitcher asks it which diagonal to take.
    ///
    /// Fails with `IndexOverflow` when the faces hold more than 65536 vertices
    /// together, and otherwise with `EmptyEdgeLoop` when a join has an empty
    /// loop.
    pub fn new<F: Fn(Vertex, Vertex, Vertex, Vertex) -> bool>(
        faces: Vec<Face>,
        face_joins: Vec<EdgeJoin>,
        nearer: F,
    ) -> (result: Result<Shape3, MeshError>)
        requires
            forall|f: int| 0 <= f < faces.len() ==> (#[trigger] faces[f]).wf(),
            forall|q: int| 0 <= q < face_joins.len() ==> (#[trigger] face_joins[q]).refers_into(faces@),
            forall|a: Vertex, b: Vertex, c: Vertex, d: Vertex| call_requires(nearer, (a, b, c, d)),
        ensures
            vertex_total(faces@, faces.len() as int) > 65536 ==> result == Err::<Shape3, MeshError>(
                MeshError::IndexOverflow,
            ),
            vertex_total(faces@, faces.len() as int) <= 65536 && (exists|q: int|
                0 <= q < face_joins.len() && !(#[trigger] face_joins[q]).has_loops()) ==> result
                == Err::<Shape3, MeshError>(MeshError::EmptyEdgeLoop),
            vertex_total(faces@, faces.len() as int) <= 65536 && (forall|q: int|
                0 <= q < face_joins.len() ==> (#[trigger] face_joins[q]).has_loops())
                ==> result is Ok,
            result matches Ok(shape) ==> shape.wf() && shape.assembles(
                nearer,
                faces@,
                face_joins@,
            ),
    {
        let ghost all = faces@;
        let mut face_index_start: Vec<usize> = Vec::new();
        let mut vertices: Vec<Vertex> = Vec::new();
        let mut indices: Vec<u16> = Vec::new();
        let mut start: usize = 0;
        let mut f: usize = 0;
        while f < faces.len()
            invariant
                all == faces@,
                forall|g: int| 0 <= g < faces.len() ==> (#[trigger] faces[g]).wf(),
                0 <= f <= faces.len(),
                start == vertex_total(all, f as int),
                start <= 65536,
                face_index_start.len() == f,
                forall|g: int|
                    0 <= g < f ==> #[trigger] face_index_start[g] == vertex_total(all, g),
                vertices@ == merged_vertices(all, f as int),
                widen(indices@) == merged_indices(all, f as int),
            decreases faces.len() - f,
        {
            let face_vertices = faces[f].vertices();
            let face_indices = faces[f].indices();
            let count: usize = face_vertices.len();
            if count > 65536 - start {
                proof {
                    lemma_vertex_total_monotonic(all, f + 1, faces.len() as int);
                }
                return Err(MeshError::IndexOverflow);
            }
            face_index_start.push(start);
            let mut t: usize = 0;
            while t < count
                invariant
                    0 <= f < all.len(),
                    count == face_vertices.len(),
                    face_vertices@ == all[f as int]@.vertices,
                    0 <= t <= count,
                    vertices@ == merged_vertices(all, f as int) + face_vertices@.subrange(
                        0,
                        t as int,
                    ),
                decreases count - t,
            {
                vertices.push(face_vertices[t]);
                proof {
                    assert(face_vertices@.subrange(0, t + 1) =~= face_vertices@.subrange(
                        0,
                        t as int,
                    ).push(face_vertices@[t as int]));
                }
                t += 1;
            }
            proof {
                assert(face_vertices@.subrange(0, count as int) =~= face_vertices@);
            }
            let mut p: usize = 0;
            while p < face_indices.len()
                invariant
                    0 <= f < all.len(),
                    all[f as int].wf(),
                    face_indices@ == all[f as int]@.indices,
                    count == all[f as int]@.vertices.len(),
                    start + count <= 65536,
                    0 <= p <= face_indices.len(),
                    widen(indices@) == merged_indices(all, f as int) + offset_loop(
                        face_indices@.subrange(0, p as int),
                        start as int,
                    ),
                decreases face_indices.len() - p,
            {
                let ghost before = widen(indices@);
                let local: u16 = face_indices[p];
                assert((face_indices@[p as int] as int) < count);
                indices.push((start + local as usize) as u16);
                proof {
                    assert(widen(indices@) =~= before.push(start + local as int));
                    assert(offset_loop(face_indices@.subrange(0, p + 1), start as int)
                        =~= offset_loop(face_indices@.subrange(0, p as int), start as int).push(
                        start + local as int,
                    ));
                }
                p += 1;
            }
            proof {
                assert(face_indices@.subrange(0, face_indices.len() as int) =~= face_indices@);
            }
            start += count;
            f += 1;
        }
        let ghost merged = merged_indices(all, faces.len() as int);
        proof {
            lemma_merged_vertex_count(all, faces.len() as int);
            assert(widen(indices@).len() == indices.len());
            assert(indices@.subrange(0, merged.len() as int) =~= indices@);
            assert forall|p: int| 0 <= p < indices.len() implies (#[trigger] indices@[p] as int)
                < vertices.len() by {
                assert(widen(indices@)[p] == indices@[p] as int);
                lemma_merged_indices_in_range(all, faces.len() as int, p);
            }
        }
        let mut m: usize = 0;
        while m < face_joins.len()
            invariant
                all == faces@,
                merged == merged_indices(all, faces.len() as int),
                forall|q: int|
                    0 <= q < face_joins.len() ==> (#[trigger] face_joins[q]).refers_into(all),
                forall|a: Vertex, b: Vertex, c: Vertex, d: Vertex|
                    call_requires(nearer, (a, b, c, d)),
                face_index_start.len() == faces.len(),
                forall|g: int|
                    0 <= g < faces.len() ==> #[trigger] face_index_start[g] == vertex_total(all, g),
                vertices@ == merged_vertices(all, faces.len() as int),
                vertices.len() == vertex_total(all, faces.len() as int),
                vertices.len() <= 65536,
                0 <= m <= face_joins.len(),
                forall|q: int| 0 <= q < m ==> (#[trigger] face_joins[q]).has_loops(),
                0 <= seam_total(face_joins@, m as int),
                indices.len() == merged.len() + seam_total(face_joins@, m as int),
                widen(indices@.subrange(0, merged.len() as int)) == merged,
                all_below(indices@, vertices.len() as int),
                forall|q: int|
                    0 <= q < m ==> #[trigger] join_stitched(
                        nearer,
                        all,
                        face_joins@,
                        vertices@,
                        indices@,
                        q,
                    ),
            decreases face_joins.len() - m,
        {
            let join = &face_joins[m];
            assert(join.refers_into(all));
            let lower_start: usize = face_index_start[join.lower_face_index];
            let higher_start: usize = face_index_start[join.higher_face_index];
            proof {
                lemma_vertex_total_monotonic(
                    all,
                    join@.lower_face_index + 1,
                    faces.len() as int,
                );
                lemma_vertex_total_monotonic(
                    all,
                    join@.higher_face_index + 1,
                    faces.len() as int,
                );
                lemma_seam_total_monotonic(face_joins@, m as int, m as int);
            }
            let ghost before = indices@;
            match stitch(
                &vertices,
                &join.edge_lower,
                lower_start,
                &join.edge_higher,
                higher_start,
                &nearer,
            ) {
                Err(e) => {
                    return Err(e);
                },
                Ok(strip) => {
                    let mut strip = strip;
                    let ghost seam = strip@;
                    indices.append(&mut strip);
                    proof {
                        assert(join.has_loops());
                        assert(indices@ == before + seam);
                        assert(indices@.subrange(0, merged.len() as int) =~= before.subrange(
                            0,
                            merged.len() as int,
                        ));
                        assert forall|q: int| 0 <= q < m + 1 implies #[trigger] join_stitched(
                            nearer,
                            all,
                            face_joins@,
                            vertices@,
                            indices@,
                            q,
                        ) by {
                            let from = merged.len() + seam_total(face_joins@, q);
                            let to = merged.len() + seam_total(face_joins@, q + 1);
                            if q < m {
                                assert(join_stitched(
                                    nearer,
                                    all,
                                    face_joins@,
                                    vertices@,
                                    before,
                                    q,
                                ));
                                assert(indices@.subrange(from, to) =~= before.subrange(from, to));
                            } else {
                                assert(indices@.subrange(from, to) =~= seam);
                            }
                        }
                    }
                },
            }
            m += 1;
        }
        Ok(Shape3 { vertices, indices })
    }
}

/// With a `nearer` that decides, faces and joins assemble to one shape only:
/// two shapes that both assemble them hold the same vertices and the same
/// indices.
pub proof fn lemma_assembly_unique<F: Fn(Vertex, Vertex, Vertex, Vertex) -> bool>(
    nearer: F,
    faces: Seq<Face>,
    joins: Seq<EdgeJoin>,
    a: Shape3,
    b: Shape3,
)
    requires
        decides(nearer),
        a.assembles(nearer, faces, joins),
        b.assembles(nearer, faces, joins),
    ensures
        a@ == b@,
{
    let merged = merged_indices(faces, faces.len() as int).len() as int;
    let total = merged + seam_total(joins, joins.len() as int);
    if joins.len() == 0 {
        assert(a@.indices.subrange(0, merged) =~= a@.indices);
        assert(b@.indices.subrange(0, merged) =~= b@.indices);
        lemma_widen_injective(a@.indices, b@.indices);
    } else {
        assert(join_stitched(nearer, faces, joins, a@.vertices, a@.indices, 0));
        lemma_stitched_prefix_unique(
            nearer,
            faces,
            joins,
            a@.vertices,
            a@.indices,
            b@.indices,
            joins.len() as int,
        );
        assert(a@.indices.subrange(0, total) =~= a@.indices);
        assert(b@.indices.subrange(0, total) =~= b@.indices);
    }
}

impl Mesh for Shape3 {
    open spec fn vertex_seq(&self) -> Seq<Vertex> {
        self@.vertices
    }

    open spec fn index_seq(&self) -> Seq<u16> {
        self@.indices
    }

    fn vertices(&self) -> (out: &[Vertex]) {
        self.vertices.as_slice()
    }

    fn indices(&self) -> (out: &[u16]) {
        self.indices.as_slice()
    }
}

} // verus!
