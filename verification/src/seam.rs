//! Stitching two border loops together with a strip of triangles.
//!
//! The stitcher walks both loops at once. It starts at the first vertex of
//! each, and in every step moves forward on one of them and closes the
//! triangle between the vertex it reached and the two it stood on. Where both
//! loops can still move, the shorter of the two candidate diagonals decides;
//! that comparison is the caller's, handed in as `nearer`.
use vstd::prelude::*;
use crate::error::MeshError;
use crate::face::all_below;
use crate::grid::widen;
use crate::vertex::Vertex;

verus! {

/// A border loop moved into the index space of an assembled mesh: every entry
/// of `edge` shifted by `start`, the position of the owning face's first
/// vertex.
pub open spec fn offset_loop(edge: Seq<u16>, start: int) -> Seq<int> {
    Seq::new(edge.len(), |t: int| start + edge[t] as int)
}

/// The stitcher, standing on `lower[i]` and `higher[j]`, may move forward on
/// `higher`: either `lower` is used up, or both can move and `nearer` found
/// the diagonal from `lower[i]` to `higher[j + 1]` no longer than the one from
/// `higher[j]` to `lower[i + 1]`.
pub open spec fn may_step_higher<F: Fn(Vertex, Vertex, Vertex, Vertex) -> bool>(
    nearer: F,
    vertices: Seq<Vertex>,
    lower: Seq<int>,
    higher: Seq<int>,
    i: int,
    j: int,
) -> bool {
    &&& j + 1 < higher.len()
    &&& i + 1 >= lower.len() || call_ensures(
        nearer,
        (vertices[lower[i]], vertices[higher[j + 1]], vertices[higher[j]], vertices[lower[i + 1]]),
        true,
    )
}

/// The stitcher, standing on `lower[i]` and `higher[j]`, may move forward on
/// `lower`: `lower` is not used up, and either `higher` is, or `nearer` found
/// the diagonal from `lower[i]` to `higher[j + 1]` longer than the other.
pub open spec fn may_step_lower<F: Fn(Vertex, Vertex, Vertex, Vertex) -> bool>(
    nearer: F,
    vertices: Seq<Vertex>,
    lower: Seq<int>,
    higher: Seq<int>,
    i: int,
    j: int,
) -> bool {
    &&& i + 1 < lower.len()
    &&& j + 1 >= higher.len() || call_ensures(
        nearer,
        (vertices[lower[i]], vertices[higher[j + 1]], vertices[higher[j]], vertices[lower[i + 1]]),
        false,
    )
}

/// `out` is the list of triangles the stitcher has emitted when it stands on
/// `lower[i]` and `higher[j]`.
///
/// Nothing is emitted at the start. A move on `higher` from `j - 1` to `j`
/// emits `(higher[j], lower[i], higher[j - 1])`; a move on `lower` from
/// `i - 1` to `i` emits `(higher[j], lower[i], lower[i - 1])`.
pub open spec fn seam_reaches<F: Fn(Vertex, Vertex, Vertex, Vertex) -> bool>(
    nearer: F,
    vertices: Seq<Vertex>,
    lower: Seq<int>,
    higher: Seq<int>,
    i: int,
    j: int,
    out: Seq<int>,
) -> bool
    decreases i + j,
{
    if i < 0 || j < 0 {
        false
    } else if i == 0 && j == 0 {
        out.len() == 0
    } else {
        let before = out.subrange(0, out.len() - 3);
        let last = out.subrange(out.len() - 3, out.len() as int);
        &&& out.len() >= 3
        &&& {
            ||| {
                &&& j > 0
                &&& may_step_higher(nearer, vertices, lower, higher, i, j - 1)
                &&& last == seq![higher[j], lower[i], higher[j - 1]]
                &&& seam_reaches(nearer, vertices, lower, higher, i, j - 1, before)
            }
            ||| {
                &&& i > 0
                &&& may_step_lower(nearer, vertices, lower, higher, i - 1, j)
                &&& last == seq![higher[j], lower[i], lower[i - 1]]
                &&& seam_reaches(nearer, vertices, lower, higher, i - 1, j, before)
            }
        }
    }
}

/// `out` is a complete seam between `lower` and `higher`: the triangles of a
/// walk from the first vertex of both loops to the last vertex of both.
pub open spec fn is_seam<F: Fn(Vertex, Vertex, Vertex, Vertex) -> bool>(
    nearer: F,
    vertices: Seq<Vertex>,
    lower: Seq<int>,
    higher: Seq<int>,
    out: Seq<int>,
) -> bool {
    &&& lower.len() > 0
    &&& higher.len() > 0
    &&& seam_reaches(nearer, vertices, lower, higher, lower.len() - 1, higher.len() - 1, out)
}

/// Number of index entries in a seam between loops of `l_n` and `h_n`
/// vertices: one triangle for every step of the walk.
pub open spec fn seam_index_count(l_n: int, h_n: int) -> int {
    3 * (l_n + h_n - 2)
}

/// A walk that stands on `lower[i]` and `higher[j]` has emitted `i + j`
/// triangles, whatever `nearer` decided on the way.
pub proof fn lemma_seam_reaches_len<F: Fn(Vertex, Vertex, Vertex, Vertex) -> bool>(
    nearer: F,
    vertices: Seq<Vertex>,
    lower: Seq<int>,
    higher: Seq<int>,
    i: int,
    j: int,
    out: Seq<int>,
)
    requires
        seam_reaches(nearer, vertices, lower, higher, i, j, out),
    ensures
        out.len() == 3 * (i + j),
    decreases i + j,
{
    if i == 0 && j == 0 {
    } else {
        let before = out.subrange(0, out.len() - 3);
        if j > 0 && seam_reaches(nearer, vertices, lower, higher, i, j - 1, before) {
            lemma_seam_reaches_len(nearer, vertices, lower, higher, i, j - 1, before);
        } else {
            lemma_seam_reaches_len(nearer, vertices, lower, higher, i - 1, j, before);
        }
    }
}

/// A seam between loops of `l_n` and `h_n` vertices has exactly
/// `l_n + h_n - 2` triangles; between two loops of `n` vertices each, `2n - 2`.
pub proof fn lemma_seam_len<F: Fn(Vertex, Vertex, Vertex, Vertex) -> bool>(
    nearer: F,
    vertices: Seq<Vertex>,
    lower: Seq<int>,
    higher: Seq<int>,
    out: Seq<int>,
)
    requires
        is_seam(nearer, vertices, lower, higher, out),
    ensures
        out.len() == 3 * (lower.len() + higher.len() - 2),
        lower.len() == higher.len() ==> out.len() == 3 * (2 * lower.len() - 2),
{
    lemma_seam_reaches_len(
        nearer,
        vertices,
        lower,
        higher,
        lower.len() - 1,
        higher.len() - 1,
        out,
    );
}

/// Every entry of a seam is a vertex of one of the two loops.
pub proof fn lemma_seam_entries<F: Fn(Vertex, Vertex, Vertex, Vertex) -> bool>(
    nearer: F,
    vertices: Seq<Vertex>,
    lower: Seq<int>,
    higher: Seq<int>,
    i: int,
    j: int,
    out: Seq<int>,
    t: int,
)
    requires
        seam_reaches(nearer, vertices, lower, higher, i, j, out),
        i < lower.len(),
        j < higher.len(),
        0 <= t < out.len(),
    ensures
        lower.contains(out[t]) || higher.contains(out[t]),
    decreases i + j,
{
    if i == 0 && j == 0 {
    } else {
        let before = out.subrange(0, out.len() - 3);
        let last = out.subrange(out.len() - 3, out.len() as int);
        if t < out.len() - 3 {
            assert(out[t] == before[t]);
            if j > 0 && seam_reaches(nearer, vertices, lower, higher, i, j - 1, before) {
                lemma_seam_entries(nearer, vertices, lower, higher, i, j - 1, before, t);
            } else {
                lemma_seam_entries(nearer, vertices, lower, higher, i - 1, j, before, t);
            }
        } else {
            let corner = t - (out.len() - 3);
            assert(out[t] == last[corner]);
            if corner == 0 {
                assert(out[t] == higher[j]);
            } else if corner == 1 {
                assert(out[t] == lower[i]);
            } else if j > 0 && last == seq![higher[j], lower[i], higher[j - 1]] {
                assert(out[t] == higher[j - 1]);
            } else {
                assert(out[t] == lower[i - 1]);
            }
        }
    }
}

/// `nearer` never answers both ways about the same four vertices.
pub open spec fn decides<F: Fn(Vertex, Vertex, Vertex, Vertex) -> bool>(nearer: F) -> bool {
    forall|a: Vertex, b: Vertex, c: Vertex, d: Vertex|
        !(#[trigger] call_ensures(nearer, (a, b, c, d), true) && call_ensures(
            nearer,
            (a, b, c, d),
            false,
        ))
}

/// With a `nearer` that decides, the walk is determined: after a given number
/// of steps the stitcher can stand in one place only, and can have emitted one
/// list of triangles only.
pub proof fn lemma_walk_unique<F: Fn(Vertex, Vertex, Vertex, Vertex) -> bool>(
    nearer: F,
    vertices: Seq<Vertex>,
    lower: Seq<int>,
    higher: Seq<int>,
    i: int,
    j: int,
    out: Seq<int>,
    i2: int,
    j2: int,
    out2: Seq<int>,
)
    requires
        decides(nearer),
        seam_reaches(nearer, vertices, lower, higher, i, j, out),
        seam_reaches(nearer, vertices, lower, higher, i2, j2, out2),
        i + j == i2 + j2,
    ensures
        i == i2,
        j == j2,
        out == out2,
    decreases i + j,
{
    if i == 0 && j == 0 {
        assert(out =~= out2);
    } else {
        let before = out.subrange(0, out.len() - 3);
        let last = out.subrange(out.len() - 3, out.len() as int);
        let before2 = out2.subrange(0, out2.len() - 3);
        let last2 = out2.subrange(out2.len() - 3, out2.len() as int);
        let via_higher = j > 0 && may_step_higher(nearer, vertices, lower, higher, i, j - 1)
            && last == seq![higher[j], lower[i], higher[j - 1]] && seam_reaches(
            nearer,
            vertices,
            lower,
            higher,
            i,
            j - 1,
            before,
        );
        let via_higher2 = j2 > 0 && may_step_higher(nearer, vertices, lower, higher, i2, j2 - 1)
            && last2 == seq![higher[j2], lower[i2], higher[j2 - 1]] && seam_reaches(
            nearer,
            vertices,
            lower,
            higher,
            i2,
            j2 - 1,
            before2,
        );
        let pi = if via_higher { i } else { i - 1 };
        let pj = if via_higher { j - 1 } else { j };
        let pi2 = if via_higher2 { i2 } else { i2 - 1 };
        let pj2 = if via_higher2 { j2 - 1 } else { j2 };
        lemma_walk_unique(nearer, vertices, lower, higher, pi, pj, before, pi2, pj2, before2);
        assert(via_higher == via_higher2);
        assert(last == last2);
        assert(out =~= before + last);
        assert(out2 =~= before2 + last2);
    }
}

/// With a `nearer` that decides, two loops have one seam only.
pub proof fn lemma_seam_unique<F: Fn(Vertex, Vertex, Vertex, Vertex) -> bool>(
    nearer: F,
    vertices: Seq<Vertex>,
    lower: Seq<int>,
    higher: Seq<int>,
    out: Seq<int>,
    out2: Seq<int>,
)
    requires
        decides(nearer),
        is_seam(nearer, vertices, lower, higher, out),
        is_seam(nearer, vertices, lower, higher, out2),
    ensures
        out == out2,
{
    lemma_walk_unique(
        nearer,
        vertices,
        lower,
        higher,
        lower.len() - 1,
        higher.len() - 1,
        out,
        lower.len() - 1,
        higher.len() - 1,
        out2,
    );
}

/// Appending the triangle of a move on `higher` extends the walk by that move.
proof fn lemma_step_higher<F: Fn(Vertex, Vertex, Vertex, Vertex) -> bool>(
    nearer: F,
    vertices: Seq<Vertex>,
    lower: Seq<int>,
    higher: Seq<int>,
    i: int,
    j: int,
    out: Seq<int>,
    next: Seq<int>,
)
    requires
        0 <= i,
        0 <= j,
        seam_reaches(nearer, vertices, lower, higher, i, j, out),
        may_step_higher(nearer, vertices, lower, higher, i, j),
        next == out + seq![higher[j + 1], lower[i], higher[j]],
    ensures
        seam_reaches(nearer, vertices, lower, higher, i, j + 1, next),
{
    assert(next.subrange(0, next.len() - 3) =~= out);
    assert(next.subrange(next.len() - 3, next.len() as int) =~= seq![
        higher[j + 1],
        lower[i],
        higher[j],
    ]);
}

/// Appending the triangle of a move on `lower` extends the walk by that move.
proof fn lemma_step_lower<F: Fn(Vertex, Vertex, Vertex, Vertex) -> bool>(
    nearer: F,
    vertices: Seq<Vertex>,
    lower: Seq<int>,
    higher: Seq<int>,
    i: int,
    j: int,
    out: Seq<int>,
    next: Seq<int>,
)
    requires
        0 <= i,
        0 <= j,
        seam_reaches(nearer, vertices, lower, higher, i, j, out),
        may_step_lower(nearer, vertices, lower, higher, i, j),
        next == out + seq![higher[j], lower[i + 1], lower[i]],
    ensures
        seam_reaches(nearer, vertices, lower, higher, i + 1, j, next),
{
    assert(next.subrange(0, next.len() - 3) =~= out);
    assert(next.subrange(next.len() - 3, next.len() as int) =~= seq![
        higher[j],
        lower[i + 1],
        lower[i],
    ]);
}

/// Stitches the border loop `lower` to the border loop `higher`.
///
/// Both loops hold indices local to their faces; `lower_start` and
/// `higher_start` are the positions of those faces' first vertices in
/// `vertices`. `nearer(a, b, c, d)` tells whether `a` and `b` lie no further
/// apart than `c` and `d`. The result is the index buffer of the seam, three
/// entries per triangle, in the index space of `vertices`.
///
/// Fails with `EmptyEdgeLoop` exactly when one of the loops is empty.
pub fn stitch<F: Fn(Vertex, Vertex, Vertex, Vertex) -> bool>(
    vertices: &Vec<Vertex>,
    lower: &Vec<u16>,
    lower_start: usize,
    higher: &Vec<u16>,
    higher_start: usize,
    nearer: &F,
) -> (result: Result<Vec<u16>, MeshError>)
    requires
        vertices.len() <= 65536,
        forall|t: int| 0 <= t < lower.len() ==> lower_start + (#[trigger] lower[t]) < vertices.len(),
        forall|t: int|
            0 <= t < higher.len() ==> higher_start + (#[trigger] higher[t]) < vertices.len(),
        forall|a: Vertex, b: Vertex, c: Vertex, d: Vertex| call_requires(*nearer, (a, b, c, d)),
    ensures
        lower.len() == 0 || higher.len() == 0 ==> result == Err::<Vec<u16>, MeshError>(
            MeshError::EmptyEdgeLoop,
        ),
        lower.len() > 0 && higher.len() > 0 ==> result is Ok,
        result matches Ok(out) ==> {
            &&& is_seam(
                *nearer,
                vertices@,
                offset_loop(lower@, lower_start as int),
                offset_loop(higher@, higher_start as int),
                widen(out@),
            )
            &&& out.len() == seam_index_count(lower.len() as int, higher.len() as int)
            &&& all_below(out@, vertices.len() as int)
        },
{
    let l_n: usize = lower.len();
    let h_n: usize = higher.len();
    if l_n == 0 || h_n == 0 {
        return Err(MeshError::EmptyEdgeLoop);
    }
    let ghost low = offset_loop(lower@, lower_start as int);
    let ghost high = offset_loop(higher@, higher_start as int);
    let mut out: Vec<u16> = Vec::new();
    let mut i: usize = 0;
    let mut j: usize = 0;
    while i + 1 < l_n || j + 1 < h_n
        invariant
            l_n == lower.len(),
            h_n == higher.len(),
            low == offset_loop(lower@, lower_start as int),
            high == offset_loop(higher@, higher_start as int),
            vertices.len() <= 65536,
            forall|t: int|
                0 <= t < lower.len() ==> lower_start + (#[trigger] lower[t]) < vertices.len(),
            forall|t: int|
                0 <= t < higher.len() ==> higher_start + (#[trigger] higher[t]) < vertices.len(),
            forall|a: Vertex, b: Vertex, c: Vertex, d: Vertex|
                call_requires(*nearer, (a, b, c, d)),
            0 <= i < l_n,
            0 <= j < h_n,
            out.len() == 3 * (i + j),
            seam_reaches(*nearer, vertices@, low, high, i as int, j as int, widen(out@)),
            all_below(out@, vertices.len() as int),
        decreases (l_n - i) + (h_n - j),
    {
        let l_idx: usize = lower_start + lower[i] as usize;
        let h_idx: usize = higher_start + higher[j] as usize;
        let step_higher: bool = if i + 1 == l_n {
            true
        } else if j + 1 == h_n {
            false
        } else {
            let l_next: usize = lower_start + lower[i + 1] as usize;
            let h_next: usize = higher_start + higher[j + 1] as usize;
            nearer(vertices[l_idx], vertices[h_next], vertices[h_idx], vertices[l_next])
        };
        let ghost before = widen(out@);
        if step_higher {
            let h_next: usize = higher_start + higher[j + 1] as usize;
            out.push(h_next as u16);
            out.push(l_idx as u16);
            out.push(h_idx as u16);
            proof {
                assert(widen(out@) =~= before + seq![high[j + 1], low[i as int], high[j as int]]);
                lemma_step_higher(
                    *nearer,
                    vertices@,
                    low,
                    high,
                    i as int,
                    j as int,
                    before,
                    widen(out@),
                );
            }
            j += 1;
        } else {
            let l_next: usize = lower_start + lower[i + 1] as usize;
            out.push(h_idx as u16);
            out.push(l_next as u16);
            out.push(l_idx as u16);
            proof {
                assert(widen(out@) =~= before + seq![high[j as int], low[i + 1], low[i as int]]);
                lemma_step_lower(
                    *nearer,
                    vertices@,
                    low,
                    high,
                    i as int,
                    j as int,
                    before,
                    widen(out@),
                );
            }
            i += 1;
        }
    }
    Ok(out)
}

} // verus!
