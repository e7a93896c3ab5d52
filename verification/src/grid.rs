//! Topology of a rectangular vertex grid: where each vertex sits in the
//! buffer, how the grid is cut into triangles, and which vertices lie on each
//! of its four borders.
//!
//! A grid has `n_x` vertices along x and `n_z` along z, stored row by row:
//! vertex `(i, k)` is entry `k * n_x + i`. Seen from above, with -z at the top
//! and +x to the right, row 0 is the top row and column 0 the left column.
use vstd::prelude::*;
use vstd::arithmetic::div_mod::lemma_fundamental_div_mod_converse;

verus! {

/// Position of grid vertex `(i, k)` in a row-major buffer with `n_x` vertices
/// per row.
pub open spec fn slot(n_x: int, i: int, k: int) -> int {
    k * n_x + i
}

/// Reads a 16-bit index buffer as a sequence of mathematical integers.
pub open spec fn widen(s: Seq<u16>) -> Seq<int> {
    Seq::new(s.len(), |t: int| s[t] as int)
}

/// Vertex counts for which a grid exists and every vertex has a 16-bit index.
pub open spec fn valid_counts(n_x: int, n_z: int) -> bool {
    1 <= n_x && 1 <= n_z && n_x * n_z <= 65536
}

/// Number of entries in the triangle index buffer of an `n_x` by `n_z` grid:
/// two triangles, six entries, for each of the `(n_x - 1) * (n_z - 1)` quads.
pub open spec fn triangle_index_count(n_x: int, n_z: int) -> int {
    6 * ((n_z - 1) * (n_x - 1))
}

/// Entry `p` of the triangle index buffer.
///
/// Quads are listed row by row, left to right. The quad whose top-left vertex
/// is `(col, row)` contributes the triangle (top-right, top-left, bottom-left)
/// and then the triangle (bottom-left, bottom-right, top-right).
pub open spec fn triangle_index(n_x: int, p: int) -> int {
    let quad = p / 6;
    let corner = p % 6;
    let row = quad / (n_x - 1);
    let col = quad % (n_x - 1);
    if corner == 0 || corner == 5 {
        slot(n_x, col + 1, row)
    } else if corner == 1 {
        slot(n_x, col, row)
    } else if corner == 2 || corner == 3 {
        slot(n_x, col, row + 1)
    } else {
        slot(n_x, col + 1, row + 1)
    }
}

/// The whole triangle index buffer of an `n_x` by `n_z` grid.
pub open spec fn triangle_indices(n_x: int, n_z: int) -> Seq<int> {
    Seq::new(triangle_index_count(n_x, n_z) as nat, |p: int| triangle_index(n_x, p))
}

/// The left border (`i == 0`), from the top row down.
pub open spec fn border_nx(n_x: int, n_z: int) -> Seq<int> {
    Seq::new(n_z as nat, |t: int| slot(n_x, 0, t))
}

/// The right border (`i == n_x - 1`), from the bottom row up.
pub open spec fn border_px(n_x: int, n_z: int) -> Seq<int> {
    Seq::new(n_z as nat, |t: int| slot(n_x, n_x - 1, n_z - 1 - t))
}

/// The bottom border (`k == n_z - 1`), from left to right.
pub open spec fn border_pz(n_x: int, n_z: int) -> Seq<int> {
    Seq::new(n_x as nat, |t: int| slot(n_x, t, n_z - 1))
}

/// The top border (`k == 0`), from right to left.
pub open spec fn border_nz(n_x: int, n_z: int) -> Seq<int> {
    Seq::new(n_x as nat, |t: int| slot(n_x, n_x - 1 - t, 0))
}

/// Every vertex of the grid has a slot below the vertex count.
pub proof fn lemma_slot_in_range(n_x: int, n_z: int, i: int, k: int)
    requires
        0 <= i < n_x,
        0 <= k < n_z,
    ensures
        0 <= slot(n_x, i, k) < n_x * n_z,
        slot(n_x, i, k) <= (n_z - 1) * n_x + (n_x - 1),
{
    assert(0 <= k * n_x && k * n_x <= (n_z - 1) * n_x) by (nonlinear_arith)
        requires
            0 <= k <= n_z - 1,
            0 <= n_x,
    ;
    assert((n_z - 1) * n_x + n_x == n_x * n_z) by (nonlinear_arith);
}

/// Slots grow along each row and from one row to the next.
pub proof fn lemma_slot_order(n_x: int, i: int, k: int, i2: int, k2: int)
    requires
        0 <= i < n_x,
        0 <= i2 <= n_x,
        0 <= k,
        k < k2 || (k == k2 && i < i2),
    ensures
        0 <= slot(n_x, i, k) < slot(n_x, i2, k2),
{
    assert(0 <= k * n_x) by (nonlinear_arith)
        requires
            0 <= k,
            0 <= n_x,
    ;
    if k < k2 {
        assert(k * n_x + n_x <= k2 * n_x) by (nonlinear_arith)
            requires
                k + 1 <= k2,
                0 <= n_x,
        ;
    }
}

/// Entry `6 * (row * (n_x - 1) + col) + corner` of the triangle buffer belongs
/// to the quad at `(col, row)`.
proof fn lemma_quad_position(n_x: int, row: int, col: int, corner: int)
    requires
        2 <= n_x,
        0 <= row,
        0 <= col < n_x - 1,
        0 <= corner < 6,
    ensures
        ({
            let p = 6 * (row * (n_x - 1) + col) + corner;
            &&& (p / 6) / (n_x - 1) == row
            &&& (p / 6) % (n_x - 1) == col
            &&& p % 6 == corner
        }),
{
    let quad = row * (n_x - 1) + col;
    let p = 6 * quad + corner;
    lemma_fundamental_div_mod_converse(p, 6, quad, corner);
    lemma_fundamental_div_mod_converse(quad, n_x - 1, row, col);
}

/// Every entry of the triangle buffer names a vertex of the grid.
pub proof fn lemma_triangle_index_in_range(n_x: int, n_z: int, p: int)
    requires
        1 <= n_x,
        1 <= n_z,
        0 <= p < triangle_index_count(n_x, n_z),
    ensures
        0 <= triangle_index(n_x, p) < n_x * n_z,
{
    assert(n_x >= 2) by (nonlinear_arith)
        requires
            1 <= n_x,
            1 <= n_z,
            0 < 6 * ((n_z - 1) * (n_x - 1)),
    ;
    let quad = p / 6;
    let row = quad / (n_x - 1);
    let col = quad % (n_x - 1);
    assert(0 <= quad < (n_z - 1) * (n_x - 1));
    vstd::arithmetic::div_mod::lemma_fundamental_div_mod(quad, n_x - 1);
    vstd::arithmetic::div_mod::lemma_mod_pos_bound(quad, n_x - 1);
    assert(0 <= row < n_z - 1) by (nonlinear_arith)
        requires
            quad == (n_x - 1) * row + col,
            0 <= col < n_x - 1,
            0 <= quad < (n_z - 1) * (n_x - 1),
    ;
    lemma_slot_in_range(n_x, n_z, col, row);
    lemma_slot_in_range(n_x, n_z, col + 1, row);
    lemma_slot_in_range(n_x, n_z, col, row + 1);
    lemma_slot_in_range(n_x, n_z, col + 1, row + 1);
}

/// Column of the vertex stored at `index`.
pub open spec fn column_of(n_x: int, index: int) -> int {
    index % n_x
}

/// Row of the vertex stored at `index`.
pub open spec fn row_of(n_x: int, index: int) -> int {
    index / n_x
}

/// Twice the signed area of the triangle of the vertices stored at `a`, `b`
/// and `c`, measured in grid steps with columns along x and rows along z.
/// It is negative when the triangle runs counter-clockwise seen from above,
/// with -z at the top and +x to the right.
pub open spec fn turn(n_x: int, a: int, b: int, c: int) -> int {
    (column_of(n_x, b) - column_of(n_x, a)) * (row_of(n_x, c) - row_of(n_x, a)) - (row_of(n_x, b)
        - row_of(n_x, a)) * (column_of(n_x, c) - column_of(n_x, a))
}

/// A slot gives back its column and its row.
pub proof fn lemma_slot_position(n_x: int, i: int, k: int)
    requires
        0 <= i < n_x,
    ensures
        column_of(n_x, slot(n_x, i, k)) == i,
        row_of(n_x, slot(n_x, i, k)) == k,
{
    lemma_fundamental_div_mod_converse(slot(n_x, i, k), n_x, k, i);
}

/// Every triangle of the grid is half a quad and runs counter-clockwise seen
/// from above: all triangles wind the same way.
pub proof fn lemma_triangles_wind_one_way(n_x: int, n_z: int, t: int)
    requires
        1 <= n_x,
        1 <= n_z,
        0 <= t,
        3 * t + 2 < triangle_index_count(n_x, n_z),
    ensures
        turn(
            n_x,
            triangle_index(n_x, 3 * t),
            triangle_index(n_x, 3 * t + 1),
            triangle_index(n_x, 3 * t + 2),
        ) == -1,
{
    assert(n_x >= 2) by (nonlinear_arith)
        requires
            1 <= n_x,
            1 <= n_z,
            0 < 6 * ((n_z - 1) * (n_x - 1)),
    ;
    let quad = t / 2;
    let half = t % 2;
    let row = quad / (n_x - 1);
    let col = quad % (n_x - 1);
    lemma_fundamental_div_mod_converse(3 * t, 6, quad, 3 * half);
    lemma_fundamental_div_mod_converse(3 * t + 1, 6, quad, 3 * half + 1);
    lemma_fundamental_div_mod_converse(3 * t + 2, 6, quad, 3 * half + 2);
    vstd::arithmetic::div_mod::lemma_mod_pos_bound(quad, n_x - 1);
    lemma_slot_position(n_x, col, row);
    lemma_slot_position(n_x, col + 1, row);
    lemma_slot_position(n_x, col, row + 1);
    lemma_slot_position(n_x, col + 1, row + 1);
    let a = triangle_index(n_x, 3 * t);
    let b = triangle_index(n_x, 3 * t + 1);
    let c = triangle_index(n_x, 3 * t + 2);
    if half == 0 {
        assert(a == slot(n_x, col + 1, row));
        assert(b == slot(n_x, col, row));
        assert(c == slot(n_x, col, row + 1));
        assert(turn(n_x, a, b, c) == (col - (col + 1)) * ((row + 1) - row) - (row - row) * (col
            - (col + 1)));
        assert((col - (col + 1)) * ((row + 1) - row) - (row - row) * (col - (col + 1)) == -1)
            by (nonlinear_arith);
    } else {
        assert(a == slot(n_x, col, row + 1));
        assert(b == slot(n_x, col + 1, row + 1));
        assert(c == slot(n_x, col + 1, row));
        assert(turn(n_x, a, b, c) == ((col + 1) - col) * (row - (row + 1)) - ((row + 1) - (row
            + 1)) * ((col + 1) - col));
        assert(((col + 1) - col) * (row - (row + 1)) - ((row + 1) - (row + 1)) * ((col + 1)
            - col) == -1) by (nonlinear_arith);
    }
}

/// The four borders form one closed loop around the grid: each ends on the
/// corner where the next begins.
pub proof fn lemma_borders_close_the_loop(n_x: int, n_z: int)
    requires
        1 <= n_x,
        1 <= n_z,
    ensures
        border_nx(n_x, n_z).last() == border_pz(n_x, n_z).first(),
        border_pz(n_x, n_z).last() == border_px(n_x, n_z).first(),
        border_px(n_x, n_z).last() == border_nz(n_x, n_z).first(),
        border_nz(n_x, n_z).last() == border_nx(n_x, n_z).first(),
{
}

/// Builds the triangle index buffer of an `n_x` by `n_z` grid.
pub fn triangles(n_x: u32, n_z: u32) -> (out: Vec<u16>)
    requires
        valid_counts(n_x as int, n_z as int),
    ensures
        widen(out@) == triangle_indices(n_x as int, n_z as int),
{
    let mut out: Vec<u16> = Vec::new();
    let mut row: u32 = 0;
    while row + 1 < n_z
        invariant
            valid_counts(n_x as int, n_z as int),
            0 <= row <= n_z - 1,
            out.len() == 6 * (row * (n_x - 1)),
            forall|p: int| 0 <= p < out.len() ==> out[p] as int == triangle_index(n_x as int, p),
        decreases n_z - row,
    {
        let mut col: u32 = 0;
        while col + 1 < n_x
            invariant
                valid_counts(n_x as int, n_z as int),
                0 <= row < n_z - 1,
                0 <= col <= n_x - 1,
                out.len() == 6 * (row * (n_x - 1) + col),
                forall|p: int| 0 <= p < out.len() ==> out[p] as int == triangle_index(n_x as int, p),
            decreases n_x - col,
        {
            proof {
                lemma_slot_in_range(n_x as int, n_z as int, col as int, row as int);
                lemma_slot_in_range(n_x as int, n_z as int, col + 1, row + 1);
                lemma_quad_position(n_x as int, row as int, col as int, 0);
                lemma_quad_position(n_x as int, row as int, col as int, 1);
                lemma_quad_position(n_x as int, row as int, col as int, 2);
                lemma_quad_position(n_x as int, row as int, col as int, 3);
                lemma_quad_position(n_x as int, row as int, col as int, 4);
                lemma_quad_position(n_x as int, row as int, col as int, 5);
                assert((row + 1) * n_x == row * n_x + n_x) by (nonlinear_arith);
            }
            let top_left: u32 = row * n_x + col;
            let bottom_left: u32 = top_left + n_x;
            out.push((top_left + 1) as u16);
            out.push(top_left as u16);
            out.push(bottom_left as u16);
            out.push(bottom_left as u16);
            out.push((bottom_left + 1) as u16);
            out.push((top_left + 1) as u16);
            col += 1;
        }
        proof {
            assert(6 * (row * (n_x - 1) + (n_x - 1)) == 6 * ((row + 1) * (n_x - 1)))
                by (nonlinear_arith);
        }
        row += 1;
    }
    proof {
        assert(widen(out@) =~= triangle_indices(n_x as int, n_z as int));
    }
    out
}

/// Builds the left border loop: column 0, top to bottom.
pub fn left_border(n_x: u32, n_z: u32) -> (out: Vec<u16>)
    requires
        valid_counts(n_x as int, n_z as int),
    ensures
        widen(out@) == border_nx(n_x as int, n_z as int),
{
    let mut out: Vec<u16> = Vec::new();
    let mut t: u32 = 0;
    while t < n_z
        invariant
            valid_counts(n_x as int, n_z as int),
            0 <= t <= n_z,
            out.len() == t,
            forall|q: int| 0 <= q < t ==> out[q] as int == slot(n_x as int, 0, q),
        decreases n_z - t,
    {
        proof {
            lemma_slot_in_range(n_x as int, n_z as int, 0, t as int);
        }
        out.push((t * n_x) as u16);
        t += 1;
    }
    proof {
        assert(widen(out@) =~= border_nx(n_x as int, n_z as int));
    }
    out
}

/// Builds the right border loop: the last column, bottom to top.
pub fn right_border(n_x: u32, n_z: u32) -> (out: Vec<u16>)
    requires
        valid_counts(n_x as int, n_z as int),
    ensures
        widen(out@) == border_px(n_x as int, n_z as int),
{
    let mut out: Vec<u16> = Vec::new();
    let mut t: u32 = 0;
    while t < n_z
        invariant
            valid_counts(n_x as int, n_z as int),
            0 <= t <= n_z,
            out.len() == t,
            forall|q: int|
                0 <= q < t ==> out[q] as int == slot(n_x as int, n_x - 1, n_z - 1 - q),
        decreases n_z - t,
    {
        proof {
            lemma_slot_in_range(n_x as int, n_z as int, n_x - 1, n_z - 1 - t);
        }
        out.push(((n_z - 1 - t) * n_x + (n_x - 1)) as u16);
        t += 1;
    }
    proof {
        assert(widen(out@) =~= border_px(n_x as int, n_z as int));
    }
    out
}

/// Builds the bottom border loop: the last row, left to right.
pub fn bottom_border(n_x: u32, n_z: u32) -> (out: Vec<u16>)
    requires
        valid_counts(n_x as int, n_z as int),
    ensures
        widen(out@) == border_pz(n_x as int, n_z as int),
{
    let mut out: Vec<u16> = Vec::new();
    proof {
        lemma_slot_in_range(n_x as int, n_z as int, 0, n_z - 1);
    }
    let first: u32 = (n_z - 1) * n_x;
    let mut t: u32 = 0;
    while t < n_x
        invariant
            valid_counts(n_x as int, n_z as int),
            first == (n_z - 1) * n_x,
            0 <= t <= n_x,
            out.len() == t,
            forall|q: int| 0 <= q < t ==> out[q] as int == slot(n_x as int, q, n_z - 1),
        decreases n_x - t,
    {
        proof {
            lemma_slot_in_range(n_x as int, n_z as int, t as int, n_z - 1);
        }
        out.push((first + t) as u16);
        t += 1;
    }
    proof {
        assert(widen(out@) =~= border_pz(n_x as int, n_z as int));
    }
    out
}

/// Builds the top border loop: row 0, right to left.
pub fn top_border(n_x: u32, n_z: u32) -> (out: Vec<u16>)
    requires
        valid_counts(n_x as int, n_z as int),
    ensures
        widen(out@) == border_nz(n_x as int, n_z as int),
{
    let mut out: Vec<u16> = Vec::new();
    let mut t: u32 = 0;
    while t < n_x
        invariant
            valid_counts(n_x as int, n_z as int),
            0 <= t <= n_x,
            out.len() == t,
            forall|q: int| 0 <= q < t ==> out[q] as int == slot(n_x as int, n_x - 1 - q, 0),
        decreases n_x - t,
    {
        proof {
            lemma_slot_in_range(n_x as int, n_z as int, n_x - 1 - t, 0);
        }
        out.push((n_x - 1 - t) as u16);
        t += 1;
    }
    proof {
        assert(widen(out@) =~= border_nz(n_x as int, n_z as int));
    }
    out
}

} // verus!
