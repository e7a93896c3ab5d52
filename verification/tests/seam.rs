use facemesh::{stitch, MeshError, Vertex};

fn at(x: f32, y: f32, z: f32) -> Vertex {
    Vertex::new([x.to_bits(), y.to_bits(), z.to_bits()], [0, 0, 0], [0, 0])
}

fn distance(a: &Vertex, b: &Vertex) -> f32 {
    let mut sum: f32 = 0.0;
    for axis in 0..3 {
        let d = f32::from_bits(a.position[axis]) - f32::from_bits(b.position[axis]);
        sum += d * d;
    }
    sum.sqrt()
}

fn nearer(a: Vertex, b: Vertex, c: Vertex, d: Vertex) -> bool {
    distance(&a, &b) <= distance(&c, &d)
}

fn always(_: Vertex, _: Vertex, _: Vertex, _: Vertex) -> bool {
    true
}

fn never(_: Vertex, _: Vertex, _: Vertex, _: Vertex) -> bool {
    false
}

fn rail(n: usize, z: f32, length: f32) -> Vec<Vertex> {
    (0..n).map(|t| at(length * t as f32 / (n.max(2) - 1) as f32, 0.0, z)).collect()
}

fn two_rails(l_n: usize, h_n: usize) -> (Vec<Vertex>, Vec<u16>, Vec<u16>) {
    let mut vertices = rail(l_n, 0.0, 1.0);
    vertices.extend(rail(h_n, 1.0, 1.0));
    let lower: Vec<u16> = (0..l_n as u16).collect();
    let higher: Vec<u16> = (0..h_n as u16).collect();
    (vertices, lower, higher)
}

#[test]
fn seam_of_two_pairs_is_two_triangles() {
    let (vertices, lower, higher) = two_rails(2, 2);
    let seam = stitch(&vertices, &lower, 0, &higher, 2, &nearer).unwrap();
    // Both diagonals are equally long, so the walk moves on the higher loop first.
    assert_eq!(seam, vec![3u16, 0, 2, 3, 1, 0]);
}

#[test]
fn seam_moves_on_higher_when_told_so() {
    let (vertices, lower, higher) = two_rails(3, 3);
    let seam = stitch(&vertices, &lower, 0, &higher, 3, &always).unwrap();
    assert_eq!(seam, vec![4u16, 0, 3, 5, 0, 4, 5, 1, 0, 5, 2, 1]);
}

#[test]
fn seam_moves_on_lower_when_told_so() {
    let (vertices, lower, higher) = two_rails(3, 3);
    let seam = stitch(&vertices, &lower, 0, &higher, 3, &never).unwrap();
    assert_eq!(seam, vec![3u16, 1, 0, 3, 2, 1, 4, 2, 3, 5, 2, 4]);
}

#[test]
fn seam_takes_the_shorter_diagonal() {
    // lower: x = 0, 1, 2; higher: x = 0, 0.1, 2. From the start the diagonal
    // to higher[1] is the shorter one, then the one to lower[1], then the one
    // to higher[2]; the last step is the only one left.
    let vertices = vec![
        at(0.0, 0.0, 0.0),
        at(1.0, 0.0, 0.0),
        at(2.0, 0.0, 0.0),
        at(0.0, 0.0, 1.0),
        at(0.1, 0.0, 1.0),
        at(2.0, 0.0, 1.0),
    ];
    let seam = stitch(&vertices, &vec![0, 1, 2], 0, &vec![0, 1, 2], 3, &nearer).unwrap();
    assert_eq!(seam, vec![4u16, 0, 3, 4, 1, 0, 5, 1, 4, 5, 2, 1]);
}

#[test]
fn seam_between_equal_loops_has_two_n_minus_two_triangles() {
    for n in 1usize..12 {
        let (vertices, lower, higher) = two_rails(n, n);
        let seam = stitch(&vertices, &lower, 0, &higher, n, &nearer).unwrap();
        assert_eq!(seam.len(), 3 * (2 * n - 2));
    }
}

#[test]
fn seam_between_unequal_loops_has_one_triangle_per_step() {
    for l_n in 1usize..9 {
        for h_n in 1usize..9 {
            let (vertices, lower, higher) = two_rails(l_n, h_n);
            for seam in [
                stitch(&vertices, &lower, 0, &higher, l_n, &nearer).unwrap(),
                stitch(&vertices, &lower, 0, &higher, l_n, &always).unwrap(),
                stitch(&vertices, &lower, 0, &higher, l_n, &never).unwrap(),
            ] {
                assert_eq!(seam.len(), 3 * (l_n + h_n - 2));
                assert!(seam.iter().all(|&index| (index as usize) < l_n + h_n));
            }
        }
    }
}

#[test]
fn seam_triangles_span_both_loops() {
    let (vertices, lower, higher) = two_rails(5, 3);
    let seam = stitch(&vertices, &lower, 0, &higher, 5, &nearer).unwrap();
    for triangle in seam.chunks(3) {
        assert!(triangle[0] >= 5, "first corner lies on the higher loop");
        assert!(triangle[1] < 5, "second corner lies on the lower loop");
        assert!(triangle[0] != triangle[2] && triangle[1] != triangle[2]);
    }
    assert_eq!(seam[seam.len() - 3], 7);
    assert_eq!(seam[seam.len() - 2], 4);
}

#[test]
fn seam_of_single_vertices_is_empty() {
    let vertices = vec![at(0.0, 0.0, 0.0), at(0.0, 1.0, 0.0)];
    let seam = stitch(&vertices, &vec![0], 0, &vec![0], 1, &nearer).unwrap();
    assert!(seam.is_empty());
}

#[test]
fn seam_with_one_vertex_on_a_side_is_a_fan() {
    let (vertices, lower, higher) = two_rails(1, 4);
    let seam = stitch(&vertices, &lower, 0, &higher, 1, &never).unwrap();
    assert_eq!(seam, vec![2u16, 0, 1, 3, 0, 2, 4, 0, 3]);
    let (vertices, lower, higher) = two_rails(4, 1);
    let seam = stitch(&vertices, &lower, 0, &higher, 4, &always).unwrap();
    assert_eq!(seam, vec![4u16, 1, 0, 4, 2, 1, 4, 3, 2]);
}

#[test]
fn seam_follows_the_order_of_the_loops() {
    let (vertices, _, _) = two_rails(3, 3);
    let seam = stitch(&vertices, &vec![2, 1, 0], 0, &vec![2, 1, 0], 3, &always).unwrap();
    assert_eq!(seam, vec![4u16, 2, 5, 3, 2, 4, 3, 1, 2, 3, 0, 1]);
}

#[test]
fn seam_without_a_loop_is_refused() {
    let (vertices, lower, higher) = two_rails(2, 2);
    let none: Vec<u16> = vec![];
    assert_eq!(stitch(&vertices, &none, 0, &higher, 2, &nearer), Err(MeshError::EmptyEdgeLoop));
    assert_eq!(stitch(&vertices, &lower, 0, &none, 2, &nearer), Err(MeshError::EmptyEdgeLoop));
    assert_eq!(stitch(&vertices, &none, 0, &none, 0, &nearer), Err(MeshError::EmptyEdgeLoop));
}

#[test]
fn seam_is_the_same_every_time() {
    let (vertices, lower, higher) = two_rails(7, 4);
    let first = stitch(&vertices, &lower, 0, &higher, 7, &nearer).unwrap();
    let second = stitch(&vertices, &lower, 0, &higher, 7, &nearer).unwrap();
    assert_eq!(first, second);
}

#[test]
fn seam_shifts_with_the_faces() {
    let (vertices, lower, higher) = two_rails(3, 2);
    let mut padded = vec![at(9.0, 9.0, 9.0); 4];
    padded.extend_from_slice(&vertices);
    let plain = stitch(&vertices, &lower, 0, &higher, 3, &nearer).unwrap();
    let shifted = stitch(&padded, &lower, 4, &higher, 7, &nearer).unwrap();
    assert_eq!(shifted, plain.iter().map(|index| index + 4).collect::<Vec<u16>>());
}
