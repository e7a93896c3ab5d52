use facemesh::{EdgeJoin, Face, Mesh, MeshError, Shape3, Vertex};

fn at(x: f32, y: f32, z: f32) -> Vertex {
    Vertex::new(
        [x.to_bits(), y.to_bits(), z.to_bits()],
        [0.0f32.to_bits(), 1.0f32.to_bits(), 0.0f32.to_bits()],
        [0, 0],
    )
}

fn distance(a: &Vertex, b: &Vertex) -> f32 {
    let mut sum: f32 = 0.0;
    for axis in 0..3 {
        let d = f32::from_bits(a.position[axis]) - f32::from_bits(b.position[axis]);
        sum += d * d;
    }
    sum.sqrt()
}

fn nearer(a: Vertex, b: Vertex, c: Vertex, d: Vertex) -> bool {
    distance(&a, &b) <= distance(&c, &d)
}

fn flat(n_x: u32, n_z: u32, y: f32) -> Face {
    let dx = if n_x > 1 { 1.0 / (n_x - 1) as f32 } else { 0.0 };
    let dz = if n_z > 1 { 1.0 / (n_z - 1) as f32 } else { 0.0 };
    Face::from_function(n_x, n_z, |i: u32, k: u32| at(-0.5 + i as f32 * dx, y, -0.5 + k as f32 * dz))
        .unwrap()
}

#[test]
fn two_flat_faces_joined_along_one_edge() {
    let top = flat(2, 2, 0.5);
    let bottom = flat(2, 2, -0.5);
    assert_eq!(top.vertices().len(), 4);
    assert_eq!(top.indices().len(), 6);
    let join = EdgeJoin::new(bottom.edge_px().clone(), 1, top.edge_nx().clone(), 0).unwrap();
    let shape = Shape3::new(vec![top, bottom], vec![join], nearer).unwrap();
    assert_eq!(shape.vertices().len(), 8);
    assert_eq!(shape.indices().len(), 18);
    assert!(shape.indices().iter().all(|&index| index < 8));
    assert_eq!(&shape.indices()[..6], &[1u16, 0, 2, 2, 3, 1][..]);
    assert_eq!(&shape.indices()[6..12], &[5u16, 4, 6, 6, 7, 5][..]);
}

#[test]
fn shape_without_faces_is_empty() {
    let shape = Shape3::new(vec![], vec![], nearer).unwrap();
    assert!(shape.vertices().is_empty());
    assert!(shape.indices().is_empty());
}

#[test]
fn shape_keeps_every_vertex_in_face_order() {
    let a = flat(3, 2, 0.0);
    let b = flat(2, 2, 1.0);
    let c = flat(1, 4, 2.0);
    let mut expected: Vec<Vertex> = vec![];
    expected.extend_from_slice(a.vertices());
    expected.extend_from_slice(b.vertices());
    expected.extend_from_slice(c.vertices());
    let shape = Shape3::new(vec![a, b, c], vec![], nearer).unwrap();
    assert_eq!(shape.vertices().len(), 6 + 4 + 4);
    assert_eq!(shape.vertices(), &expected[..]);
}

#[test]
fn shape_moves_each_triangulation_by_the_vertices_before_it() {
    let a = flat(3, 2, 0.0);
    let b = flat(2, 2, 1.0);
    let shape = Shape3::new(vec![a, b], vec![], nearer).unwrap();
    assert_eq!(
        shape.indices(),
        &[1u16, 0, 3, 3, 4, 1, 2, 1, 4, 4, 5, 2, 7, 6, 8, 8, 9, 7][..]
    );
}

#[test]
fn shape_vertex_count_is_not_changed_by_joins() {
    let top = flat(4, 4, 0.5);
    let bottom = flat(3, 3, -0.5);
    let joins = vec![
        EdgeJoin::new(bottom.edge_px().clone(), 1, top.edge_nx().clone(), 0).unwrap(),
        EdgeJoin::new(bottom.edge_nx().clone(), 1, top.edge_px().clone(), 0).unwrap(),
        EdgeJoin::new(bottom.edge_pz().clone(), 1, top.edge_pz().clone(), 0).unwrap(),
        EdgeJoin::new(bottom.edge_nz().clone(), 1, top.edge_nz().clone(), 0).unwrap(),
    ];
    let shape = Shape3::new(vec![top, bottom], joins, nearer).unwrap();
    assert_eq!(shape.vertices().len(), 16 + 9);
    assert_eq!(shape.indices().len(), 6 * 9 + 6 * 4 + 4 * 3 * (3 + 4 - 2));
    assert!(shape.indices().iter().all(|&index| index < 25));
}

#[test]
fn shape_appends_seams_in_join_order() {
    let top = flat(2, 2, 0.5);
    let bottom = flat(2, 2, -0.5);
    let first = EdgeJoin::new(vec![0, 1], 1, vec![2, 3], 0).unwrap();
    let second = EdgeJoin::new(vec![3], 0, vec![0, 1, 2], 1).unwrap();
    let shape =
        Shape3::new(vec![top, bottom], vec![first, second], |_, _, _, _| true).unwrap();
    assert_eq!(shape.indices().len(), 12 + 6 + 6);
    // lower = bottom[0, 1] at 4, 5; higher = top[2, 3] at 2, 3.
    assert_eq!(&shape.indices()[12..18], &[3u16, 4, 2, 3, 5, 4][..]);
    // lower = top[3] at 3; higher = bottom[0, 1, 2] at 4, 5, 6.
    assert_eq!(&shape.indices()[18..24], &[5u16, 3, 4, 6, 3, 5][..]);
}

#[test]
fn shape_seam_uses_the_distance_handed_in() {
    let top = flat(3, 1, 0.5);
    let bottom = flat(3, 1, -0.5);
    let far = |a: Vertex, b: Vertex, c: Vertex, d: Vertex| !nearer(a, b, c, d);
    let join = || EdgeJoin::new(vec![0, 1, 2], 0, vec![0, 1, 2], 1).unwrap();
    let by_near = Shape3::new(vec![flat(3, 1, 0.5), flat(3, 1, -0.5)], vec![join()], nearer)
        .unwrap();
    let by_far = Shape3::new(vec![top, bottom], vec![join()], far).unwrap();
    assert_eq!(by_near.indices(), &[4u16, 0, 3, 4, 1, 0, 5, 1, 4, 5, 2, 1][..]);
    assert_eq!(by_far.indices(), &[3u16, 1, 0, 3, 2, 1, 4, 2, 3, 5, 2, 4][..]);
}

#[test]
fn join_of_a_face_with_itself_is_refused() {
    assert_eq!(EdgeJoin::new(vec![0, 1], 0, vec![2, 3], 0).unwrap_err(), MeshError::SameFaceJoin);
    assert_eq!(EdgeJoin::new(vec![], 7, vec![], 7).unwrap_err(), MeshError::SameFaceJoin);
    assert!(EdgeJoin::new(vec![0, 1], 0, vec![2, 3], 1).is_ok());
    assert!(EdgeJoin::new(vec![], 1, vec![], 0).is_ok());
}

#[test]
fn join_with_an_empty_loop_is_refused_at_assembly() {
    let lower_empty = EdgeJoin::new(vec![], 0, vec![0, 1], 1).unwrap();
    let result = Shape3::new(vec![flat(2, 2, 0.0), flat(2, 2, 1.0)], vec![lower_empty], nearer);
    assert_eq!(result.unwrap_err(), MeshError::EmptyEdgeLoop);
    let higher_empty = EdgeJoin::new(vec![0, 1], 0, vec![], 1).unwrap();
    let good = EdgeJoin::new(vec![0, 1], 0, vec![0, 1], 1).unwrap();
    let result =
        Shape3::new(vec![flat(2, 2, 0.0), flat(2, 2, 1.0)], vec![good, higher_empty], nearer);
    assert_eq!(result.unwrap_err(), MeshError::EmptyEdgeLoop);
}

#[test]
fn shape_beyond_sixteen_bit_indices_is_refused() {
    let result = Shape3::new(vec![flat(256, 256, 0.0), flat(1, 1, 1.0)], vec![], nearer);
    assert_eq!(result.unwrap_err(), MeshError::IndexOverflow);
    let empty_join = EdgeJoin::new(vec![], 0, vec![], 1).unwrap();
    let result = Shape3::new(vec![flat(256, 200, 0.0), flat(256, 100, 1.0)], vec![empty_join], nearer);
    assert_eq!(result.unwrap_err(), MeshError::IndexOverflow);
}

#[test]
fn shape_of_exactly_the_largest_size_is_built() {
    let join = EdgeJoin::new(vec![0, 255], 0, vec![32767, 0], 1).unwrap();
    let faces = vec![flat(256, 128, 0.0), flat(256, 128, 1.0)];
    let shape = Shape3::new(faces, vec![join], |_, _, _, _| false).unwrap();
    assert_eq!(shape.vertices().len(), 65536);
    assert_eq!(shape.indices().len(), 2 * 6 * 255 * 127 + 6);
    assert_eq!(*shape.indices().iter().max().unwrap(), 65535u16);
    let seam = &shape.indices()[2 * 6 * 255 * 127..];
    assert_eq!(seam, &[65535u16, 255, 0, 32768, 255, 65535][..]);
}

#[test]
fn join_fits_only_faces_it_refers_into() {
    let faces = vec![flat(2, 2, 0.0), flat(3, 3, 1.0)];
    assert!(EdgeJoin::new(vec![0, 3], 0, vec![8, 0], 1).unwrap().fits(&faces));
    assert!(EdgeJoin::new(vec![], 0, vec![], 1).unwrap().fits(&faces));
    assert!(!EdgeJoin::new(vec![0, 4], 0, vec![8, 0], 1).unwrap().fits(&faces));
    assert!(!EdgeJoin::new(vec![0, 3], 0, vec![9], 1).unwrap().fits(&faces));
    assert!(!EdgeJoin::new(vec![0], 0, vec![0], 2).unwrap().fits(&faces));
    assert!(!EdgeJoin::new(vec![0], 2, vec![0], 1).unwrap().fits(&faces));
    assert!(!EdgeJoin::new(vec![0], 0, vec![0], 1).unwrap().fits(&vec![]));
}
