use facemesh::{HeightMap, MeshStorage, MeshStorageError, Vertex};

fn plain(tag: u32) -> Vertex {
    Vertex::new([tag, tag, tag], [0, 0, 0], [tag, 0])
}

fn run(first: u32, n: u32) -> Vec<Vertex> {
    (first..first + n).map(plain).collect()
}

#[test]
fn storage_starts_empty() {
    let storage = MeshStorage::new();
    assert_eq!(storage.num_indices(), 0);
    assert_eq!(storage.get_mesh_index_bounds(&0), None);
    assert!(storage.get_mesh(&0).is_none());
}

#[test]
fn storage_numbers_meshes_in_order() {
    let mut storage = MeshStorage::new();
    assert_eq!(storage.add_mesh(&run(0, 3), &[0, 1, 2]), Ok(0));
    assert_eq!(storage.add_mesh(&run(10, 4), &[0, 1, 2, 2, 3, 0]), Ok(1));
    assert_eq!(storage.add_mesh(&[], &[]), Ok(2));
    assert_eq!(storage.num_indices(), 9);
    assert_eq!(storage.get_mesh_index_bounds(&0), Some((0, 3)));
    assert_eq!(storage.get_mesh_index_bounds(&1), Some((3, 9)));
    assert_eq!(storage.get_mesh_index_bounds(&2), Some((9, 9)));
    assert_eq!(storage.get_mesh_index_bounds(&3), None);
}

#[test]
fn storage_moves_indices_behind_earlier_vertices() {
    let mut storage = MeshStorage::new();
    storage.add_mesh(&run(0, 3), &[0, 1, 2]).unwrap();
    storage.add_mesh(&run(10, 4), &[0, 1, 2, 2, 3, 0]).unwrap();
    let (vertices, indices) = storage.get_mesh(&0).unwrap();
    assert_eq!(vertices, &run(0, 3)[..]);
    assert_eq!(indices, &[0u16, 1, 2][..]);
    let (vertices, indices) = storage.get_mesh(&1).unwrap();
    assert_eq!(vertices, &run(10, 4)[..]);
    assert_eq!(indices, &[3u16, 4, 5, 5, 6, 3][..]);
}

#[test]
fn storage_refuses_a_stray_index_and_stays_as_it_was() {
    let mut storage = MeshStorage::new();
    storage.add_mesh(&run(0, 3), &[0, 1, 2]).unwrap();
    assert_eq!(
        storage.add_mesh(&run(10, 4), &[0, 9, 2, 4]),
        Err(MeshStorageError::IndexOutOfBounds(9))
    );
    assert_eq!(storage.add_mesh(&run(10, 4), &[4]), Err(MeshStorageError::IndexOutOfBounds(4)));
    assert_eq!(storage.add_mesh(&[], &[0]), Err(MeshStorageError::IndexOutOfBounds(0)));
    assert_eq!(storage.num_indices(), 3);
    assert_eq!(storage.get_mesh_index_bounds(&1), None);
    assert_eq!(storage.add_mesh(&run(10, 4), &[3]), Ok(1));
    assert_eq!(storage.get_mesh(&1).unwrap().1, &[6u16][..]);
}

#[test]
fn storage_refuses_too_many_vertices() {
    let mut storage = MeshStorage::new();
    assert_eq!(storage.add_mesh(&run(0, 65535), &[65534]), Ok(0));
    assert_eq!(storage.add_mesh(&run(0, 1), &[0]), Err(MeshStorageError::MaxVerticesExceeded));
    assert_eq!(storage.add_mesh(&run(0, 1), &[7]), Err(MeshStorageError::MaxVerticesExceeded));
    assert_eq!(storage.add_mesh(&[], &[]), Ok(1));
    assert_eq!(storage.num_indices(), 1);
    let mut other = MeshStorage::new();
    assert_eq!(other.add_mesh(&run(0, 65536), &[]), Err(MeshStorageError::MaxVerticesExceeded));
    assert_eq!(other.add_mesh(&run(0, 65534), &[]), Ok(0));
    assert_eq!(other.add_mesh(&run(0, 1), &[0]), Ok(1));
    assert_eq!(other.get_mesh(&1).unwrap().1, &[65534u16][..]);
    assert_eq!(other.add_mesh(&run(0, 1), &[0]), Err(MeshStorageError::MaxVerticesExceeded));
}

#[test]
fn height_map_flat_has_one_height() {
    let chunk = HeightMap::flat(7);
    for z in 0..16 {
        for x in 0..16 {
            assert_eq!(chunk.height_at(x, z), 7);
        }
    }
}

#[test]
fn height_map_is_read_by_x_then_z() {
    let mut rows = [[0u64; 16]; 16];
    for z in 0..16 {
        for x in 0..16 {
            rows[z][x] = (100 * z + x) as u64;
        }
    }
    let chunk = HeightMap::new(rows);
    assert_eq!(chunk.height_at(0, 0), 0);
    assert_eq!(chunk.height_at(3, 0), 3);
    assert_eq!(chunk.height_at(0, 3), 300);
    assert_eq!(chunk.height_at(15, 2), 215);
    assert_eq!(chunk.height_at(15, 15), 1515);
}
