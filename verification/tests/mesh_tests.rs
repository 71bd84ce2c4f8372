use voxel_mesher::chunk::VoxelChunk;
use voxel_mesher::mesh::{generate_face_data, generate_mesh_data, MeshBuffer};

fn chunk_with(width: i32, height: i32, solid: &[(i32, i32, i32)]) -> VoxelChunk {
    let mut cells = vec![false; (width * width * height) as usize];
    for &(x, y, z) in solid {
        cells[((y * width + x) * width + z) as usize] = true;
    }
    VoxelChunk::from_cells(width, height, cells).unwrap()
}

fn solid_chunk(width: i32, height: i32) -> VoxelChunk {
    VoxelChunk::from_cells(width, height, vec![true; (width * width * height) as usize]).unwrap()
}

fn faces_of(chunk: &VoxelChunk, x: i32, y: i32, z: i32) -> usize {
    let mut mesh = MeshBuffer::new();
    generate_face_data(chunk, x, y, z, &mut mesh);
    assert_eq!(mesh.vertices().len() % 4, 0);
    mesh.vertices().len() / 4
}

fn assert_valid(mesh: &MeshBuffer) {
    assert_eq!(mesh.vertices().len(), mesh.uvs().len());
    assert_eq!(mesh.vertices().len() % 4, 0);
    assert_eq!(mesh.indices().len() % 6, 0);
    assert_eq!(mesh.indices().len() / 6, mesh.vertices().len() / 4);
    for &i in mesh.indices() {
        assert!((i as usize) < mesh.vertices().len());
    }
}

const CUBE: [(i32, i32, i32); 24] = [
    (0, 0, 0), (0, 1, 0), (1, 0, 0), (1, 1, 0),
    (1, 0, 1), (1, 1, 1), (0, 0, 1), (0, 1, 1),
    (0, 1, 0), (0, 1, 1), (1, 1, 0), (1, 1, 1),
    (1, 0, 0), (1, 0, 1), (0, 0, 0), (0, 0, 1),
    (0, 0, 1), (0, 1, 1), (0, 0, 0), (0, 1, 0),
    (1, 0, 0), (1, 1, 0), (1, 0, 1), (1, 1, 1),
];

#[test]
fn new_mesh_is_empty() {
    let mesh = MeshBuffer::new();
    assert!(mesh.vertices().is_empty());
    assert!(mesh.uvs().is_empty());
    assert!(mesh.indices().is_empty());
}

#[test]
fn empty_chunk_gives_empty_mesh() {
    let mesh = generate_mesh_data(&VoxelChunk::new(5, 4).unwrap());
    assert_eq!(mesh.vertices().len(), 0);
    assert_eq!(mesh.uvs().len(), 0);
    assert_eq!(mesh.indices().len(), 0);
}

#[test]
fn single_voxel_chunk_is_a_cube() {
    let mesh = generate_mesh_data(&solid_chunk(1, 1));
    assert_eq!(mesh.vertices().as_slice(), &CUBE[..]);
    let uvs: Vec<(i32, i32)> =
        (0..6).flat_map(|_| [(0, 0), (0, 1), (1, 0), (1, 1)]).collect();
    assert_eq!(mesh.uvs(), &uvs);
    let indices: Vec<u32> = (0..6u32)
        .flat_map(|k| [4 * k, 4 * k + 1, 4 * k + 2, 4 * k + 2, 4 * k + 1, 4 * k + 3])
        .collect();
    assert_eq!(mesh.indices(), &indices);
    assert_eq!(
        &mesh.indices()[..12],
        &[0u32, 1, 2, 2, 1, 3, 4, 5, 6, 6, 5, 7]
    );
}

#[test]
fn isolated_centre_voxel_has_six_quads() {
    let mesh = generate_mesh_data(&chunk_with(3, 3, &[(1, 1, 1)]));
    assert_eq!(mesh.vertices().len(), 24);
    assert_eq!(mesh.uvs().len(), 24);
    assert_eq!(mesh.indices().len(), 36);
    let moved: Vec<(i32, i32, i32)> =
        CUBE.iter().map(|&(x, y, z)| (x + 1, y + 1, z + 1)).collect();
    assert_eq!(mesh.vertices(), &moved);
    assert_valid(&mesh);
}

#[test]
fn triangles_of_a_quad_share_their_diagonal() {
    let mesh = generate_mesh_data(&chunk_with(3, 3, &[(1, 1, 1)]));
    let indices = mesh.indices();
    for k in 0..6 {
        let q = &indices[6 * k..6 * k + 6];
        let base = 4 * k as u32;
        assert_eq!(q, &[base, base + 1, base + 2, base + 2, base + 1, base + 3]);
        assert_eq!(q[1], q[4]);
        assert_eq!(q[2], q[3]);
    }
}

#[test]
fn isolated_voxel_off_centre_is_moved_by_its_position() {
    let mesh = generate_mesh_data(&chunk_with(4, 5, &[(3, 4, 0)]));
    let moved: Vec<(i32, i32, i32)> =
        CUBE.iter().map(|&(x, y, z)| (x + 3, y + 4, z)).collect();
    assert_eq!(mesh.vertices(), &moved);
    assert_eq!(mesh.indices().len(), 36);
}

#[test]
fn mesh_normals_point_away_from_the_voxel() {
    let mesh = generate_mesh_data(&chunk_with(3, 3, &[(1, 1, 1)]));
    let v = mesh.vertices();
    let steps = [(0, 0, -1), (0, 0, 1), (0, 1, 0), (0, -1, 0), (-1, 0, 0), (1, 0, 0)];
    for (k, tri) in mesh.indices().chunks(3).enumerate() {
        let (a, b, c) = (v[tri[0] as usize], v[tri[1] as usize], v[tri[2] as usize]);
        let p = (b.0 - a.0, b.1 - a.1, b.2 - a.2);
        let q = (c.0 - a.0, c.1 - a.1, c.2 - a.2);
        let normal = (p.1 * q.2 - p.2 * q.1, p.2 * q.0 - p.0 * q.2, p.0 * q.1 - p.1 * q.0);
        assert_eq!(normal, steps[k / 2]);
    }
}

#[test]
fn solid_chunk_shows_only_its_boundary() {
    let chunk = solid_chunk(3, 3);
    let mesh = generate_mesh_data(&chunk);
    // nine faces on each of the six sides
    assert_eq!(mesh.vertices().len(), 54 * 4);
    assert_eq!(mesh.indices().len(), 54 * 6);
    assert_valid(&mesh);
    for y in 0..3 {
        for x in 0..3 {
            for z in 0..3 {
                let on_boundary = [x, y, z].iter().filter(|&&c| c == 0 || c == 2).count();
                assert_eq!(faces_of(&chunk, x, y, z), on_boundary);
            }
        }
    }
}

#[test]
fn interior_voxel_of_solid_chunk_is_hidden() {
    let chunk = solid_chunk(3, 3);
    assert_eq!(faces_of(&chunk, 1, 1, 1), 0);
    let chunk = solid_chunk(5, 4);
    for y in 1..3 {
        for x in 1..4 {
            for z in 1..4 {
                assert_eq!(faces_of(&chunk, x, y, z), 0);
            }
        }
    }
}

#[test]
fn corner_voxel_shows_its_three_outward_faces() {
    let chunk = solid_chunk(3, 3);
    let mut mesh = MeshBuffer::new();
    generate_face_data(&chunk, 0, 0, 0, &mut mesh);
    // faces -Z, -Y and -X, in face order
    let expected = [
        (0, 0, 0), (0, 1, 0), (1, 0, 0), (1, 1, 0),
        (1, 0, 0), (1, 0, 1), (0, 0, 0), (0, 0, 1),
        (0, 0, 1), (0, 1, 1), (0, 0, 0), (0, 1, 0),
    ];
    assert_eq!(mesh.vertices().as_slice(), &expected[..]);
    assert_eq!(&generate_mesh_data(&chunk).vertices()[..12], &expected[..]);

    let mut mesh = MeshBuffer::new();
    generate_face_data(&chunk, 2, 2, 2, &mut mesh);
    // faces +Z, +Y and +X
    let expected = [
        (3, 2, 3), (3, 3, 3), (2, 2, 3), (2, 3, 3),
        (2, 3, 2), (2, 3, 3), (3, 3, 2), (3, 3, 3),
        (3, 2, 2), (3, 3, 2), (3, 2, 3), (3, 3, 3),
    ];
    assert_eq!(mesh.vertices().as_slice(), &expected[..]);
}

#[test]
fn face_between_two_solid_voxels_is_culled() {
    let chunk = chunk_with(3, 3, &[(1, 1, 1), (2, 1, 1)]);
    let mesh = generate_mesh_data(&chunk);
    assert_eq!(mesh.vertices().len(), 40);
    assert_eq!(mesh.indices().len(), 60);
    assert_eq!(faces_of(&chunk, 1, 1, 1), 5);
    assert_eq!(faces_of(&chunk, 2, 1, 1), 5);
    assert_valid(&mesh);
}

#[test]
fn air_and_outside_voxels_emit_nothing() {
    let chunk = chunk_with(3, 3, &[(1, 1, 1)]);
    assert_eq!(faces_of(&chunk, 0, 1, 1), 0);
    assert_eq!(faces_of(&chunk, 1, 0, 1), 0);
    assert_eq!(faces_of(&chunk, -1, 1, 1), 0);
    assert_eq!(faces_of(&chunk, 3, 3, 3), 0);
    assert_eq!(faces_of(&chunk, i32::MAX, i32::MIN, 0), 0);
}

#[test]
fn face_data_counts_on_from_the_vertices_present() {
    let chunk = chunk_with(2, 1, &[(0, 0, 0), (1, 0, 1)]);
    let mut mesh = MeshBuffer::new();
    generate_face_data(&chunk, 0, 0, 0, &mut mesh);
    assert_eq!(mesh.indices().len(), 36);
    generate_face_data(&chunk, 0, 0, 1, &mut mesh);
    assert_eq!(mesh.indices().len(), 36);
    generate_face_data(&chunk, 1, 0, 1, &mut mesh);
    assert_eq!(mesh.vertices().len(), 48);
    assert_eq!(&mesh.indices()[36..42], &[24u32, 25, 26, 26, 25, 27]);
    assert_eq!(mesh.vertices()[24], (1, 0, 1));
    assert_valid(&mesh);
}

#[test]
fn voxels_are_visited_by_layer_then_row_then_column() {
    let chunk = chunk_with(2, 2, &[(1, 0, 0), (0, 0, 1), (0, 1, 0)]);
    let mesh = generate_mesh_data(&chunk);
    // (0,0,1) comes first, then (1,0,0), then (0,1,0); each starts with its -Z face
    assert_eq!(mesh.vertices().len(), 72);
    assert_eq!(mesh.vertices()[0], (0, 0, 1));
    assert_eq!(mesh.vertices()[24], (1, 0, 0));
    assert_eq!(mesh.vertices()[48], (0, 1, 0));
}

#[test]
fn into_parts_hands_over_the_buffers() {
    let mesh = generate_mesh_data(&solid_chunk(1, 1));
    let (vertices, uvs, indices) = mesh.into_parts();
    assert_eq!(vertices.as_slice(), &CUBE[..]);
    assert_eq!(uvs.len(), 24);
    assert_eq!(uvs[5], (0, 1));
    assert_eq!(indices.len(), 36);
    assert_eq!(indices[35], 23);
}

#[test]
fn meshing_twice_gives_the_same_mesh() {
    let chunk = chunk_with(3, 2, &[(0, 0, 0), (1, 0, 0), (2, 1, 2), (1, 1, 1)]);
    let a = generate_mesh_data(&chunk);
    let b = generate_mesh_data(&chunk);
    assert_eq!(a.vertices(), b.vertices());
    assert_eq!(a.uvs(), b.uvs());
    assert_eq!(a.indices(), b.indices());
}
