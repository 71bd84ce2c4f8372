use voxel_mesher::chunk::{ChunkError, VoxelChunk};
use voxel_mesher::mesh::generate_mesh_data;
use voxel_mesher::noise::{NoiseField, CAVE_THRESHOLD, NOISE_UNIT};

fn uniform(width: i32, height: i32, surface: i32, cave: i32) -> NoiseField {
    NoiseField::from_samples(
        width,
        height,
        vec![surface; (width * width) as usize],
        vec![cave; (width * width * height) as usize],
    )
    .unwrap()
}

#[test]
fn threshold_is_one_in_fixed_point() {
    assert_eq!(NOISE_UNIT, 1000);
    assert_eq!(CAVE_THRESHOLD, NOISE_UNIT);
}

#[test]
fn surface_height_is_magnitude_plus_half_height() {
    let field = NoiseField::from_samples(2, 8, vec![3, -3, 0, 7], vec![0; 32]).unwrap();
    assert_eq!(field.sample_surface_height(0, 0), 7);
    assert_eq!(field.sample_surface_height(0, 1), 7);
    assert_eq!(field.sample_surface_height(1, 0), 4);
    assert_eq!(field.sample_surface_height(1, 1), 11);
}

#[test]
fn half_height_rounds_down() {
    let field = uniform(1, 7, 0, 0);
    assert_eq!(field.sample_surface_height(0, 0), 3);
    let field = uniform(1, 1, 5, 0);
    assert_eq!(field.sample_surface_height(0, 0), 5);
}

#[test]
fn extreme_samples_do_not_overflow() {
    let field = uniform(1, 2, i32::MIN, i32::MIN);
    assert_eq!(field.sample_surface_height(0, 0), 2_147_483_649);
    assert_eq!(field.sample_cave_density(0, 0, 0), 2_147_483_648);
    let field = uniform(1, 2, i32::MAX, i32::MAX);
    assert_eq!(field.sample_surface_height(0, 0), 2_147_483_648);
    assert_eq!(field.sample_cave_density(0, 1, 0), 2_147_483_647);
}

#[test]
fn cave_density_is_the_magnitude() {
    let mut cave = vec![0; 8];
    cave[5] = -1500; // y = 1, x = 0, z = 1
    cave[2] = 250; // y = 0, x = 1, z = 0
    let field = NoiseField::from_samples(2, 2, vec![0; 4], cave).unwrap();
    assert_eq!(field.sample_cave_density(0, 1, 1), 1500);
    assert_eq!(field.sample_cave_density(1, 0, 0), 250);
    assert_eq!(field.sample_cave_density(0, 0, 0), 0);
}

#[test]
fn outside_the_field_there_is_no_noise() {
    let field = uniform(2, 8, 5, 900);
    assert_eq!(field.sample_surface_height(0, 0), 9);
    assert_eq!(field.sample_surface_height(-1, 0), 4);
    assert_eq!(field.sample_surface_height(0, 2), 4);
    assert_eq!(field.sample_cave_density(0, 0, 0), 900);
    assert_eq!(field.sample_cave_density(0, 8, 0), 0);
    assert_eq!(field.sample_cave_density(2, 0, 0), 0);
    assert_eq!(field.sample_cave_density(0, 0, -1), 0);
}

#[test]
fn field_keeps_its_dimensions() {
    let field = uniform(3, 5, 0, 0);
    assert_eq!(field.width(), 3);
    assert_eq!(field.height(), 5);
}

#[test]
fn from_samples_rejects_bad_input() {
    assert_eq!(
        NoiseField::from_samples(0, 4, Vec::new(), Vec::new()).err(),
        Some(ChunkError::NonPositiveDimension)
    );
    assert_eq!(
        NoiseField::from_samples(4, -4, Vec::new(), Vec::new()).err(),
        Some(ChunkError::NonPositiveDimension)
    );
    assert_eq!(
        NoiseField::from_samples(20_000, 1, Vec::new(), Vec::new()).err(),
        Some(ChunkError::TooLarge)
    );
    assert_eq!(
        NoiseField::from_samples(2, 2, vec![0; 3], vec![0; 8]).err(),
        Some(ChunkError::LengthMismatch)
    );
    assert_eq!(
        NoiseField::from_samples(2, 2, vec![0; 4], vec![0; 9]).err(),
        Some(ChunkError::LengthMismatch)
    );
}

#[test]
fn caves_carve_out_everything_below_the_surface() {
    // surface height 10 everywhere, density 1.5 everywhere
    let field = uniform(4, 16, 2, 1500);
    assert_eq!(field.sample_surface_height(1, 2), 10);
    assert_eq!(field.sample_cave_density(1, 3, 2), 1500);
    let mut chunk = VoxelChunk::new(4, 16).unwrap();
    chunk.populate(&field, CAVE_THRESHOLD);
    for y in 0..16 {
        for x in 0..4 {
            for z in 0..4 {
                assert!(!chunk.is_solid(x, y, z));
            }
        }
    }
    assert_eq!(generate_mesh_data(&chunk).vertices().len(), 0);
}

#[test]
fn terrain_fills_up_to_the_surface() {
    let field = uniform(4, 16, 2, 500);
    let mut chunk = VoxelChunk::new(4, 16).unwrap();
    chunk.populate(&field, CAVE_THRESHOLD);
    for y in 0..16 {
        for x in 0..4 {
            for z in 0..4 {
                assert_eq!(chunk.is_solid(x, y, z), y < 10);
            }
        }
    }
    // a 4 x 10 x 4 block: two 4 x 4 sides and four 4 x 10 sides
    assert_eq!(generate_mesh_data(&chunk).vertices().len(), (2 * 16 + 4 * 40) * 4);
}

#[test]
fn density_at_the_threshold_does_not_carve() {
    let mut chunk = VoxelChunk::new(2, 4).unwrap();
    chunk.populate(&uniform(2, 4, 0, 1000), CAVE_THRESHOLD);
    assert!(chunk.is_solid(0, 0, 0));
    assert!(chunk.is_solid(1, 1, 1));
    assert!(!chunk.is_solid(0, 2, 0));
    chunk.populate(&uniform(2, 4, 0, 1001), CAVE_THRESHOLD);
    assert!(!chunk.is_solid(0, 0, 0));
    assert!(!chunk.is_solid(1, 1, 1));
    chunk.populate(&uniform(2, 4, 0, -1001), CAVE_THRESHOLD);
    assert!(!chunk.is_solid(0, 0, 0));
    chunk.populate(&uniform(2, 4, 0, 1001), 1001);
    assert!(chunk.is_solid(0, 0, 0));
}

#[test]
fn populate_follows_each_sample() {
    // width 2, height 4, base line 2
    let surface = vec![0, 1, -2, 5];
    let mut cave = vec![0; 16];
    cave[0] = 2000; // (0, 0, 0)
    cave[4 + 3] = -1200; // (1, 1, 1)
    let field = NoiseField::from_samples(2, 4, surface, cave).unwrap();
    let mut chunk = VoxelChunk::new(2, 4).unwrap();
    chunk.populate(&field, CAVE_THRESHOLD);
    let heights = [[2, 3], [4, 7]];
    for y in 0..4 {
        for x in 0..2 {
            for z in 0..2 {
                let carved = (x, y, z) == (0, 0, 0) || (x, y, z) == (1, 1, 1);
                let expected = y < heights[x as usize][z as usize] && !carved;
                assert_eq!(chunk.is_solid(x, y, z), expected);
            }
        }
    }
}

#[test]
fn populate_replaces_what_the_chunk_held() {
    let mut chunk = VoxelChunk::from_cells(2, 2, vec![true; 8]).unwrap();
    chunk.populate(&uniform(2, 2, 0, 0), CAVE_THRESHOLD);
    assert!(chunk.is_solid(0, 0, 0));
    assert!(!chunk.is_solid(0, 1, 0));
    assert_eq!(chunk.width(), 2);
    assert_eq!(chunk.height(), 2);
}

#[test]
fn field_of_other_dimensions_reads_as_flat_outside() {
    // the field covers a 1 x 2 x 1 corner; its base line is 1
    let field = NoiseField::from_samples(1, 2, vec![3], vec![5000, 0]).unwrap();
    let mut chunk = VoxelChunk::new(2, 6).unwrap();
    chunk.populate(&field, CAVE_THRESHOLD);
    for y in 0..6 {
        for x in 0..2 {
            for z in 0..2 {
                let expected = if (x, z) == (0, 0) { y < 4 && y != 0 } else { y < 1 };
                assert_eq!(chunk.is_solid(x, y, z), expected);
            }
        }
    }
}

#[test]
fn same_field_gives_the_same_mesh() {
    let surface: Vec<i32> = (0..16).map(|i| (i * 7) % 5 - 2).collect();
    let cave: Vec<i32> = (0..128).map(|i| (i * 37) % 1400 - 700).collect();
    let field = NoiseField::from_samples(4, 8, surface, cave).unwrap();
    let mut a = VoxelChunk::new(4, 8).unwrap();
    let mut b = VoxelChunk::from_cells(4, 8, vec![true; 128]).unwrap();
    a.populate(&field, CAVE_THRESHOLD);
    b.populate(&field, CAVE_THRESHOLD);
    for y in 0..8 {
        for x in 0..4 {
            for z in 0..4 {
                assert_eq!(a.is_solid(x, y, z), b.is_solid(x, y, z));
            }
        }
    }
    let (ma, mb) = (generate_mesh_data(&a), generate_mesh_data(&b));
    assert!(!ma.vertices().is_empty());
    assert_eq!(ma.vertices(), mb.vertices());
    assert_eq!(ma.uvs(), mb.uvs());
    assert_eq!(ma.indices(), mb.indices());
}
