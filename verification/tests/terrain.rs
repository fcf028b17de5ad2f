use voxel_world::chunk::Chunk;
use voxel_world::chunk_generator::{block_height, generate_chunk, COLUMNS_PER_CHUNK};
use voxel_world::coords::ChunkCoord;
use voxel_world::voxel::Voxel;

const BASE: [u8; 4] = [194, 178, 128, 255];
const GROUND: [u8; 4] = [99, 146, 103, 255];
const EMPTY: [u8; 4] = [0, 0, 0, 0];

fn at(chunk: &Chunk, x: i32, y: i32, z: i32) -> [u8; 4] {
    chunk.voxel_at([x, y, z]).unwrap().attributes
}

#[test]
fn new_chunk_is_empty_everywhere() {
    let chunk = Chunk::new(ChunkCoord::new(3, -7));
    assert_eq!(chunk.pos(), ChunkCoord::new(3, -7));
    assert_eq!(at(&chunk, -1, -1, -1), EMPTY);
    assert_eq!(at(&chunk, 0, 0, 0), EMPTY);
    assert_eq!(at(&chunk, 128, 128, 128), EMPTY);
    assert_eq!(chunk.voxel_at([129, 0, 0]), None);
    assert_eq!(chunk.voxel_at([0, -2, 0]), None);
}

#[test]
fn block_height_clamps_to_the_chunk() {
    assert_eq!(block_height(-5), 0);
    assert_eq!(block_height(0), 0);
    assert_eq!(block_height(64), 64);
    assert_eq!(block_height(127), 127);
    assert_eq!(block_height(128), 127);
    assert_eq!(block_height(i32::MAX), 127);
    assert_eq!(block_height(i32::MIN), 0);
}

#[test]
fn fill_span_sets_the_box_and_nothing_else() {
    let mut chunk = Chunk::new(ChunkCoord::new(0, 0));
    chunk.fill_span([2, 3, 4], [5, 3, 6], Voxel::new([9, 8, 7, 6]));
    assert_eq!(at(&chunk, 2, 3, 4), [9, 8, 7, 6]);
    assert_eq!(at(&chunk, 5, 3, 6), [9, 8, 7, 6]);
    assert_eq!(at(&chunk, 3, 3, 5), [9, 8, 7, 6]);
    assert_eq!(at(&chunk, 1, 3, 4), EMPTY);
    assert_eq!(at(&chunk, 6, 3, 6), EMPTY);
    assert_eq!(at(&chunk, 3, 2, 5), EMPTY);
    assert_eq!(at(&chunk, 3, 4, 5), EMPTY);
    assert_eq!(at(&chunk, 3, 3, 7), EMPTY);
}

#[test]
fn fill_span_with_corners_out_of_order_changes_nothing() {
    let mut chunk = Chunk::new(ChunkCoord::new(0, 0));
    chunk.fill_span([4, 1, 4], [4, 0, 4], Voxel::new([1, 1, 1, 1]));
    assert_eq!(at(&chunk, 4, 0, 4), EMPTY);
    assert_eq!(at(&chunk, 4, 1, 4), EMPTY);
}

#[test]
fn generated_columns_follow_their_heights() {
    let mut heights = vec![0i32; COLUMNS_PER_CHUNK];
    heights[0] = 5;
    heights[3 * 128 + 7] = 2;
    heights[127 * 128 + 127] = 1000;
    heights[128 + 1] = -40;
    let mut chunk = Chunk::new(ChunkCoord::new(1, 1));
    generate_chunk(&mut chunk, &heights);
    assert_eq!(chunk.pos(), ChunkCoord::new(1, 1));
    // column (0, 0): ground from 1 to 5
    assert_eq!(at(&chunk, 0, 0, 0), BASE);
    assert_eq!(at(&chunk, 0, 1, 0), GROUND);
    assert_eq!(at(&chunk, 0, 5, 0), GROUND);
    assert_eq!(at(&chunk, 0, 6, 0), EMPTY);
    // column (7, 3): ground from 1 to 2
    assert_eq!(at(&chunk, 7, 2, 3), GROUND);
    assert_eq!(at(&chunk, 7, 3, 3), EMPTY);
    assert_eq!(at(&chunk, 3, 1, 7), EMPTY);
    // column (127, 127): clamped to the top of the chunk
    assert_eq!(at(&chunk, 127, 127, 127), GROUND);
    assert_eq!(at(&chunk, 127, 128, 127), EMPTY);
    // column (1, 1): a height below the chunk leaves the base only
    assert_eq!(at(&chunk, 1, 0, 1), BASE);
    assert_eq!(at(&chunk, 1, 1, 1), EMPTY);
}

#[test]
fn base_layer_reaches_one_cell_past_the_far_edges() {
    let heights = vec![3i32; COLUMNS_PER_CHUNK];
    let mut chunk = Chunk::new(ChunkCoord::new(0, 0));
    generate_chunk(&mut chunk, &heights);
    assert_eq!(at(&chunk, 128, 0, 128), BASE);
    assert_eq!(at(&chunk, 128, 0, 0), BASE);
    assert_eq!(at(&chunk, 0, 0, 128), BASE);
    assert_eq!(at(&chunk, -1, 0, 0), EMPTY);
    assert_eq!(at(&chunk, 0, 0, -1), EMPTY);
    assert_eq!(at(&chunk, 128, 1, 128), EMPTY);
    assert_eq!(at(&chunk, 0, -1, 0), EMPTY);
}

#[test]
fn generating_twice_gives_the_same_grid() {
    let mut heights = vec![0i32; COLUMNS_PER_CHUNK];
    for (i, h) in heights.iter_mut().enumerate() {
        *h = ((i * 37) % 150) as i32 - 10;
    }
    let mut first = Chunk::new(ChunkCoord::new(2, 5));
    let mut second = Chunk::new(ChunkCoord::new(2, 5));
    generate_chunk(&mut first, &heights);
    generate_chunk(&mut second, &heights);
    assert!(first.block_data() == second.block_data());
}

fn noise_heights(pos: ChunkCoord) -> Vec<i32> {
    let origin = voxel_world::coords::get_global_chunk_coordinates(pos);
    let (noise, _, _) = simdnoise::NoiseBuilder::fbm_2d_offset(origin[0] as f32, 128, origin[2] as f32, 128)
        .with_seed(voxel_world::chunk_generator::LEVEL_SEED)
        .with_octaves(5)
        .with_freq(0.02)
        .generate();
    noise.iter().map(|n| ((n + 1.0) / 2.0 * 100.0 + 50.0).round() as i32).collect()
}

#[test]
fn one_coordinate_gives_one_terrain() {
    let pos = ChunkCoord::new(-4, 9);
    let first_heights = noise_heights(pos);
    let second_heights = noise_heights(pos);
    assert_eq!(first_heights.len(), COLUMNS_PER_CHUNK);
    assert_eq!(first_heights, second_heights);
    let mut first = Chunk::new(pos);
    let mut second = Chunk::new(pos);
    generate_chunk(&mut first, &first_heights);
    generate_chunk(&mut second, &second_heights);
    assert!(first.block_data() == second.block_data());
    for h in first_heights.iter() {
        let top = block_height(*h);
        assert!((0..=127).contains(&top));
    }
}

#[test]
fn height_band_lies_round_the_ground_level() {
    use_constants();
}

fn use_constants() {
    assert_eq!(voxel_world::chunk_generator::GROUND_LEVEL, 100);
    assert_eq!(voxel_world::chunk_generator::NOISE_MIN, 50);
    assert_eq!(voxel_world::chunk_generator::NOISE_MAX, 150);
    assert_eq!(voxel_world::CHUNK_SIZE_X * voxel_world::CHUNK_SIZE_Z, COLUMNS_PER_CHUNK as i32);
    assert_eq!(voxel_world::MAX_CHUNKS_GEN_PER_FRAME, 16);
    assert_eq!(voxel_world::WORLD_RESOLUTION, 128);
}
