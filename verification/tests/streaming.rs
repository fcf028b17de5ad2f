use voxel_world::coords::{chunk_extent, get_chunk_indices, get_global_chunk_coordinates, ChunkCoord};
use voxel_world::events::{ChunkDespawnRequest, ChunkSpawnRequest};
use voxel_world::streaming::{
    comes_before, despawn_requests, is_desired, is_unwanted, spawn_requests, update_visible_chunks,
};
use voxel_world::world::VoxelWorld;

fn c(x: i32, z: i32) -> ChunkCoord {
    ChunkCoord::new(x, z)
}

fn coords(requests: &[ChunkSpawnRequest]) -> Vec<(i32, i32)> {
    requests.iter().map(|r| (r.0.x, r.0.z)).collect()
}

#[test]
fn chunk_indices_use_floor_division() {
    assert_eq!(get_chunk_indices(0, 0), c(0, 0));
    assert_eq!(get_chunk_indices(127, 128), c(0, 1));
    assert_eq!(get_chunk_indices(-1, -128), c(-1, -1));
    assert_eq!(get_chunk_indices(-129, 255), c(-2, 1));
    assert_eq!(get_chunk_indices(i32::MIN, i32::MAX), c(-16777216, 16777215));
}

#[test]
fn chunk_origin_is_its_index_times_its_size() {
    assert_eq!(get_global_chunk_coordinates(c(0, 0)), [0, 0, 0]);
    assert_eq!(get_global_chunk_coordinates(c(3, -2)), [384, 0, -256]);
    assert_eq!(get_global_chunk_coordinates(c(i32::MAX, i32::MIN)), [274877906816, 0, -274877906944]);
}

#[test]
fn chunk_extent_and_its_padding() {
    let extent = chunk_extent();
    assert_eq!(extent.minimum, [0, 0, 0]);
    assert_eq!(extent.shape, [128, 128, 128]);
    let padded = extent.padded(1);
    assert_eq!(padded.minimum, [-1, -1, -1]);
    assert_eq!(padded.shape, [130, 130, 130]);
}

#[test]
fn squared_distance_is_exact_at_the_extremes() {
    assert_eq!(c(0, 0).distance_squared(&c(3, 4)), 25);
    assert_eq!(c(-2, 5).distance_squared(&c(-2, 5)), 0);
    let far = c(i32::MIN, i32::MIN).distance_squared(&c(i32::MAX, i32::MAX));
    assert_eq!(far, 2 * (u32::MAX as u128) * (u32::MAX as u128));
}

#[test]
fn desired_set_is_the_open_disc() {
    for radius in 0..7 {
        let world = VoxelWorld::new();
        let requests = spawn_requests(c(0, 0), radius, &world);
        let mut expected = Vec::new();
        for dx in -radius..=radius {
            for dz in -radius..=radius {
                if dx * dx + dz * dz < radius * radius {
                    expected.push((dx, dz));
                }
            }
        }
        let mut got = coords(&requests);
        got.sort();
        expected.sort();
        assert_eq!(got, expected);
    }
}

#[test]
fn boundary_of_the_circle_is_left_out() {
    let world = VoxelWorld::new();
    let got = coords(&spawn_requests(c(0, 0), 5, &world));
    assert!(!got.contains(&(5, 0)));
    assert!(!got.contains(&(0, -5)));
    assert!(!got.contains(&(3, 4)));
    assert!(!got.contains(&(-4, 3)));
    assert!(got.contains(&(4, 2)));
    assert!(got.contains(&(3, 3)));
    assert!(!is_desired(&c(0, 0), 5, &c(3, 4)));
    assert!(is_desired(&c(0, 0), 5, &c(4, 2)));
}

#[test]
fn radius_one_wants_the_observers_chunk_only() {
    let world = VoxelWorld::new();
    assert_eq!(coords(&spawn_requests(c(7, -3), 1, &world)), vec![(7, -3)]);
}

#[test]
fn radius_of_zero_or_less_wants_nothing() {
    let world = VoxelWorld::new();
    assert!(spawn_requests(c(0, 0), 0, &world).is_empty());
    assert!(spawn_requests(c(0, 0), -3, &world).is_empty());
    assert!(spawn_requests(c(0, 0), i32::MIN, &world).is_empty());
}

#[test]
fn spawn_requests_run_from_far_to_near() {
    let world = VoxelWorld::new();
    let center = c(10, -10);
    let requests = spawn_requests(center, 4, &world);
    let distances: Vec<u128> = requests.iter().map(|r| r.0.distance_squared(&center)).collect();
    for pair in distances.windows(2) {
        assert!(pair[0] >= pair[1]);
    }
    assert_eq!(*distances.last().unwrap(), 0);
    assert_eq!(distances[0], 13);
    assert_eq!(requests.last().unwrap().0, center);
}

#[test]
fn radius_two_gives_the_exact_order() {
    let world = VoxelWorld::new();
    assert_eq!(
        coords(&spawn_requests(c(0, 0), 2, &world)),
        vec![(-1, -1), (-1, 1), (1, -1), (1, 1), (-1, 0), (0, -1), (0, 1), (1, 0), (0, 0)]
    );
}

#[test]
fn equally_far_requests_keep_the_order_of_the_scan() {
    let center = c(0, 0);
    assert!(comes_before(&center, &c(-1, 0), &c(0, -1)));
    assert!(comes_before(&center, &c(0, -1), &c(0, 1)));
    assert!(!comes_before(&center, &c(1, 0), &c(0, 1)));
    assert!(comes_before(&center, &c(2, 0), &c(-1, -1)));
    assert!(!comes_before(&center, &c(1, 1), &c(1, 1)));
}

#[test]
fn loaded_coordinates_are_not_asked_for_again() {
    let mut world = VoxelWorld::new();
    world.spawn(c(0, 0));
    world.spawn(c(1, 0));
    let got = coords(&spawn_requests(c(0, 0), 2, &world));
    assert_eq!(got, vec![(-1, -1), (-1, 1), (1, -1), (1, 1), (-1, 0), (0, -1), (0, 1)]);
}

#[test]
fn coordinates_past_the_edge_of_the_world_are_skipped() {
    let world = VoxelWorld::new();
    let got = coords(&spawn_requests(c(i32::MAX, i32::MIN), 2, &world));
    assert_eq!(
        got,
        vec![(i32::MAX - 1, i32::MIN + 1), (i32::MAX - 1, i32::MIN), (i32::MAX, i32::MIN + 1), (i32::MAX, i32::MIN)]
    );
}

#[test]
fn chunks_strictly_outside_the_circle_are_asked_to_leave() {
    let mut world = VoxelWorld::new();
    let far = world.spawn(c(5, 0)).unwrap();
    let on = world.spawn(c(3, 4)).unwrap();
    let _near = world.spawn(c(1, 1)).unwrap();
    let farther = world.spawn(c(-4, -4)).unwrap();
    let requests = despawn_requests(c(0, 0), 5, &world);
    assert_eq!(requests, vec![ChunkDespawnRequest(c(-4, -4), farther)]);
    let requests = despawn_requests(c(0, 0), 4, &world);
    assert_eq!(
        requests,
        vec![
            ChunkDespawnRequest(c(5, 0), far),
            ChunkDespawnRequest(c(3, 4), on),
            ChunkDespawnRequest(c(-4, -4), farther)
        ]
    );
    assert!(!is_unwanted(&c(0, 0), 5, &c(3, 4)));
    assert!(is_unwanted(&c(0, 0), 5, &c(4, 4)));
    assert!(is_unwanted(&c(0, 0), -1, &c(1, 1)));
    assert!(!is_unwanted(&c(0, 0), -1, &c(1, 0)));
}

#[test]
fn a_chunk_on_the_circle_is_neither_asked_for_nor_asked_to_leave() {
    let mut world = VoxelWorld::new();
    world.spawn(c(3, 0)).unwrap();
    let (spawns, despawns) = update_visible_chunks(0, 0, 3, &world);
    assert!(!coords(&spawns).contains(&(3, 0)));
    assert!(despawns.is_empty());
    let empty = VoxelWorld::new();
    let (spawns, _) = update_visible_chunks(0, 0, 3, &empty);
    assert!(!coords(&spawns).contains(&(3, 0)));
}

#[test]
fn the_observers_position_is_floored_to_its_chunk() {
    let mut world = VoxelWorld::new();
    let a = world.spawn(c(0, 0)).unwrap();
    let (spawns, despawns) = update_visible_chunks(-1, 300, 1, &world);
    assert_eq!(coords(&spawns), vec![(-1, 2)]);
    assert_eq!(despawns, vec![ChunkDespawnRequest(c(0, 0), a)]);
}
