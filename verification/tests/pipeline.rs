use std::collections::VecDeque;
use voxel_world::chunk_generator::COLUMNS_PER_CHUNK;
use voxel_world::coords::ChunkCoord;
use voxel_world::events::{
    ChunkDespawnRequest, ChunkGenerateRequest, ChunkLoadRequest, ChunkMeshingEvent,
    ChunkReadyEvent, ChunkRemovedEvent, ChunkSpawnRequest,
};
use voxel_world::lifecycle::ChunkLoadState;
use voxel_world::pipeline::{
    create_chunks, destroy_chunks, generate_chunks, handle_chunk_ready_events, load_chunk_data,
    mesh_chunks_async, prepare_for_unload,
};
use voxel_world::streaming::update_visible_chunks;
use voxel_world::world::VoxelWorld;

fn c(x: i32, z: i32) -> ChunkCoord {
    ChunkCoord::new(x, z)
}

fn handles(queue: &VecDeque<ChunkLoadRequest>) -> Vec<u64> {
    queue.iter().map(|r| r.0).collect()
}

#[test]
fn create_chunks_serves_requests_in_order() {
    let mut world = VoxelWorld::new();
    let requests = vec![
        ChunkSpawnRequest(c(5, 0)),
        ChunkSpawnRequest(c(3, 0)),
        ChunkSpawnRequest(c(5, 0)),
        ChunkSpawnRequest(c(1, 0)),
    ];
    let created = create_chunks(&mut world, &requests);
    assert_eq!(created, vec![0, 1, 2]);
    assert_eq!(world.len(), 3);
    assert_eq!(world.get(c(5, 0)), Some(0));
    assert_eq!(world.get(c(3, 0)), Some(1));
    assert_eq!(world.get(c(1, 0)), Some(2));
}

#[test]
fn generation_queue_is_a_stack() {
    let mut world = VoxelWorld::new();
    let mut queue = VecDeque::new();
    let created = create_chunks(&mut world, &vec![ChunkSpawnRequest(c(9, 9))]);
    load_chunk_data(&world, &created, &mut queue);
    let created = create_chunks(&mut world, &vec![ChunkSpawnRequest(c(8, 8)), ChunkSpawnRequest(c(7, 7))]);
    load_chunk_data(&world, &created, &mut queue);
    assert_eq!(handles(&queue), vec![2, 1, 0]);
}

#[test]
fn load_chunk_data_skips_chunks_that_are_not_requested() {
    let mut world = VoxelWorld::new();
    let mut queue = VecDeque::new();
    let created = create_chunks(&mut world, &vec![ChunkSpawnRequest(c(0, 0)), ChunkSpawnRequest(c(1, 0))]);
    world.despawn_entity(created[0]);
    load_chunk_data(&world, &vec![created[0], created[1], 99], &mut queue);
    assert_eq!(handles(&queue), vec![1]);
}

#[test]
fn nearest_chunk_is_generated_first() {
    let mut world = VoxelWorld::new();
    let mut queue = VecDeque::new();
    let requests =
        vec![ChunkSpawnRequest(c(5, 0)), ChunkSpawnRequest(c(3, 0)), ChunkSpawnRequest(c(1, 0))];
    let created = create_chunks(&mut world, &requests);
    load_chunk_data(&world, &created, &mut queue);
    let mut order = Vec::new();
    for _tick in 0..3 {
        let jobs = generate_chunks(&mut world, &mut queue, 1);
        assert_eq!(jobs.len(), 1);
        order.push(jobs[0].0);
    }
    assert_eq!(order, vec![c(1, 0), c(3, 0), c(5, 0)]);
    assert!(generate_chunks(&mut world, &mut queue, 1).is_empty());
}

#[test]
fn scheduler_order_puts_the_observers_chunk_on_top() {
    let mut world = VoxelWorld::new();
    let mut queue = VecDeque::new();
    let (spawns, _) = update_visible_chunks(0, 0, 4, &world);
    let created = create_chunks(&mut world, &spawns);
    load_chunk_data(&world, &created, &mut queue);
    let jobs = generate_chunks(&mut world, &mut queue, 5);
    let got: Vec<ChunkCoord> = jobs.iter().map(|j| j.0).collect();
    assert_eq!(got, vec![c(0, 0), c(1, 0), c(0, 1), c(0, -1), c(-1, 0)]);
}

#[test]
fn no_more_chunks_begin_to_generate_than_the_budget() {
    let mut world = VoxelWorld::new();
    let mut queue = VecDeque::new();
    let requests: Vec<ChunkSpawnRequest> = (0..10).map(|i| ChunkSpawnRequest(c(i, 0))).collect();
    let created = create_chunks(&mut world, &requests);
    load_chunk_data(&world, &created, &mut queue);
    for (budget, left) in [(3u32, 7usize), (0, 7), (4, 3), (16, 0), (16, 0)] {
        let before: Vec<ChunkLoadState> = (0..10).map(|h| world.state(h).unwrap()).collect();
        let jobs = generate_chunks(&mut world, &mut queue, budget);
        let after: Vec<ChunkLoadState> = (0..10).map(|h| world.state(h).unwrap()).collect();
        let moved = before.iter().zip(after.iter()).filter(|(a, b)| a != b).count();
        assert!(jobs.len() <= budget as usize);
        assert_eq!(moved, jobs.len());
        assert_eq!(queue.len(), left);
        for job in jobs.iter() {
            assert_eq!(world.state(job.1), Some(ChunkLoadState::Generating));
        }
    }
}

#[test]
fn a_request_for_a_chunk_that_left_uses_budget_and_changes_nothing() {
    let mut world = VoxelWorld::new();
    let mut queue = VecDeque::new();
    let created = create_chunks(&mut world, &vec![ChunkSpawnRequest(c(0, 0)), ChunkSpawnRequest(c(1, 0))]);
    load_chunk_data(&world, &created, &mut queue);
    world.despawn_entity(1);
    world.remove(1);
    let jobs = generate_chunks(&mut world, &mut queue, 1);
    assert!(jobs.is_empty());
    assert_eq!(handles(&queue), vec![0]);
    let jobs = generate_chunks(&mut world, &mut queue, 1);
    assert_eq!(jobs, vec![ChunkGenerateRequest(c(0, 0), 0)]);
}

#[test]
fn prepare_for_unload_goes_by_the_handle() {
    let mut world = VoxelWorld::new();
    create_chunks(&mut world, &vec![ChunkSpawnRequest(c(0, 0)), ChunkSpawnRequest(c(1, 0))]);
    prepare_for_unload(&mut world, &vec![ChunkDespawnRequest(c(1, 0), 1), ChunkDespawnRequest(c(7, 7), 55)]);
    assert_eq!(world.state(0), Some(ChunkLoadState::Requested));
    assert_eq!(world.state(1), Some(ChunkLoadState::Unloading));
    assert_eq!(world.len(), 2);
}

#[test]
fn destroy_chunks_sweeps_what_is_marked() {
    let mut world = VoxelWorld::new();
    let requests: Vec<ChunkSpawnRequest> = (0..6).map(|i| ChunkSpawnRequest(c(i, i))).collect();
    create_chunks(&mut world, &requests);
    world.despawn_entity(0);
    world.despawn_entity(3);
    world.despawn_entity(4);
    let gone = destroy_chunks(&mut world);
    assert_eq!(
        gone,
        vec![ChunkRemovedEvent(c(0, 0), 0), ChunkRemovedEvent(c(3, 3), 3), ChunkRemovedEvent(c(4, 4), 4)]
    );
    assert_eq!(world.len(), 3);
    assert_eq!((0..3).map(|i| world.entry_at(i).0).collect::<Vec<u64>>(), vec![1, 2, 5]);
    assert!(!world.contains(c(3, 3)));
    assert!(world.contains(c(5, 5)));
    assert!(destroy_chunks(&mut world).is_empty());
    assert_eq!(world.len(), 3);
}

#[test]
fn meshing_queue_is_first_in_first_out() {
    let mut queue = VecDeque::new();
    handle_chunk_ready_events(&vec![ChunkReadyEvent(c(0, 0), 4), ChunkReadyEvent(c(1, 0), 2)], &mut queue);
    handle_chunk_ready_events(&vec![ChunkReadyEvent(c(2, 0), 9)], &mut queue);
    let order: Vec<u64> = queue.iter().map(|e| e.0).collect();
    assert_eq!(order, vec![9, 2, 4]);
    assert_eq!(queue.pop_back(), Some(ChunkMeshingEvent(4)));
}

#[test]
fn meshing_takes_ready_chunks_within_its_budget() {
    let heights = vec![2i32; COLUMNS_PER_CHUNK];
    let mut world = VoxelWorld::new();
    let mut gen_queue = VecDeque::new();
    let mut mesh_queue = VecDeque::new();
    let requests: Vec<ChunkSpawnRequest> = (0..3).map(|i| ChunkSpawnRequest(c(i, 0))).collect();
    let created = create_chunks(&mut world, &requests);
    load_chunk_data(&world, &created, &mut gen_queue);
    let jobs = generate_chunks(&mut world, &mut gen_queue, 16);
    let mut ready = Vec::new();
    for job in jobs.iter() {
        ready.push(world.complete_generation(job.1, &heights).unwrap());
    }
    assert_eq!(ready[0], ChunkReadyEvent(c(2, 0), 2));
    handle_chunk_ready_events(&ready, &mut mesh_queue);
    // the chunk that became ready first leaves before it is meshed
    world.despawn_entity(2);
    let meshes = mesh_chunks_async(&world, &mut mesh_queue, 2);
    assert_eq!(meshes.len(), 1);
    assert_eq!(meshes[0].0, 1);
    assert_eq!(mesh_queue.len(), 1);
    // base and ground differ, so each side but the far x and z ones shows two strips
    assert!(!meshes[0].1.positions.is_empty());
    assert_eq!(meshes[0].1.positions.len() * 6, meshes[0].1.indices.len() * 4);
    let meshes = mesh_chunks_async(&world, &mut mesh_queue, 2);
    assert_eq!(meshes.len(), 1);
    assert_eq!(meshes[0].0, 0);
    assert!(mesh_chunks_async(&world, &mut mesh_queue, 2).is_empty());
}

#[test]
fn a_whole_tick_round_a_moving_observer() {
    let heights = vec![1i32; COLUMNS_PER_CHUNK];
    let mut world = VoxelWorld::new();
    let mut gen_queue = VecDeque::new();
    for (x, expected_loaded) in [(0, 9), (128 * 3, 10)] {
        let (spawns, despawns) = update_visible_chunks(x, 0, 2, &world);
        let created = create_chunks(&mut world, &spawns);
        load_chunk_data(&world, &created, &mut gen_queue);
        for job in generate_chunks(&mut world, &mut gen_queue, 16) {
            world.complete_generation(job.1, &heights);
        }
        prepare_for_unload(&mut world, &despawns);
        destroy_chunks(&mut world);
        assert_eq!(world.len(), expected_loaded);
    }
    assert!(world.contains(c(3, 0)));
    // the chunk on the circle itself stays
    assert!(world.contains(c(1, 0)));
    assert!(!world.contains(c(1, 1)));
    assert!(!world.contains(c(0, 0)));
}

#[test]
fn meshing_budget_is_half_the_render_distance() {
    assert_eq!(voxel_world::pipeline::meshing_budget(4), 2);
    assert_eq!(voxel_world::pipeline::meshing_budget(5), 2);
    assert_eq!(voxel_world::pipeline::meshing_budget(1), 0);
    assert_eq!(voxel_world::pipeline::meshing_budget(0), 0);
    assert_eq!(voxel_world::pipeline::meshing_budget(-7), 0);
    assert_eq!(voxel_world::pipeline::meshing_budget(i32::MAX), 1073741823);
    assert_eq!(voxel_world::streaming::DEFAULT_CHUNK_RENDER_DISTANCE, 4);
}
