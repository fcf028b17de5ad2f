//! The phases of a tick: from the scheduler's requests to chunks, from chunks to
//! the generation queue, from there to terrain, and from terrain to meshes.
use vstd::prelude::*;
use std::collections::VecDeque;
use crate::events::{
    ChunkDespawnRequest, ChunkGenerateRequest, ChunkLoadRequest, ChunkMeshingEvent,
    ChunkReadyEvent, ChunkRemovedEvent, ChunkSpawnRequest,
};
use crate::lifecycle::ChunkLoadState;
use crate::mesh::{mesh_chunk, mesh_of, quads_fit, ChunkMesh, MeshView};
use crate::quads::greedy_quads_result;
use crate::world::{
    lemma_advance_is_not_before, lemma_not_before_transitive, lemma_slot_of, ChunkHandle,
    ChunkRecord, VoxelWorld, WorldView,
};

verus! {

/// The registry after the spawn requests are served in their order.
pub open spec fn spawned_all(v: WorldView, requests: Seq<ChunkSpawnRequest>) -> WorldView
    decreases requests.len(),
{
    if requests.len() == 0 {
        v
    } else {
        spawned_all(v, requests.drop_last()).spawned(requests.last().0)
    }
}

/// The handles of the chunks that serving the spawn requests creates, in the order
/// of the requests.
pub open spec fn created(v: WorldView, requests: Seq<ChunkSpawnRequest>) -> Seq<ChunkHandle>
    decreases requests.len(),
{
    if requests.len() == 0 {
        Seq::empty()
    } else {
        let so_far = spawned_all(v, requests.drop_last());
        if so_far.can_spawn(requests.last().0) {
            created(v, requests.drop_last()).push(so_far.issued as u64)
        } else {
            created(v, requests.drop_last())
        }
    }
}

/// Serves the spawn requests in their order: each spawns a chunk unless one is
/// loaded at its coordinate already. The handles of the new chunks come back.
pub fn create_chunks(world: &mut VoxelWorld, spawn_events: &Vec<ChunkSpawnRequest>) -> (handles: Vec<
    ChunkHandle,
>)
    requires
        old(world).wf(),
    ensures
        final(world).wf(),
        final(world)@ == spawned_all(old(world)@, spawn_events@),
        handles@ == created(old(world)@, spawn_events@),
        old(world)@.not_before(final(world)@),
{
    let mut handles: Vec<ChunkHandle> = Vec::new();
    let mut i: usize = 0;
    assert(spawn_events@.take(0) =~= Seq::empty());
    while i < spawn_events.len()
        invariant
            0 <= i <= spawn_events.len(),
            world.wf(),
            world@ == spawned_all(old(world)@, spawn_events@.take(i as int)),
            handles@ == created(old(world)@, spawn_events@.take(i as int)),
            old(world)@.not_before(world@),
        decreases spawn_events.len() - i,
    {
        let ghost before = world@;
        assert(spawn_events@.take(i + 1).drop_last() =~= spawn_events@.take(i as int));
        assert(spawn_events@.take(i + 1).last() == spawn_events@[i as int]);
        match world.spawn(spawn_events[i].0) {
            Some(h) => {
                handles.push(h);
            },
            None => {},
        }
        proof {
            lemma_advance_is_not_before(before, world@);
            lemma_not_before_transitive(old(world)@, before, world@);
        }
        i = i + 1;
    }
    assert(spawn_events@.take(spawn_events.len() as int) =~= spawn_events@);
    handles
}

/// The generation queue after the chunks with the handles given, those of them that
/// are `Requested`, are put on its top in their order: the last one ends on top.
pub open spec fn queued(v: WorldView, handles: Seq<ChunkHandle>, queue: Seq<ChunkLoadRequest>) -> Seq<
    ChunkLoadRequest,
>
    decreases handles.len(),
{
    if handles.len() == 0 {
        queue
    } else {
        let below = queued(v, handles.drop_last(), queue);
        if v.is_in(handles.last(), ChunkLoadState::Requested) {
            seq![ChunkLoadRequest(handles.last())] + below
        } else {
            below
        }
    }
}

/// The generation queue is a stack: the chunk that is put on it last, which the
/// scheduler's order makes the nearest, is the first that generation takes off.
pub proof fn lemma_last_queued_is_first(
    v: WorldView,
    handles: Seq<ChunkHandle>,
    queue: Seq<ChunkLoadRequest>,
)
    requires
        handles.len() > 0,
        v.is_in(handles.last(), ChunkLoadState::Requested),
    ensures
        queued(v, handles, queue).len() > 0,
        queued(v, handles, queue)[0] == ChunkLoadRequest(handles.last()),
        queued(v, handles, queue).take(1) == seq![ChunkLoadRequest(handles.last())],
{
    let q = queued(v, handles, queue);
    assert(q =~= seq![ChunkLoadRequest(handles.last())] + queued(v, handles.drop_last(), queue));
    assert(q.take(1) =~= seq![ChunkLoadRequest(handles.last())]);
}

/// Chunks that are on the generation queue already stay below those put on later,
/// in the order they had.
pub proof fn lemma_queued_keeps_the_rest(
    v: WorldView,
    handles: Seq<ChunkHandle>,
    queue: Seq<ChunkLoadRequest>,
)
    ensures
        queued(v, handles, queue).len() >= queue.len(),
        queued(v, handles, queue).skip(queued(v, handles, queue).len() - queue.len()) == queue,
    decreases handles.len(),
{
    let q = queued(v, handles, queue);
    if handles.len() == 0 {
        assert(q.skip(0) =~= queue);
    } else {
        lemma_queued_keeps_the_rest(v, handles.drop_last(), queue);
        let below = queued(v, handles.drop_last(), queue);
        if v.is_in(handles.last(), ChunkLoadState::Requested) {
            assert(q =~= seq![ChunkLoadRequest(handles.last())] + below);
            assert(q.skip(q.len() - queue.len()) =~= below.skip(below.len() - queue.len()));
        }
    }
}

/// Puts the newly created chunks on top of the generation queue, in their order, so
/// that the one created last is generated first.
pub fn load_chunk_data(
    world: &VoxelWorld,
    created: &Vec<ChunkHandle>,
    gen_requests: &mut VecDeque<ChunkLoadRequest>,
)
    requires
        world.wf(),
    ensures
        final(gen_requests)@ == queued(world@, created@, old(gen_requests)@),
{
    let mut i: usize = 0;
    assert(created@.take(0) =~= Seq::empty());
    while i < created.len()
        invariant
            0 <= i <= created.len(),
            world.wf(),
            gen_requests@ == queued(world@, created@.take(i as int), old(gen_requests)@),
        decreases created.len() - i,
    {
        assert(created@.take(i + 1).drop_last() =~= created@.take(i as int));
        assert(created@.take(i + 1).last() == created@[i as int]);
        let handle = created[i];
        match world.state(handle) {
            Some(ChunkLoadState::Requested) => {
                gen_requests.push_front(ChunkLoadRequest(handle));
            },
            _ => {},
        }
        i = i + 1;
    }
    assert(created@.take(created.len() as int) =~= created@);
}

/// The registry after the despawn requests are served in their order.
pub open spec fn despawned_all(v: WorldView, requests: Seq<ChunkDespawnRequest>) -> WorldView
    decreases requests.len(),
{
    if requests.len() == 0 {
        v
    } else {
        despawned_all(v, requests.drop_last()).despawned(requests.last().1)
    }
}

/// Serves the despawn requests: the chunk that each names by its handle is marked to
/// leave. A request for a chunk that is no longer loaded changes nothing.
pub fn prepare_for_unload(world: &mut VoxelWorld, despawn_events: &Vec<ChunkDespawnRequest>)
    requires
        old(world).wf(),
    ensures
        final(world).wf(),
        final(world)@ == despawned_all(old(world)@, despawn_events@),
        old(world)@.not_before(final(world)@),
{
    let mut i: usize = 0;
    assert(despawn_events@.take(0) =~= Seq::empty());
    while i < despawn_events.len()
        invariant
            0 <= i <= despawn_events.len(),
            world.wf(),
            world@ == despawned_all(old(world)@, despawn_events@.take(i as int)),
            old(world)@.not_before(world@),
        decreases despawn_events.len() - i,
    {
        let ghost before = world@;
        assert(despawn_events@.take(i + 1).drop_last() =~= despawn_events@.take(i as int));
        assert(despawn_events@.take(i + 1).last() == despawn_events@[i as int]);
        world.despawn_entity(despawn_events[i].1);
        proof {
            lemma_advance_is_not_before(before, world@);
            lemma_not_before_transitive(old(world)@, before, world@);
        }
        i = i + 1;
    }
    assert(despawn_events@.take(despawn_events.len() as int) =~= despawn_events@);
}

/// The meshing queue after the chunks that the events announce are put in at its
/// front, in the order of the events.
pub open spec fn announced(events: Seq<ChunkReadyEvent>, queue: Seq<ChunkMeshingEvent>) -> Seq<
    ChunkMeshingEvent,
>
    decreases events.len(),
{
    if events.len() == 0 {
        queue
    } else {
        seq![ChunkMeshingEvent(events.last().1)] + announced(events.drop_last(), queue)
    }
}

/// The meshing queue is first in, first out: what was in the queue stays at its
/// back, where chunks are taken off, in the order it had, and of the chunks that
/// are announced together the one announced first stands nearest the back.
pub proof fn lemma_announced_is_fifo(events: Seq<ChunkReadyEvent>, queue: Seq<ChunkMeshingEvent>)
    ensures
        announced(events, queue).len() == events.len() + queue.len(),
        forall|i: int|
            0 <= i < queue.len() ==> #[trigger] announced(events, queue)[events.len() + i]
                == queue[i],
        forall|i: int|
            0 <= i < events.len() ==> #[trigger] announced(events, queue)[events.len() - 1 - i]
                == ChunkMeshingEvent(events[i].1),
    decreases events.len(),
{
    if events.len() > 0 {
        lemma_announced_is_fifo(events.drop_last(), queue);
        let rest = announced(events.drop_last(), queue);
        let all = announced(events, queue);
        assert(all =~= seq![ChunkMeshingEvent(events.last().1)] + rest);
        assert forall|i: int| 0 <= i < queue.len() implies #[trigger] all[events.len() + i]
            == queue[i] by {
            assert(all[events.len() + i] == rest[events.len() - 1 + i]);
        }
        assert forall|i: int| 0 <= i < events.len() implies #[trigger] all[events.len() - 1 - i]
            == ChunkMeshingEvent(events[i].1) by {
            if i < events.len() - 1 {
                assert(all[events.len() - 1 - i] == rest[events.len() - 2 - i]);
                assert(events.drop_last()[i] == events[i]);
            }
        }
    }
}

/// Puts the chunks whose terrain is laid into the meshing queue. They go in at the
/// front and are taken out at the back: first in, first out.
pub fn handle_chunk_ready_events(
    ready_events: &Vec<ChunkReadyEvent>,
    meshing_events: &mut VecDeque<ChunkMeshingEvent>,
)
    ensures
        final(meshing_events)@ == announced(ready_events@, old(meshing_events)@),
{
    let mut i: usize = 0;
    assert(ready_events@.take(0) =~= Seq::empty());
    while i < ready_events.len()
        invariant
            0 <= i <= ready_events.len(),
            meshing_events@ == announced(ready_events@.take(i as int), old(meshing_events)@),
        decreases ready_events.len() - i,
    {
        assert(ready_events@.take(i + 1).drop_last() =~= ready_events@.take(i as int));
        assert(ready_events@.take(i + 1).last() == ready_events@[i as int]);
        meshing_events.push_front(ChunkMeshingEvent(ready_events[i].1));
        i = i + 1;
    }
    assert(ready_events@.take(ready_events.len() as int) =~= ready_events@);
}

/// The registry after the chunks that the requests name are taken up for
/// generation, in the order of the requests.
pub open spec fn begun_all(v: WorldView, requests: Seq<ChunkLoadRequest>) -> WorldView
    decreases requests.len(),
{
    if requests.len() == 0 {
        v
    } else {
        begun_all(v, requests.drop_last()).begun(requests.last().0)
    }
}

/// The chunks that taking up the requests sets to generating, in the order of the
/// requests: one for each request that names a chunk which is `Requested` when its
/// turn comes.
pub open spec fn generation_jobs(v: WorldView, requests: Seq<ChunkLoadRequest>) -> Seq<
    ChunkGenerateRequest,
>
    decreases requests.len(),
{
    if requests.len() == 0 {
        Seq::empty()
    } else {
        let so_far = begun_all(v, requests.drop_last());
        let handle = requests.last().0;
        if so_far.is_in(handle, ChunkLoadState::Requested) {
            generation_jobs(v, requests.drop_last()).push(
                ChunkGenerateRequest(so_far.record(handle)->0.pos, handle),
            )
        } else {
            generation_jobs(v, requests.drop_last())
        }
    }
}

/// No more chunks are set to generating than requests are taken up.
pub proof fn lemma_jobs_within_requests(v: WorldView, requests: Seq<ChunkLoadRequest>)
    ensures
        generation_jobs(v, requests).len() <= requests.len(),
    decreases requests.len(),
{
    if requests.len() > 0 {
        lemma_jobs_within_requests(v, requests.drop_last());
    }
}

/// The number of entries that one tick takes off a queue of `len` entries.
pub open spec fn taken(len: nat, budget: u32) -> nat {
    if len <= budget {
        len
    } else {
        budget as nat
    }
}

/// Takes up to `budget` requests off the top of the generation queue. Each `Requested`
/// chunk among them becomes `Generating`, and a request for its heights comes back;
/// a request for a chunk that has left, or that is in another state, is dropped.
/// So no more than `budget` chunks begin to generate in one tick, and the chunks
/// put on the queue last are served first.
pub fn generate_chunks(
    world: &mut VoxelWorld,
    gen_requests: &mut VecDeque<ChunkLoadRequest>,
    budget: u32,
) -> (jobs: Vec<ChunkGenerateRequest>)
    requires
        old(world).wf(),
    ensures
        final(world).wf(),
        final(gen_requests)@ == old(gen_requests)@.skip(
            taken(old(gen_requests)@.len(), budget) as int,
        ),
        final(world)@ == begun_all(
            old(world)@,
            old(gen_requests)@.take(taken(old(gen_requests)@.len(), budget) as int),
        ),
        jobs@ == generation_jobs(
            old(world)@,
            old(gen_requests)@.take(taken(old(gen_requests)@.len(), budget) as int),
        ),
        jobs@.len() <= budget,
        old(world)@.not_before(final(world)@),
{
    let ghost queue = gen_requests@;
    let ghost start = world@;
    let mut jobs: Vec<ChunkGenerateRequest> = Vec::new();
    let mut n: u32 = 0;
    assert(queue.take(0) =~= Seq::empty());
    assert(queue.skip(0) =~= queue);
    while n < budget && gen_requests.len() > 0
        invariant
            0 <= n <= budget,
            n <= queue.len(),
            world.wf(),
            gen_requests@ == queue.skip(n as int),
            world@ == begun_all(start, queue.take(n as int)),
            jobs@ == generation_jobs(start, queue.take(n as int)),
            start.not_before(world@),
        decreases budget - n,
    {
        let ghost before = world@;
        assert(queue.take(n + 1).drop_last() =~= queue.take(n as int));
        assert(queue.take(n + 1).last() == queue[n as int]);
        assert(queue.skip(n as int)[0] == queue[n as int]);
        assert(queue.skip(n as int).subrange(1, queue.skip(n as int).len() as int) =~= queue.skip(
            n + 1,
        ));
        match gen_requests.pop_front() {
            Some(request) => {
                match world.begin_generation(request.0) {
                    Some(pos) => {
                        jobs.push(ChunkGenerateRequest(pos, request.0));
                    },
                    None => {},
                }
            },
            None => {},
        }
        proof {
            lemma_advance_is_not_before(before, world@);
            lemma_not_before_transitive(start, before, world@);
        }
        n = n + 1;
    }
    proof {
        assert(n == taken(queue.len(), budget));
        lemma_jobs_within_requests(start, queue.take(n as int));
    }
    jobs
}

/// The number of chunks that one tick meshes at most: half the render distance,
/// rounded down, and none for a render distance below two.
pub fn meshing_budget(chunk_render_distance: i32) -> (budget: u32)
    ensures
        budget == if chunk_render_distance >= 2 {
            chunk_render_distance as int / 2
        } else {
            0
        },
{
    if chunk_render_distance >= 2 {
        (chunk_render_distance / 2) as u32
    } else {
        0
    }
}

/// The entries that `count` takes off the back of a queue, in the order in which
/// they leave.
pub open spec fn taken_from_back(queue: Seq<ChunkMeshingEvent>, count: int) -> Seq<
    ChunkMeshingEvent,
> {
    Seq::new(count as nat, |i: int| queue[queue.len() - 1 - i])
}

/// Whether a mesh is built for the chunk with the handle `handle`: the chunk is
/// loaded and `Ready`, and the mesher's quads for it fit a chunk.
pub open spec fn is_meshed(v: WorldView, handle: ChunkHandle) -> bool {
    v.is_in(handle, ChunkLoadState::Ready) && quads_fit(
        greedy_quads_result(v.record(handle)->0.cells),
    )
}

/// The mesh of the chunk with the handle `handle`.
pub open spec fn mesh_for(v: WorldView, handle: ChunkHandle) -> MeshView {
    mesh_of(v.record(handle)->0.cells, greedy_quads_result(v.record(handle)->0.cells))
}

/// The handles of the chunks for which the events given lead to a mesh, in the order
/// of the events.
pub open spec fn meshed_handles(v: WorldView, events: Seq<ChunkMeshingEvent>) -> Seq<ChunkHandle>
    decreases events.len(),
{
    if events.len() == 0 {
        Seq::empty()
    } else if is_meshed(v, events.last().0) {
        meshed_handles(v, events.drop_last()).push(events.last().0)
    } else {
        meshed_handles(v, events.drop_last())
    }
}

/// No more meshes are built than events are taken up.
pub proof fn lemma_meshes_within_events(v: WorldView, events: Seq<ChunkMeshingEvent>)
    ensures
        meshed_handles(v, events).len() <= events.len(),
    decreases events.len(),
{
    if events.len() > 0 {
        lemma_meshes_within_events(v, events.drop_last());
    }
}

/// Takes up to `budget` chunks off the back of the meshing queue and builds the mesh
/// of each that is loaded and `Ready`. Each mesh comes back with the handle of its
/// chunk, in the order in which the chunks left the queue.
pub fn mesh_chunks_async(
    world: &VoxelWorld,
    meshing_events: &mut VecDeque<ChunkMeshingEvent>,
    budget: u32,
) -> (meshes: Vec<(ChunkHandle, ChunkMesh)>)
    requires
        world.wf(),
    ensures
        ({
            let count = taken(old(meshing_events)@.len(), budget) as int;
            let events = taken_from_back(old(meshing_events)@, count);
            &&& final(meshing_events)@ == old(meshing_events)@.take(
                old(meshing_events)@.len() - count,
            )
            &&& meshes@.len() == meshed_handles(world@, events).len()
            &&& forall|k: int|
                0 <= k < meshes@.len() ==> (#[trigger] meshes@[k]).0 == meshed_handles(
                    world@,
                    events,
                )[k] && meshes@[k].1@ == mesh_for(world@, meshes@[k].0)
            &&& meshes@.len() <= budget
        }),
{
    let ghost queue = meshing_events@;
    let mut meshes: Vec<(ChunkHandle, ChunkMesh)> = Vec::new();
    let mut n: u32 = 0;
    assert(taken_from_back(queue, 0) =~= Seq::empty());
    assert(queue.take(queue.len() as int) =~= queue);
    while n < budget && meshing_events.len() > 0
        invariant
            0 <= n <= budget,
            n <= queue.len(),
            world.wf(),
            meshing_events@ == queue.take(queue.len() - n),
            meshes@.len() == meshed_handles(world@, taken_from_back(queue, n as int)).len(),
            forall|k: int|
                0 <= k < meshes@.len() ==> (#[trigger] meshes@[k]).0 == meshed_handles(
                    world@,
                    taken_from_back(queue, n as int),
                )[k] && meshes@[k].1@ == mesh_for(world@, meshes@[k].0),
        decreases budget - n,
    {
        let ghost events = taken_from_back(queue, n as int);
        let ghost next_events = taken_from_back(queue, n + 1);
        assert(next_events.drop_last() =~= events);
        assert(next_events.last() == queue[queue.len() - 1 - n]);
        assert(queue.take(queue.len() - n).subrange(0, queue.len() - n - 1) =~= queue.take(
            queue.len() - n - 1,
        ));
        match meshing_events.pop_back() {
            Some(event) => {
                assert(event == next_events.last());
                let handle = event.0;
                match world.state(handle) {
                    Some(ChunkLoadState::Ready) => {
                        match world.chunk(handle) {
                            Some(chunk) => {
                                match mesh_chunk(chunk) {
                                    Some(mesh) => {
                                        assert(is_meshed(world@, handle));
                                        meshes.push((handle, mesh));
                                    },
                                    None => {
                                        assert(!is_meshed(world@, handle));
                                    },
                                }
                            },
                            None => {},
                        }
                    },
                    _ => {
                        assert(!is_meshed(world@, handle));
                    },
                }
            },
            None => {},
        }
        n = n + 1;
    }
    proof {
        assert(n == taken(queue.len(), budget));
        lemma_meshes_within_events(world@, taken_from_back(queue, n as int));
    }
    meshes
}

/// The chunks among the first `n` that stay when those marked to leave are swept.
pub open spec fn kept(chunks: Seq<ChunkRecord>, n: int) -> Seq<ChunkRecord>
    decreases n,
{
    if n <= 0 {
        Seq::empty()
    } else if chunks[n - 1].state == ChunkLoadState::Unloading {
        kept(chunks, n - 1)
    } else {
        kept(chunks, n - 1).push(chunks[n - 1])
    }
}

/// What a sweep says of the first `n` chunks: one event for each that was marked to
/// leave, in the order of the registry.
pub open spec fn swept(chunks: Seq<ChunkRecord>, n: int) -> Seq<ChunkRemovedEvent>
    decreases n,
{
    if n <= 0 {
        Seq::empty()
    } else if chunks[n - 1].state == ChunkLoadState::Unloading {
        swept(chunks, n - 1).push(ChunkRemovedEvent(chunks[n - 1].pos, chunks[n - 1].handle))
    } else {
        swept(chunks, n - 1)
    }
}

/// No more chunks stay than there were.
proof fn lemma_kept_len(chunks: Seq<ChunkRecord>, n: int)
    requires
        0 <= n,
    ensures
        kept(chunks, n).len() <= n,
    decreases n,
{
    if n > 0 {
        lemma_kept_len(chunks, n - 1);
    }
}

/// The sweep of a tick: every chunk that is marked to leave is removed from the
/// registry and its voxels are freed. One event for each comes back, for whoever
/// holds resources on its behalf.
pub fn destroy_chunks(world: &mut VoxelWorld) -> (gone: Vec<ChunkRemovedEvent>)
    requires
        old(world).wf(),
    ensures
        final(world).wf(),
        final(world)@.chunks == kept(old(world)@.chunks, old(world)@.chunks.len() as int),
        final(world)@.issued == old(world)@.issued,
        gone@ == swept(old(world)@.chunks, old(world)@.chunks.len() as int),
        old(world)@.not_before(final(world)@),
{
    let ghost start = world@;
    let ghost total = start.chunks.len() as int;
    let ghost mut done: int = 0;
    let mut gone: Vec<ChunkRemovedEvent> = Vec::new();
    let mut i: usize = 0;
    assert(start.chunks.skip(0) =~= start.chunks);
    assert(kept(start.chunks, 0) + start.chunks =~= start.chunks);
    while i < world.len()
        invariant
            world.wf(),
            0 <= done <= total,
            total == start.chunks.len(),
            i == kept(start.chunks, done).len(),
            world@.chunks == kept(start.chunks, done) + start.chunks.skip(done),
            world@.issued == start.issued,
            gone@ == swept(start.chunks, done),
            start.not_before(world@),
        decreases world@.chunks.len() - i,
    {
        let ghost before = world@;
        proof {
            world.lemma_view_wf();
            assert(before.chunks[i as int] == start.chunks[done]);
            lemma_slot_of(before, i as int);
        }
        let (handle, pos, state) = world.entry_at(i);
        match state {
            ChunkLoadState::Unloading => {
                world.remove(handle);
                gone.push(ChunkRemovedEvent(pos, handle));
                proof {
                    assert(world@.chunks =~= kept(start.chunks, done + 1) + start.chunks.skip(
                        done + 1,
                    ));
                }
            },
            _ => {
                i = i + 1;
                proof {
                    assert(world@.chunks =~= kept(start.chunks, done + 1) + start.chunks.skip(
                        done + 1,
                    ));
                }
            },
        }
        proof {
            lemma_advance_is_not_before(before, world@);
            lemma_not_before_transitive(start, before, world@);
            done = done + 1;
        }
    }
    proof {
        lemma_kept_len(start.chunks, done);
        assert(done == total) by {
            assert(world@.chunks.len() == kept(start.chunks, done).len() + (total - done));
        }
        assert(start.chunks.skip(total) =~= Seq::empty());
        assert(world@.chunks =~= kept(start.chunks, total));
    }
    gone
}

} // verus!
