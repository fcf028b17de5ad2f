//! The registry of loaded chunks: which coordinates are loaded, under which handle,
//! and in which state.
use vstd::prelude::*;
use std::collections::HashMap;
use crate::chunk::{empty_cells, Chunk};
use crate::chunk_generator::{generate_chunk, terrain_cells, COLUMNS_PER_CHUNK};
use crate::coords::{padded_chunk_box, ChunkCoord};
use crate::events::ChunkReadyEvent;
use crate::grid::Point;
use crate::lifecycle::ChunkLoadState;
use crate::voxel::Voxel;

verus! {

broadcast use vstd::std_specs::hash::group_hash_axioms;

/// The identity of a loaded chunk. No handle is given out twice.
pub type ChunkHandle = u64;

/// What the registry holds of one chunk.
pub struct ChunkRecord {
    pub handle: ChunkHandle,
    pub pos: ChunkCoord,
    pub state: ChunkLoadState,
    pub cells: Map<Point, Voxel>,
}

/// The registry as a mathematical value: the loaded chunks in the order in which
/// they were spawned, and the number of handles given out so far.
pub struct WorldView {
    pub chunks: Seq<ChunkRecord>,
    pub issued: nat,
}

impl WorldView {
    /// Whether some loaded chunk stands at `coord`.
    pub open spec fn contains(self, coord: ChunkCoord) -> bool {
        exists|i: int| 0 <= i < self.chunks.len() && (#[trigger] self.chunks[i]).pos == coord
    }

    /// Where the chunk at `coord` stands among the loaded ones.
    pub open spec fn slot_at(self, coord: ChunkCoord) -> int {
        choose|i: int| 0 <= i < self.chunks.len() && (#[trigger] self.chunks[i]).pos == coord
    }

    /// The handle of the chunk at `coord`.
    pub open spec fn handle_at(self, coord: ChunkCoord) -> Option<ChunkHandle> {
        if self.contains(coord) {
            Some(self.chunks[self.slot_at(coord)].handle)
        } else {
            None
        }
    }

    /// Whether a loaded chunk has the handle `handle`.
    pub open spec fn has(self, handle: ChunkHandle) -> bool {
        exists|i: int| 0 <= i < self.chunks.len() && (#[trigger] self.chunks[i]).handle == handle
    }

    /// Where the chunk with the handle `handle` stands among the loaded ones.
    pub open spec fn slot_of(self, handle: ChunkHandle) -> int {
        choose|i: int| 0 <= i < self.chunks.len() && (#[trigger] self.chunks[i]).handle == handle
    }

    /// The record of the chunk with the handle `handle`.
    pub open spec fn record(self, handle: ChunkHandle) -> Option<ChunkRecord> {
        if self.has(handle) {
            Some(self.chunks[self.slot_of(handle)])
        } else {
            None
        }
    }

    /// The state in which the chunk with the handle `handle` is seen: none before the
    /// handle is given out, `Removed` once its chunk has left the registry.
    pub open spec fn observed(self, handle: ChunkHandle) -> Option<ChunkLoadState> {
        if handle >= self.issued {
            None
        } else if self.has(handle) {
            Some(self.chunks[self.slot_of(handle)].state)
        } else {
            Some(ChunkLoadState::Removed)
        }
    }

    /// What holds of every registry: handles grow with the order of spawning and
    /// were all given out, no coordinate is loaded twice, no loaded chunk is
    /// `Removed`, and every chunk's array covers the padded box of a chunk.
    pub open spec fn wf(self) -> bool {
        &&& self.issued <= u64::MAX
        &&& forall|i: int| 0 <= i < self.chunks.len() ==> (#[trigger] self.chunks[i]).handle < self.issued
        &&& forall|i: int, j: int|
            0 <= i < j < self.chunks.len() ==> (#[trigger] self.chunks[i]).handle < (#[trigger] self.chunks[j]).handle
        &&& forall|i: int, j: int|
            0 <= i < j < self.chunks.len() ==> (#[trigger] self.chunks[i]).pos != (#[trigger] self.chunks[j]).pos
        &&& forall|i: int|
            0 <= i < self.chunks.len() ==> (#[trigger] self.chunks[i]).state != ChunkLoadState::Removed
        &&& forall|i: int, p: Point|
            0 <= i < self.chunks.len() ==> ((#[trigger] self.chunks[i]).cells.dom().contains(p) <==> #[trigger] padded_chunk_box().contains(p))
    }

    /// Whether a chunk can be spawned at `coord`: none is loaded there, and a handle
    /// is left to give.
    pub open spec fn can_spawn(self, coord: ChunkCoord) -> bool {
        !self.contains(coord) && self.issued < u64::MAX
    }

    /// The registry after a request to spawn a chunk at `coord`.
    pub open spec fn spawned(self, coord: ChunkCoord) -> WorldView {
        if self.can_spawn(coord) {
            WorldView {
                chunks: self.chunks.push(
                    ChunkRecord {
                        handle: self.issued as u64,
                        pos: coord,
                        state: ChunkLoadState::Requested,
                        cells: empty_cells(),
                    },
                ),
                issued: self.issued + 1,
            }
        } else {
            self
        }
    }

    /// The registry with the chunk at slot `i` in state `state`.
    pub open spec fn with_state(self, i: int, state: ChunkLoadState) -> WorldView {
        WorldView {
            chunks: self.chunks.update(i, ChunkRecord { state, ..self.chunks[i] }),
            issued: self.issued,
        }
    }

    /// The registry after the chunk with the handle `handle`, if loaded, is marked to
    /// leave.
    pub open spec fn despawned(self, handle: ChunkHandle) -> WorldView {
        if self.has(handle) {
            self.with_state(self.slot_of(handle), ChunkLoadState::Unloading)
        } else {
            self
        }
    }

    /// Whether the chunk with the handle `handle` is loaded and in state `state`.
    pub open spec fn is_in(self, handle: ChunkHandle, state: ChunkLoadState) -> bool {
        self.has(handle) && self.chunks[self.slot_of(handle)].state == state
    }

    /// The registry after the chunk with the handle `handle` is removed: it leaves if
    /// it is loaded and marked to leave, and nothing changes otherwise.
    pub open spec fn removed(self, handle: ChunkHandle) -> WorldView {
        if self.is_in(handle, ChunkLoadState::Unloading) {
            WorldView { chunks: self.chunks.remove(self.slot_of(handle)), issued: self.issued }
        } else {
            self
        }
    }

    /// The registry after the chunk with the handle `handle` is taken up for
    /// generation: a `Requested` chunk becomes `Generating`, and nothing changes
    /// otherwise.
    pub open spec fn begun(self, handle: ChunkHandle) -> WorldView {
        if self.is_in(handle, ChunkLoadState::Requested) {
            self.with_state(self.slot_of(handle), ChunkLoadState::Generating)
        } else {
            self
        }
    }

    /// The registry after terrain of the given heights is handed in for the chunk
    /// with the handle `handle`: a `Generating` chunk takes the terrain and becomes
    /// `Ready`, and nothing changes otherwise.
    pub open spec fn completed(self, handle: ChunkHandle, heights: Seq<i32>) -> WorldView {
        if self.is_in(handle, ChunkLoadState::Generating) {
            let i = self.slot_of(handle);
            WorldView {
                chunks: self.chunks.update(
                    i,
                    ChunkRecord {
                        state: ChunkLoadState::Ready,
                        cells: terrain_cells(self.chunks[i].cells, heights),
                        ..self.chunks[i]
                    },
                ),
                issued: self.issued,
            }
        } else {
            self
        }
    }

    /// Whether `next` can be the registry at a later time: every handle is seen in
    /// the state it was in, or in one that may follow it, and a handle not yet given
    /// out is either still not given out or `Requested`.
    pub open spec fn advances_to(self, next: WorldView) -> bool {
        forall|h: ChunkHandle|
            match (#[trigger] self.observed(h), #[trigger] next.observed(h)) {
                (None, None) => true,
                (None, Some(s)) => s == ChunkLoadState::Requested,
                (Some(a), Some(b)) => a.steps_to(b),
                (Some(_), None) => false,
            }
    }
}

/// In a well-formed registry a handle names one slot.
pub proof fn lemma_slot_of(v: WorldView, i: int)
    requires
        v.wf(),
        0 <= i < v.chunks.len(),
    ensures
        v.has(v.chunks[i].handle),
        v.slot_of(v.chunks[i].handle) == i,
{
    let h = v.chunks[i].handle;
    let j = v.slot_of(h);
    assert(0 <= j < v.chunks.len() && v.chunks[j].handle == h);
    if j < i {
        assert(v.chunks[j].handle < v.chunks[i].handle);
    }
    if i < j {
        assert(v.chunks[i].handle < v.chunks[j].handle);
    }
}

/// A registry never holds two chunks for one coordinate.
pub proof fn lemma_coordinates_unique(v: WorldView, i: int, j: int)
    requires
        v.wf(),
        0 <= i < v.chunks.len(),
        0 <= j < v.chunks.len(),
        v.chunks[i].pos == v.chunks[j].pos,
    ensures
        i == j,
{
    if i < j {
        assert(v.chunks[i].pos != v.chunks[j].pos);
    }
    if j < i {
        assert(v.chunks[j].pos != v.chunks[i].pos);
    }
}

/// Two different slots hold different coordinates.
proof fn lemma_coordinates_unique_entries(v: WorldView, i: int, j: int)
    requires
        v.wf(),
        0 <= i < v.chunks.len(),
        0 <= j < v.chunks.len(),
        i != j,
    ensures
        v.chunks[i].pos != v.chunks[j].pos,
{
    if v.chunks[i].pos == v.chunks[j].pos {
        lemma_coordinates_unique(v, i, j);
    }
}

/// Replacing the record at a slot by one of the same handle and coordinate, in a
/// state that may follow, keeps the registry well formed and moves no chunk back.
pub proof fn lemma_record_replaced(v: WorldView, i: int, rec: ChunkRecord)
    requires
        v.wf(),
        0 <= i < v.chunks.len(),
        rec.handle == v.chunks[i].handle,
        rec.pos == v.chunks[i].pos,
        v.chunks[i].state.steps_to(rec.state),
        rec.state != ChunkLoadState::Removed,
        forall|p: Point| rec.cells.dom().contains(p) <==> padded_chunk_box().contains(p),
    ensures
        (WorldView { chunks: v.chunks.update(i, rec), issued: v.issued }).wf(),
        v.advances_to(WorldView { chunks: v.chunks.update(i, rec), issued: v.issued }),
{
    let next = WorldView { chunks: v.chunks.update(i, rec), issued: v.issued };
    assert forall|k: int| 0 <= k < next.chunks.len() implies (#[trigger] next.chunks[k]).handle
        == v.chunks[k].handle && next.chunks[k].pos == v.chunks[k].pos by {}
    assert(next.wf()) by {
        assert forall|a: int, b: int| 0 <= a < b < next.chunks.len() implies (#[trigger] next.chunks[a]).handle < (#[trigger] next.chunks[b]).handle by {
            assert(v.chunks[a].handle < v.chunks[b].handle);
        }
        assert forall|a: int, b: int| 0 <= a < b < next.chunks.len() implies (#[trigger] next.chunks[a]).pos != (#[trigger] next.chunks[b]).pos by {
            assert(v.chunks[a].pos != v.chunks[b].pos);
        }
        assert forall|a: int, p: Point| 0 <= a < next.chunks.len() implies ((#[trigger] next.chunks[a]).cells.dom().contains(p) <==> #[trigger] padded_chunk_box().contains(p)) by {
            if a != i {
                assert(v.chunks[a].cells.dom().contains(p) <==> padded_chunk_box().contains(p));
            }
        }
    }
    assert forall|h: ChunkHandle|
        match (#[trigger] v.observed(h), #[trigger] next.observed(h)) {
            (None, None) => true,
            (None, Some(s)) => s == ChunkLoadState::Requested,
            (Some(a), Some(b)) => a.steps_to(b),
            (Some(_), None) => false,
        } by {
        if v.has(h) {
            let k = v.slot_of(h);
            assert(next.chunks[k].handle == h);
            lemma_slot_of(next, k);
        } else if next.has(h) {
            let k = next.slot_of(h);
            assert(v.chunks[k].handle == h);
        }
    }
}

/// Spawning keeps the registry well formed and moves no chunk back.
pub proof fn lemma_spawned(v: WorldView, coord: ChunkCoord)
    requires
        v.wf(),
    ensures
        v.spawned(coord).wf(),
        v.advances_to(v.spawned(coord)),
{
    let next = v.spawned(coord);
    if v.can_spawn(coord) {
        let n = v.chunks.len() as int;
        assert forall|k: int| 0 <= k < n implies (#[trigger] next.chunks[k]) == v.chunks[k] by {}
        assert(next.chunks[n].handle == v.issued);
        assert(next.wf()) by {
            assert forall|a: int, b: int| 0 <= a < b < next.chunks.len() implies (#[trigger] next.chunks[a]).handle < (#[trigger] next.chunks[b]).handle by {
                if b < n {
                    assert(v.chunks[a].handle < v.chunks[b].handle);
                } else {
                    assert(v.chunks[a].handle < v.issued);
                }
            }
            assert forall|a: int, b: int| 0 <= a < b < next.chunks.len() implies (#[trigger] next.chunks[a]).pos != (#[trigger] next.chunks[b]).pos by {
                if b < n {
                    assert(v.chunks[a].pos != v.chunks[b].pos);
                } else {
                    assert(v.chunks[a].pos != coord);
                }
            }
            assert forall|a: int, p: Point| 0 <= a < next.chunks.len() implies ((#[trigger] next.chunks[a]).cells.dom().contains(p) <==> #[trigger] padded_chunk_box().contains(p)) by {
                if a < n {
                    assert(v.chunks[a].cells.dom().contains(p) <==> padded_chunk_box().contains(p));
                }
            }
        }
        assert forall|h: ChunkHandle|
            match (#[trigger] v.observed(h), #[trigger] next.observed(h)) {
                (None, None) => true,
                (None, Some(s)) => s == ChunkLoadState::Requested,
                (Some(a), Some(b)) => a.steps_to(b),
                (Some(_), None) => false,
            } by {
            if v.has(h) {
                let k = v.slot_of(h);
                assert(next.chunks[k].handle == h);
                lemma_slot_of(next, k);
            } else if next.has(h) {
                let k = next.slot_of(h);
                if k < n {
                    assert(v.chunks[k].handle == h);
                } else {
                    assert(h == v.issued);
                }
            } else if h == v.issued {
                assert(next.chunks[n].handle == h);
            }
        }
    } else {
        lemma_unchanged_advances(v);
    }
}

/// A registry that stays as it is moves no chunk back.
pub proof fn lemma_unchanged_advances(v: WorldView)
    ensures
        v.advances_to(v),
{
}

/// Removing a chunk keeps the registry well formed and moves no chunk back.
pub proof fn lemma_removed(v: WorldView, handle: ChunkHandle)
    requires
        v.wf(),
    ensures
        v.removed(handle).wf(),
        v.advances_to(v.removed(handle)),
{
    let next = v.removed(handle);
    if v.is_in(handle, ChunkLoadState::Unloading) {
        let i = v.slot_of(handle);
        lemma_slot_of(v, i);
        assert forall|k: int| 0 <= k < next.chunks.len() implies (#[trigger] next.chunks[k]) == v.chunks[if k < i { k } else { k + 1 }] by {}
        assert(next.wf()) by {
            assert forall|a: int, b: int| 0 <= a < b < next.chunks.len() implies (#[trigger] next.chunks[a]).handle < (#[trigger] next.chunks[b]).handle by {
                let a0 = if a < i { a } else { a + 1 };
                let b0 = if b < i { b } else { b + 1 };
                assert(v.chunks[a0].handle < v.chunks[b0].handle);
            }
            assert forall|a: int, b: int| 0 <= a < b < next.chunks.len() implies (#[trigger] next.chunks[a]).pos != (#[trigger] next.chunks[b]).pos by {
                let a0 = if a < i { a } else { a + 1 };
                let b0 = if b < i { b } else { b + 1 };
                assert(v.chunks[a0].pos != v.chunks[b0].pos);
            }
            assert forall|a: int, p: Point| 0 <= a < next.chunks.len() implies ((#[trigger] next.chunks[a]).cells.dom().contains(p) <==> #[trigger] padded_chunk_box().contains(p)) by {
                let a0 = if a < i { a } else { a + 1 };
                assert(v.chunks[a0].cells.dom().contains(p) <==> padded_chunk_box().contains(p));
            }
            assert forall|a: int| 0 <= a < next.chunks.len() implies (#[trigger] next.chunks[a]).handle < next.issued by {
                let a0 = if a < i { a } else { a + 1 };
                assert(v.chunks[a0].handle < v.issued);
            }
            assert forall|a: int| 0 <= a < next.chunks.len() implies (#[trigger] next.chunks[a]).state != ChunkLoadState::Removed by {
                let a0 = if a < i { a } else { a + 1 };
                assert(v.chunks[a0].state != ChunkLoadState::Removed);
            }
        }
        assert forall|h: ChunkHandle|
            match (#[trigger] v.observed(h), #[trigger] next.observed(h)) {
                (None, None) => true,
                (None, Some(s)) => s == ChunkLoadState::Requested,
                (Some(a), Some(b)) => a.steps_to(b),
                (Some(_), None) => false,
            } by {
            if next.has(h) {
                let k = next.slot_of(h);
                let k0 = if k < i { k } else { k + 1 };
                assert(v.chunks[k0].handle == h);
                lemma_slot_of(v, k0);
            } else if v.has(h) {
                let k = v.slot_of(h);
                if k != i {
                    let k1 = if k < i { k } else { k - 1 };
                    assert(next.chunks[k1].handle == h);
                }
            }
        }
    } else {
        lemma_unchanged_advances(v);
    }
}

impl WorldView {
    /// Whether `next` can be the registry after any number of steps: no handle is
    /// seen in a state that stands earlier on the path than the one it was in.
    pub open spec fn not_before(self, next: WorldView) -> bool {
        forall|h: ChunkHandle|
            match (#[trigger] self.observed(h), #[trigger] next.observed(h)) {
                (None, _) => true,
                (Some(a), Some(b)) => a.rank() <= b.rank(),
                (Some(_), None) => false,
            }
    }
}

/// One step moves no chunk back.
pub proof fn lemma_advance_is_not_before(v: WorldView, next: WorldView)
    requires
        v.advances_to(next),
    ensures
        v.not_before(next),
{
    assert forall|h: ChunkHandle|
        match (#[trigger] v.observed(h), #[trigger] next.observed(h)) {
            (None, _) => true,
            (Some(a), Some(b)) => a.rank() <= b.rank(),
            (Some(_), None) => false,
        } by {
        match (v.observed(h), next.observed(h)) {
            (Some(a), Some(b)) => {
                assert(a.steps_to(b));
            },
            (Some(_), None) => {
                assert(false);
            },
            _ => {},
        }
    }
}

/// Steps that each move no chunk back move no chunk back together.
pub proof fn lemma_not_before_transitive(a: WorldView, b: WorldView, c: WorldView)
    requires
        a.not_before(b),
        b.not_before(c),
    ensures
        a.not_before(c),
{
    assert forall|h: ChunkHandle|
        match (#[trigger] a.observed(h), #[trigger] c.observed(h)) {
            (None, _) => true,
            (Some(x), Some(z)) => x.rank() <= z.rank(),
            (Some(_), None) => false,
        } by {
        let _ = b.observed(h);
    }
}

/// The states in which a handle is seen, over registries of which each can follow
/// the one before it by one step, make a trace that the lifecycle allows.
pub proof fn lemma_observed_trace(worlds: Seq<WorldView>, h: ChunkHandle)
    requires
        worlds.len() > 0,
        worlds[0].observed(h) is Some,
        forall|i: int| 0 <= i < worlds.len() - 1 ==> (#[trigger] worlds[i]).advances_to(worlds[i + 1]),
    ensures
        forall|i: int| 0 <= i < worlds.len() ==> (#[trigger] worlds[i]).observed(h) is Some,
        crate::lifecycle::is_lifecycle(observed_trace(worlds, h)),
{
    assert forall|i: int| 0 <= i < worlds.len() implies (#[trigger] worlds[i]).observed(h) is Some by {
        lemma_observed_stays(worlds, h, i);
    }
    let trace = observed_trace(worlds, h);
    assert forall|i: int| 0 <= i < trace.len() - 1 implies (#[trigger] trace[i]).steps_to(trace[i + 1]) by {
        lemma_observed_stays(worlds, h, i);
        lemma_observed_stays(worlds, h, i + 1);
        assert(worlds[i].advances_to(worlds[i + 1]));
        let a = worlds[i].observed(h);
        let b = worlds[i + 1].observed(h);
    }
}

/// The states in which a handle is seen over a sequence of registries.
pub open spec fn observed_trace(worlds: Seq<WorldView>, h: ChunkHandle) -> Seq<ChunkLoadState> {
    Seq::new(worlds.len(), |i: int| worlds[i].observed(h)->0)
}

/// A handle that is seen in some state is seen in some state ever after.
proof fn lemma_observed_stays(worlds: Seq<WorldView>, h: ChunkHandle, i: int)
    requires
        worlds.len() > 0,
        worlds[0].observed(h) is Some,
        forall|i: int| 0 <= i < worlds.len() - 1 ==> (#[trigger] worlds[i]).advances_to(worlds[i + 1]),
        0 <= i < worlds.len(),
    ensures
        worlds[i].observed(h) is Some,
    decreases i,
{
    if i > 0 {
        lemma_observed_stays(worlds, h, i - 1);
        assert(worlds[i - 1].advances_to(worlds[i - 1 + 1]));
        let a = worlds[i - 1].observed(h);
        let b = worlds[i].observed(h);
    }
}

/// The number under which a coordinate is indexed: no two coordinates share one.
pub open spec fn coord_key(coord: ChunkCoord) -> u64 {
    ((coord.x + 0x8000_0000) * 0x1_0000_0000 + (coord.z + 0x8000_0000)) as u64
}

/// The number under which a coordinate is indexed.
fn key_of(coord: ChunkCoord) -> (key: u64)
    ensures
        key == coord_key(coord),
{
    let x: u64 = (coord.x as i64 + 0x8000_0000) as u64;
    let z: u64 = (coord.z as i64 + 0x8000_0000) as u64;
    x * 0x1_0000_0000 + z
}

/// Two coordinates with one key are one coordinate.
proof fn lemma_key_injective(a: ChunkCoord, b: ChunkCoord)
    requires
        coord_key(a) == coord_key(b),
    ensures
        a == b,
{
}

struct ChunkEntry {
    entity: ChunkHandle,
    load_state: ChunkLoadState,
    chunk: Chunk,
}

impl ChunkEntry {
    spec fn record(self) -> ChunkRecord {
        ChunkRecord {
            handle: self.entity,
            pos: self.chunk.pos(),
            state: self.load_state,
            cells: self.chunk.cells(),
        }
    }
}

/// The registry of loaded chunks, and the single owner of each chunk's voxels.
pub struct VoxelWorld {
    loaded_chunks: HashMap<u64, ChunkHandle>,
    entries: Vec<ChunkEntry>,
    next_entity: u64,
}

impl View for VoxelWorld {
    type V = WorldView;

    closed spec fn view(&self) -> WorldView {
        WorldView {
            chunks: self.entries@.map_values(|e: ChunkEntry| e.record()),
            issued: self.next_entity as nat,
        }
    }
}

impl VoxelWorld {
    /// The index from coordinates to handles agrees with the loaded chunks.
    closed spec fn index_wf(&self) -> bool {
        &&& forall|i: int|
            0 <= i < self.entries.len() ==> self.loaded_chunks@.contains_key(
                coord_key((#[trigger] self.entries[i]).chunk.pos()),
            ) && self.loaded_chunks@[coord_key(self.entries[i].chunk.pos())]
                == self.entries[i].entity
        &&& forall|k: u64| #[trigger]
            self.loaded_chunks@.contains_key(k) ==> exists|i: int|
                0 <= i < self.entries.len() && coord_key((#[trigger] self.entries[i]).chunk.pos())
                    == k
    }

    /// The registry is sound: what `WorldView::wf` says of it holds, and its index
    /// agrees with its chunks.
    pub closed spec fn wf(&self) -> bool {
        &&& self@.wf()
        &&& self.index_wf()
        &&& forall|i: int| 0 <= i < self.entries.len() ==> (#[trigger] self.entries[i]).chunk.wf()
    }

    /// What a sound registry holds is well formed.
    pub proof fn lemma_view_wf(&self)
        requires
            self.wf(),
        ensures
            self@.wf(),
    {
    }

    /// A registry without a chunk.
    pub fn new() -> (world: VoxelWorld)
        ensures
            world.wf(),
            world@.chunks.len() == 0,
            world@.issued == 0,
    {
        VoxelWorld { loaded_chunks: HashMap::new(), entries: Vec::new(), next_entity: 0 }
    }

    /// The number of loaded chunks.
    pub fn len(&self) -> (n: usize)
        ensures
            n == self@.chunks.len(),
    {
        self.entries.len()
    }

    /// Whether a chunk is loaded at `coord`.
    pub fn contains(&self, coord: ChunkCoord) -> (loaded: bool)
        requires
            self.wf(),
        ensures
            loaded == self@.contains(coord),
    {
        let key = key_of(coord);
        let loaded = self.loaded_chunks.contains_key(&key);
        proof {
            if loaded {
                let i = choose|i: int|
                    0 <= i < self.entries.len() && coord_key((#[trigger] self.entries[i]).chunk.pos())
                        == key;
                lemma_key_injective(self.entries[i].chunk.pos(), coord);
                assert(self@.chunks[i].pos == coord);
            } else {
                if self@.contains(coord) {
                    let i = self@.slot_at(coord);
                    assert(self@.chunks[i].pos == coord);
                    assert(self.entries[i].chunk.pos() == coord);
                }
            }
        }
        loaded
    }

    /// The handle of the chunk loaded at `coord`.
    pub fn get(&self, coord: ChunkCoord) -> (handle: Option<ChunkHandle>)
        requires
            self.wf(),
        ensures
            handle == self@.handle_at(coord),
    {
        let key = key_of(coord);
        let found = self.loaded_chunks.get(&key);
        match found {
            Some(h) => {
                proof {
                    let i = choose|i: int|
                        0 <= i < self.entries.len() && coord_key(
                            (#[trigger] self.entries[i]).chunk.pos(),
                        ) == key;
                    lemma_key_injective(self.entries[i].chunk.pos(), coord);
                    assert(self@.chunks[i].pos == coord);
                    let j = self@.slot_at(coord);
                    assert(self@.chunks[j].pos == coord);
                    assert(i == j);
                }
                Some(*h)
            },
            None => {
                proof {
                    if self@.contains(coord) {
                        let i = self@.slot_at(coord);
                        assert(self@.chunks[i].pos == coord);
                        assert(self.entries[i].chunk.pos() == coord);
                    }
                }
                None
            },
        }
    }

    /// The index still agrees with the chunks where neither it nor any chunk's
    /// handle or coordinate has changed.
    proof fn lemma_index_kept(before: VoxelWorld, after: VoxelWorld)
        requires
            before.index_wf(),
            after.loaded_chunks@ == before.loaded_chunks@,
            after.entries.len() == before.entries.len(),
            forall|k: int|
                0 <= k < before.entries.len() ==> (#[trigger] after.entries[k]).chunk.pos()
                    == before.entries[k].chunk.pos() && after.entries[k].entity
                    == before.entries[k].entity,
        ensures
            after.index_wf(),
    {
        assert forall|k: int| 0 <= k < after.entries.len() implies after.loaded_chunks@.contains_key(
            coord_key((#[trigger] after.entries[k]).chunk.pos()),
        ) && after.loaded_chunks@[coord_key(after.entries[k].chunk.pos())]
            == after.entries[k].entity by {
            assert(before.loaded_chunks@.contains_key(
                coord_key(before.entries[k].chunk.pos()),
            ));
        }
        assert forall|key: u64| #[trigger] after.loaded_chunks@.contains_key(key) implies exists|
            j: int,
        |
            0 <= j < after.entries.len() && coord_key((#[trigger] after.entries[j]).chunk.pos())
                == key by {
            let j0 = choose|j: int|
                0 <= j < before.entries.len() && coord_key(
                    (#[trigger] before.entries[j]).chunk.pos(),
                ) == key;
            assert(coord_key(after.entries[j0].chunk.pos()) == key);
        }
    }

    /// The slot of the chunk with the handle `handle`, by bisection of the handles.
    fn find(&self, handle: ChunkHandle) -> (slot: Option<usize>)
        requires
            self.wf(),
        ensures
            match slot {
                Some(i) => i < self.entries.len() && self.entries[i as int].entity == handle
                    && self@.has(handle) && self@.slot_of(handle) == i,
                None => !self@.has(handle),
            },
    {
        let mut lo: usize = 0;
        let mut hi: usize = self.entries.len();
        while lo < hi
            invariant
                self.wf(),
                0 <= lo <= hi <= self.entries.len(),
                forall|k: int| 0 <= k < lo ==> (#[trigger] self@.chunks[k]).handle < handle,
                forall|k: int| hi <= k < self.entries.len() ==> (#[trigger] self@.chunks[k]).handle > handle,
            decreases hi - lo,
        {
            let mid: usize = lo + (hi - lo) / 2;
            let at = self.entries[mid].entity;
            assert(self@.chunks[mid as int].handle == at);
            if at == handle {
                proof {
                    lemma_slot_of(self@, mid as int);
                }
                return Some(mid);
            } else if at < handle {
                assert forall|k: int| 0 <= k < mid + 1 implies (#[trigger] self@.chunks[k]).handle < handle by {
                    if k < mid {
                        assert(self@.chunks[k].handle < self@.chunks[mid as int].handle);
                    }
                }
                lo = mid + 1;
            } else {
                assert forall|k: int| mid <= k < self.entries.len() implies (#[trigger] self@.chunks[k]).handle > handle by {
                    if mid < k {
                        assert(self@.chunks[mid as int].handle < self@.chunks[k].handle);
                    }
                }
                hi = mid;
            }
        }
        assert(!self@.has(handle)) by {
            if self@.has(handle) {
                let k = self@.slot_of(handle);
                assert(self@.chunks[k].handle == handle);
            }
        }
        None
    }

    /// Spawns a chunk at `coord`: a new chunk, empty and `Requested`, under a handle
    /// that was never given out. Nothing happens where a chunk is loaded at `coord`
    /// already, or where no handle is left.
    pub fn spawn(&mut self, coord: ChunkCoord) -> (handle: Option<ChunkHandle>)
        requires
            old(self).wf(),
        ensures
            final(self).wf(),
            final(self)@ == old(self)@.spawned(coord),
            handle == if old(self)@.can_spawn(coord) {
                Some(old(self)@.issued as u64)
            } else {
                None::<u64>
            },
            old(self)@.advances_to(final(self)@),
    {
        proof {
            lemma_spawned(self@, coord);
        }
        if self.next_entity == u64::MAX || self.contains(coord) {
            return None;
        }
        let handle = self.next_entity;
        let key = key_of(coord);
        let entry = ChunkEntry { entity: handle, load_state: ChunkLoadState::Requested, chunk: Chunk::new(coord) };
        let ghost before = *self;
        self.entries.push(entry);
        self.loaded_chunks.insert(key, handle);
        self.next_entity = handle + 1;
        proof {
            assert(self@.chunks =~= before@.spawned(coord).chunks);
            assert(self@ == before@.spawned(coord));
            let n = before.entries.len() as int;
            assert forall|k: int| 0 <= k < self.entries.len() implies (#[trigger] self.entries[k]).chunk.wf() by {
                if k < n {
                    assert(self.entries[k] == before.entries[k]);
                }
            }
            assert(self.index_wf()) by {
                assert forall|k: int| 0 <= k < self.entries.len() implies self.loaded_chunks@.contains_key(
                    coord_key((#[trigger] self.entries[k]).chunk.pos()),
                ) && self.loaded_chunks@[coord_key(self.entries[k].chunk.pos())]
                    == self.entries[k].entity by {
                    if k < n {
                        assert(self.entries[k] == before.entries[k]);
                        assert(before@.chunks[k].pos != coord);
                        if coord_key(before.entries[k].chunk.pos()) == key {
                            lemma_key_injective(before.entries[k].chunk.pos(), coord);
                        }
                    }
                }
                assert forall|k: u64| #[trigger] self.loaded_chunks@.contains_key(k) implies exists|i: int|
                    0 <= i < self.entries.len() && coord_key((#[trigger] self.entries[i]).chunk.pos())
                        == k by {
                    if k == key {
                        assert(coord_key(self.entries[n].chunk.pos()) == k);
                    } else {
                        let i = choose|i: int|
                            0 <= i < before.entries.len() && coord_key(
                                (#[trigger] before.entries[i]).chunk.pos(),
                            ) == k;
                        assert(self.entries[i] == before.entries[i]);
                    }
                }
            }
        }
        Some(handle)
    }

    /// Replaces the state of the chunk at slot `i`.
    fn set_state(&mut self, i: usize, state: ChunkLoadState)
        requires
            old(self).wf(),
            i < old(self).entries.len(),
            old(self).entries[i as int].load_state.steps_to(state),
            state != ChunkLoadState::Removed,
        ensures
            final(self).wf(),
            final(self)@ == old(self)@.with_state(i as int, state),
            old(self)@.advances_to(final(self)@),
    {
        let ghost before = *self;
        self.entries[i].load_state = state;
        proof {
            let rec = ChunkRecord { state, ..before@.chunks[i as int] };
            lemma_record_replaced(before@, i as int, rec);
            assert(self@.chunks =~= before@.with_state(i as int, state).chunks);
            assert forall|k: int| 0 <= k < self.entries.len() implies (#[trigger] self.entries[k]).chunk
                == before.entries[k].chunk && self.entries[k].entity == before.entries[k].entity by {}
            Self::lemma_index_kept(before, *self);
        }
    }

    /// Marks the chunk with the handle `handle` to leave, whatever state it is in.
    /// Nothing happens where no such chunk is loaded.
    pub fn despawn_entity(&mut self, handle: ChunkHandle)
        requires
            old(self).wf(),
        ensures
            final(self).wf(),
            final(self)@ == old(self)@.despawned(handle),
            old(self)@.advances_to(final(self)@),
    {
        match self.find(handle) {
            Some(i) => {
                self.set_state(i, ChunkLoadState::Unloading);
            },
            None => {
                proof {
                    lemma_unchanged_advances(self@);
                }
            },
        }
    }

    /// Marks the chunk loaded at `coord` to leave. Nothing happens where none is
    /// loaded there.
    pub fn despawn(&mut self, coord: ChunkCoord)
        requires
            old(self).wf(),
        ensures
            final(self).wf(),
            final(self)@ == match old(self)@.handle_at(coord) {
                Some(h) => old(self)@.despawned(h),
                None => old(self)@,
            },
            old(self)@.advances_to(final(self)@),
    {
        match self.get(coord) {
            Some(handle) => {
                self.despawn_entity(handle);
            },
            None => {
                proof {
                    lemma_unchanged_advances(self@);
                }
            },
        }
    }

    /// Removes the chunk with the handle `handle` and frees its voxels, if it is
    /// loaded and marked to leave; says whether it did.
    pub fn remove(&mut self, handle: ChunkHandle) -> (gone: bool)
        requires
            old(self).wf(),
        ensures
            final(self).wf(),
            final(self)@ == old(self)@.removed(handle),
            gone == old(self)@.is_in(handle, ChunkLoadState::Unloading),
            old(self)@.advances_to(final(self)@),
    {
        proof {
            lemma_removed(self@, handle);
        }
        match self.find(handle) {
            Some(i) => {
                match self.entries[i].load_state {
                    ChunkLoadState::Unloading => {
                        self.remove_at(i);
                        true
                    },
                    _ => false,
                }
            },
            None => false,
        }
    }

    /// Takes the chunk at slot `i` out of the registry.
    fn remove_at(&mut self, i: usize)
        requires
            old(self).wf(),
            i < old(self).entries.len(),
        ensures
            final(self).index_wf(),
            final(self)@.chunks == old(self)@.chunks.remove(i as int),
            final(self)@.issued == old(self)@.issued,
            forall|k: int| 0 <= k < final(self).entries.len() ==> (#[trigger] final(self).entries[k]).chunk.wf(),
    {
        let ghost before = *self;
        let key = key_of(self.entries[i].chunk.pos());
        let gone = self.entries.remove(i);
        self.loaded_chunks.remove(&key);
        proof {
            assert(self@.chunks =~= before@.chunks.remove(i as int));
            assert forall|k: int| 0 <= k < self.entries.len() implies (#[trigger] self.entries[k])
                == before.entries[if k < i { k } else { k + 1 }] by {}
            assert forall|k: int| 0 <= k < self.entries.len() implies self.loaded_chunks@.contains_key(
                coord_key((#[trigger] self.entries[k]).chunk.pos()),
            ) && self.loaded_chunks@[coord_key(self.entries[k].chunk.pos())]
                == self.entries[k].entity by {
                let k0 = if k < i { k } else { k + 1 };
                assert(self.entries[k] == before.entries[k0]);
                lemma_coordinates_unique_entries(before@, k0, i as int);
                if coord_key(before.entries[k0].chunk.pos()) == key {
                    lemma_key_injective(before.entries[k0].chunk.pos(), before.entries[i as int].chunk.pos());
                    assert(before@.chunks[k0].pos == before@.chunks[i as int].pos);
                }
            }
            assert forall|k: u64| #[trigger] self.loaded_chunks@.contains_key(k) implies exists|j: int|
                0 <= j < self.entries.len() && coord_key((#[trigger] self.entries[j]).chunk.pos())
                    == k by {
                let j0 = choose|j: int|
                    0 <= j < before.entries.len() && coord_key(
                        (#[trigger] before.entries[j]).chunk.pos(),
                    ) == k;
                assert(j0 != i);
                let j1 = if j0 < i { j0 } else { j0 - 1 };
                assert(self.entries[j1] == before.entries[j0]);
            }
        }
    }

    /// The state of the chunk with the handle `handle`.
    pub fn state(&self, handle: ChunkHandle) -> (state: Option<ChunkLoadState>)
        requires
            self.wf(),
        ensures
            state == match self@.record(handle) {
                Some(rec) => Some(rec.state),
                None => None::<ChunkLoadState>,
            },
    {
        match self.find(handle) {
            Some(i) => Some(self.entries[i].load_state),
            None => None,
        }
    }

    /// The chunk with the handle `handle`.
    pub fn chunk(&self, handle: ChunkHandle) -> (chunk: Option<&Chunk>)
        requires
            self.wf(),
        ensures
            match chunk {
                Some(c) => self@.has(handle) && c.wf() && c.pos() == self@.record(handle)->0.pos
                    && c.cells() == self@.record(handle)->0.cells,
                None => !self@.has(handle),
            },
    {
        match self.find(handle) {
            Some(i) => Some(&self.entries[i].chunk),
            None => None,
        }
    }

    /// The handle, coordinate and state of the chunk at slot `i`, the slots running
    /// in the order of spawning.
    pub fn entry_at(&self, i: usize) -> (entry: (ChunkHandle, ChunkCoord, ChunkLoadState))
        requires
            i < self@.chunks.len(),
        ensures
            entry.0 == self@.chunks[i as int].handle,
            entry.1 == self@.chunks[i as int].pos,
            entry.2 == self@.chunks[i as int].state,
    {
        (self.entries[i].entity, self.entries[i].chunk.pos(), self.entries[i].load_state)
    }

    /// Takes the chunk with the handle `handle` up for generation: a `Requested`
    /// chunk becomes `Generating`, and its coordinate comes back. Nothing happens to
    /// a chunk in another state, or where no such chunk is loaded.
    pub fn begin_generation(&mut self, handle: ChunkHandle) -> (pos: Option<ChunkCoord>)
        requires
            old(self).wf(),
        ensures
            final(self).wf(),
            final(self)@ == old(self)@.begun(handle),
            pos == if old(self)@.is_in(handle, ChunkLoadState::Requested) {
                Some(old(self)@.record(handle)->0.pos)
            } else {
                None::<ChunkCoord>
            },
            old(self)@.advances_to(final(self)@),
    {
        match self.find(handle) {
            Some(i) => {
                match self.entries[i].load_state {
                    ChunkLoadState::Requested => {
                        let pos = self.entries[i].chunk.pos();
                        self.set_state(i, ChunkLoadState::Generating);
                        Some(pos)
                    },
                    _ => {
                        proof {
                            lemma_unchanged_advances(self@);
                        }
                        None
                    },
                }
            },
            None => {
                proof {
                    lemma_unchanged_advances(self@);
                }
                None
            },
        }
    }

    /// Hands in the heights of the chunk with the handle `handle`: a `Generating`
    /// chunk takes the terrain and becomes `Ready`, which the event that comes back
    /// announces. Nothing happens to a chunk in another state (one that was marked
    /// to leave meanwhile stays as it is), or where no such chunk is loaded.
    pub fn complete_generation(&mut self, handle: ChunkHandle, heights: &Vec<i32>) -> (ready: Option<
        ChunkReadyEvent,
    >)
        requires
            old(self).wf(),
            heights.len() == COLUMNS_PER_CHUNK,
        ensures
            final(self).wf(),
            final(self)@ == old(self)@.completed(handle, heights@),
            ready == if old(self)@.is_in(handle, ChunkLoadState::Generating) {
                Some(ChunkReadyEvent(old(self)@.record(handle)->0.pos, handle))
            } else {
                None::<ChunkReadyEvent>
            },
            old(self)@.advances_to(final(self)@),
    {
        match self.find(handle) {
            Some(i) => {
                match self.entries[i].load_state {
                    ChunkLoadState::Generating => {
                        let ghost before = *self;
                        let pos = self.entries[i].chunk.pos();
                        generate_chunk(&mut self.entries[i].chunk, heights);
                        self.entries[i].load_state = ChunkLoadState::Ready;
                        proof {
                            let rec = ChunkRecord {
                                state: ChunkLoadState::Ready,
                                cells: terrain_cells(before@.chunks[i as int].cells, heights@),
                                ..before@.chunks[i as int]
                            };
                            assert(self.entries[i as int].chunk.wf());
                            lemma_record_replaced(before@, i as int, rec);
                            assert(self@.chunks =~= before@.completed(handle, heights@).chunks);
                            assert forall|k: int| 0 <= k < self.entries.len() implies (#[trigger] self.entries[k]).chunk.pos()
                                == before.entries[k].chunk.pos() && self.entries[k].entity
                                == before.entries[k].entity && self.entries[k].chunk.wf() by {
                                if k != i {
                                    assert(self.entries[k] == before.entries[k]);
                                }
                            }
                            Self::lemma_index_kept(before, *self);
                        }
                        Some(ChunkReadyEvent(pos, handle))
                    },
                    _ => {
                        proof {
                            lemma_unchanged_advances(self@);
                        }
                        None
                    },
                }
            },
            None => {
                proof {
                    lemma_unchanged_advances(self@);
                }
                None
            },
        }
    }
}

} // verus!
