//! The streaming scheduler: which chunks should be loaded round the observer, and
//! which loaded ones should leave.
use vstd::prelude::*;
use crate::coords::{get_chunk_indices, ChunkCoord};
use crate::events::{ChunkDespawnRequest, ChunkSpawnRequest};
use crate::world::{ChunkRecord, VoxelWorld};

verus! {

/// The render distance, in chunks, where none is configured.
pub const DEFAULT_CHUNK_RENDER_DISTANCE: i32 = 4;

/// Whether a chunk at `c` should be loaded for an observer in the chunk `center`:
/// it lies strictly inside the circle of the given radius.
pub open spec fn desired(center: ChunkCoord, radius: int, c: ChunkCoord) -> bool {
    radius > 0 && c.dist2(center) < radius * radius
}

/// Whether a chunk loaded at `c` should leave: it lies strictly outside the circle.
pub open spec fn unwanted(center: ChunkCoord, radius: int, c: ChunkCoord) -> bool {
    c.dist2(center) > radius * radius
}

/// The order of spawn requests: the farther coordinate first; of two equally far,
/// the one with the lesser x, then the lesser z.
pub open spec fn spawn_before(center: ChunkCoord, a: ChunkCoord, b: ChunkCoord) -> bool {
    ||| a.dist2(center) > b.dist2(center)
    ||| a.dist2(center) == b.dist2(center) && a.x < b.x
    ||| a.dist2(center) == b.dist2(center) && a.x == b.x && a.z < b.z
}

/// Whether the requests stand in the order of `spawn_before`.
pub open spec fn spawn_ordered(center: ChunkCoord, requests: Seq<ChunkSpawnRequest>) -> bool {
    forall|i: int, j: int|
        0 <= i < j < requests.len() ==> spawn_before(
            center,
            (#[trigger] requests[i]).0,
            (#[trigger] requests[j]).0,
        )
}

/// Whether a request for `c` is among the requests.
pub open spec fn requested(requests: Seq<ChunkSpawnRequest>, c: ChunkCoord) -> bool {
    exists|i: int| 0 <= i < requests.len() && (#[trigger] requests[i]).0 == c
}

/// Whether the scan of offsets, which runs through x first and z second, has passed
/// `c` when it stands at the offset `(dx, dz)`.
pub open spec fn scanned(center: ChunkCoord, c: ChunkCoord, dx: int, dz: int) -> bool {
    c.x - center.x < dx || (c.x - center.x == dx && c.z - center.z < dz)
}

/// The despawn requests for the first `n` loaded chunks: one for each that is
/// unwanted, in the order of the registry.
pub open spec fn despawns(chunks: Seq<ChunkRecord>, center: ChunkCoord, radius: int, n: int) -> Seq<
    ChunkDespawnRequest,
>
    decreases n,
{
    if n <= 0 {
        Seq::empty()
    } else {
        let rest = despawns(chunks, center, radius, n - 1);
        if unwanted(center, radius, chunks[n - 1].pos) {
            rest.push(ChunkDespawnRequest(chunks[n - 1].pos, chunks[n - 1].handle))
        } else {
            rest
        }
    }
}

/// A coordinate inside the circle is less than a radius away on each axis.
pub proof fn lemma_desired_is_near(center: ChunkCoord, radius: int, c: ChunkCoord)
    requires
        desired(center, radius, c),
    ensures
        -radius < c.x - center.x < radius,
        -radius < c.z - center.z < radius,
{
    let dx = c.x - center.x;
    let dz = c.z - center.z;
    assert(dx * dx + dz * dz < radius * radius);
    assert(-radius < dx < radius && -radius < dz < radius) by (nonlinear_arith)
        requires
            dx * dx + dz * dz < radius * radius,
            radius > 0,
    ;
}

/// Round an observer at the origin the desired coordinates are exactly those with
/// `x * x + z * z < radius * radius`; those on the circle itself are left out.
pub proof fn lemma_desired_round_origin(radius: int, c: ChunkCoord)
    requires
        radius > 0,
    ensures
        desired(ChunkCoord { x: 0, z: 0 }, radius, c) <==> c.x * c.x + c.z * c.z < radius * radius,
        c.x * c.x + c.z * c.z == radius * radius ==> !desired(ChunkCoord { x: 0, z: 0 }, radius, c),
{
}

/// Whether a chunk at `c` should be loaded for an observer in the chunk `center`.
pub fn is_desired(center: &ChunkCoord, radius: i32, c: &ChunkCoord) -> (wanted: bool)
    ensures
        wanted == desired(*center, radius as int, *c),
{
    if radius <= 0 {
        return false;
    }
    let r: u128 = radius as u128;
    assert(r * r <= 0x8000_0000 * 0x8000_0000) by (nonlinear_arith)
        requires
            0 <= r <= 0x8000_0000,
    ;
    c.distance_squared(center) < r * r
}

/// Whether a chunk loaded at `c` should leave.
pub fn is_unwanted(center: &ChunkCoord, radius: i32, c: &ChunkCoord) -> (leaves: bool)
    ensures
        leaves == unwanted(*center, radius as int, *c),
{
    let r: i128 = radius as i128;
    assert(0 <= r * r <= 0x8000_0000 * 0x8000_0000) by (nonlinear_arith)
        requires
            -0x8000_0000 <= r <= 0x8000_0000,
    ;
    c.distance_squared(center) > (r * r) as u128
}

/// Whether a spawn request for `a` goes before one for `b`.
pub fn comes_before(center: &ChunkCoord, a: &ChunkCoord, b: &ChunkCoord) -> (first: bool)
    ensures
        first == spawn_before(*center, *a, *b),
{
    let da = a.distance_squared(center);
    let db = b.distance_squared(center);
    da > db || (da == db && (a.x < b.x || (a.x == b.x && a.z < b.z)))
}

/// Puts a request for `c` at its place among ordered requests.
fn insert_request(requests: &mut Vec<ChunkSpawnRequest>, center: &ChunkCoord, c: ChunkCoord)
    requires
        spawn_ordered(*center, old(requests)@),
        !requested(old(requests)@, c),
    ensures
        spawn_ordered(*center, final(requests)@),
        final(requests)@.len() == old(requests)@.len() + 1,
        forall|d: ChunkCoord|
            #[trigger] requested(final(requests)@, d) <==> (requested(old(requests)@, d) || d == c),
{
    let ghost before = requests@;
    let mut k: usize = 0;
    while k < requests.len() && comes_before(center, &requests[k].0, &c)
        invariant
            0 <= k <= requests.len(),
            requests@ == before,
            forall|i: int| 0 <= i < k ==> spawn_before(*center, (#[trigger] before[i]).0, c),
        decreases requests.len() - k,
    {
        k = k + 1;
    }
    requests.insert(k, ChunkSpawnRequest(c));
    proof {
        let after = requests@;
        assert forall|j: int| k <= j < before.len() implies spawn_before(
            *center,
            c,
            (#[trigger] before[j]).0,
        ) by {
            assert(!spawn_before(*center, before[k as int].0, c));
            assert(before[k as int].0 != c);
            if k < j {
                assert(spawn_before(*center, before[k as int].0, before[j].0));
            }
        }
        assert forall|i: int, j: int| 0 <= i < j < after.len() implies spawn_before(
            *center,
            (#[trigger] after[i]).0,
            (#[trigger] after[j]).0,
        ) by {
            if j < k {
                assert(after[i] == before[i] && after[j] == before[j]);
            } else if j == k {
                assert(after[i] == before[i]);
            } else if i < k {
                assert(after[i] == before[i] && after[j] == before[j - 1]);
            } else if i == k {
                assert(after[j] == before[j - 1]);
            } else {
                assert(after[i] == before[i - 1] && after[j] == before[j - 1]);
            }
        }
        assert forall|d: ChunkCoord| #[trigger]
            requested(after, d) <==> (requested(before, d) || d == c) by {
            if requested(after, d) {
                let i = choose|i: int| 0 <= i < after.len() && (#[trigger] after[i]).0 == d;
                if i < k {
                    assert(before[i].0 == d);
                } else if i > k {
                    assert(before[i - 1].0 == d);
                }
            }
            if requested(before, d) {
                let i = choose|i: int| 0 <= i < before.len() && (#[trigger] before[i]).0 == d;
                if i < k {
                    assert(after[i].0 == d);
                } else {
                    assert(after[i + 1].0 == d);
                }
            }
            if d == c {
                assert(after[k as int].0 == d);
            }
        }
    }
}

/// The spawn requests of a tick: one for every coordinate strictly inside the circle
/// round `center` at which no chunk is loaded, the farthest first.
pub fn spawn_requests(center: ChunkCoord, radius: i32, world: &VoxelWorld) -> (requests: Vec<
    ChunkSpawnRequest,
>)
    requires
        world.wf(),
    ensures
        spawn_ordered(center, requests@),
        forall|c: ChunkCoord|
            #[trigger] requested(requests@, c) <==> (desired(center, radius as int, c)
                && !world@.contains(c)),
{
    let mut requests: Vec<ChunkSpawnRequest> = Vec::new();
    if radius <= 0 {
        return requests;
    }
    let r: i64 = radius as i64;
    let cx: i64 = center.x as i64;
    let cz: i64 = center.z as i64;
    let mut dx: i64 = -r;
    proof {
        assert forall|c: ChunkCoord| #[trigger]
            requested(requests@, c) <==> (desired(center, radius as int, c) && !world@.contains(c)
                && scanned(center, c, dx as int, -r as int)) by {
            if desired(center, radius as int, c) {
                lemma_desired_is_near(center, radius as int, c);
            }
        }
    }
    while dx <= r
        invariant
            world.wf(),
            radius > 0,
            r == radius,
            cx == center.x,
            cz == center.z,
            -r <= dx <= r + 1,
            spawn_ordered(center, requests@),
            forall|c: ChunkCoord|
                #[trigger] requested(requests@, c) <==> (desired(center, radius as int, c)
                    && !world@.contains(c) && scanned(center, c, dx as int, -r as int)),
        decreases r + 1 - dx,
    {
        let x: i64 = cx + dx;
        let mut dz: i64 = -r;
        if -0x8000_0000 <= x && x <= 0x7fff_ffff {
            while dz <= r
                invariant
                    world.wf(),
                    radius > 0,
                    r == radius,
                    cx == center.x,
                    cz == center.z,
                    -r <= dx <= r,
                    x == cx + dx,
                    -0x8000_0000 <= x <= 0x7fff_ffff,
                    -r <= dz <= r + 1,
                    spawn_ordered(center, requests@),
                    forall|c: ChunkCoord|
                        #[trigger] requested(requests@, c) <==> (desired(center, radius as int, c)
                            && !world@.contains(c) && scanned(center, c, dx as int, dz as int)),
                decreases r + 1 - dz,
            {
                let z: i64 = cz + dz;
                let ghost before = requests@;
                let mut added: bool = false;
                if -0x8000_0000 <= z && z <= 0x7fff_ffff {
                    let c = ChunkCoord { x: x as i32, z: z as i32 };
                    if is_desired(&center, radius, &c) && !world.contains(c) {
                        assert(!scanned(center, c, dx as int, dz as int));
                        insert_request(&mut requests, &center, c);
                        added = true;
                    }
                }
                proof {
                    assert forall|c: ChunkCoord| #[trigger]
                        requested(requests@, c) <==> (desired(center, radius as int, c)
                            && !world@.contains(c) && scanned(center, c, dx as int, dz + 1)) by {
                        let here = c.x - center.x == dx && c.z - center.z == dz;
                        assert(scanned(center, c, dx as int, dz + 1) <==> (scanned(
                            center,
                            c,
                            dx as int,
                            dz as int,
                        ) || here));
                        assert(requested(before, c) <==> (desired(center, radius as int, c)
                            && !world@.contains(c) && scanned(center, c, dx as int, dz as int)));
                        if here {
                            assert(c == ChunkCoord { x: x as i32, z: z as i32 });
                        }
                    }
                }
                dz = dz + 1;
            }
        }
        proof {
            assert forall|c: ChunkCoord| #[trigger]
                requested(requests@, c) <==> (desired(center, radius as int, c)
                    && !world@.contains(c) && scanned(center, c, dx + 1, -r as int)) by {
                if desired(center, radius as int, c) {
                    lemma_desired_is_near(center, radius as int, c);
                }
            }
        }
        dx = dx + 1;
    }
    proof {
        assert forall|c: ChunkCoord| #[trigger]
            requested(requests@, c) <==> (desired(center, radius as int, c) && !world@.contains(
                c,
            )) by {
            if desired(center, radius as int, c) {
                lemma_desired_is_near(center, radius as int, c);
            }
        }
    }
    requests
}

/// The despawn requests of a tick: one for every loaded chunk strictly outside the
/// circle round `center`, in the order of the registry.
pub fn despawn_requests(center: ChunkCoord, radius: i32, world: &VoxelWorld) -> (requests: Vec<
    ChunkDespawnRequest,
>)
    ensures
        requests@ == despawns(world@.chunks, center, radius as int, world@.chunks.len() as int),
{
    let mut requests: Vec<ChunkDespawnRequest> = Vec::new();
    let n = world.len();
    let mut i: usize = 0;
    while i < n
        invariant
            0 <= i <= n,
            n == world@.chunks.len(),
            requests@ == despawns(world@.chunks, center, radius as int, i as int),
        decreases n - i,
    {
        let (handle, pos, _state) = world.entry_at(i);
        if is_unwanted(&center, radius, &pos) {
            requests.push(ChunkDespawnRequest(pos, handle));
        }
        i = i + 1;
    }
    requests
}

/// The scheduler's work of one tick. The observer stands over the lattice column
/// `(x, z)`; the chunk that holds it is the centre of a circle of `radius` chunks.
/// Every coordinate strictly inside the circle at which nothing is loaded gets a
/// spawn request, the farthest first, and every loaded chunk strictly outside gets
/// a despawn request.
pub fn update_visible_chunks(x: i32, z: i32, radius: i32, world: &VoxelWorld) -> (requests: (
    Vec<ChunkSpawnRequest>,
    Vec<ChunkDespawnRequest>,
))
    requires
        world.wf(),
    ensures
        ({
            let center = observer_chunk(x, z);
            &&& spawn_ordered(center, requests.0@)
            &&& forall|c: ChunkCoord|
                #[trigger] requested(requests.0@, c) <==> (desired(center, radius as int, c)
                    && !world@.contains(c))
            &&& requests.1@ == despawns(
                world@.chunks,
                center,
                radius as int,
                world@.chunks.len() as int,
            )
        }),
{
    let center = get_chunk_indices(x, z);
    (spawn_requests(center, radius, world), despawn_requests(center, radius, world))
}

/// The chunk that holds the lattice column `(x, z)`.
pub open spec fn observer_chunk(x: i32, z: i32) -> ChunkCoord {
    ChunkCoord {
        x: crate::coords::floor_div(x as int, crate::CHUNK_SIZE_X as int) as i32,
        z: crate::coords::floor_div(z as int, crate::CHUNK_SIZE_Z as int) as i32,
    }
}

} // verus!
