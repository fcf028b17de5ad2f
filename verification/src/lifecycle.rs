//! The states that a chunk passes through, and the order in which it may do so.
use vstd::prelude::*;

verus! {

/// Where a chunk stands between being asked for and being gone.
#[derive(Debug, Clone, Copy, PartialEq, Eq, Structural)]
pub enum ChunkLoadState {
    /// Spawned; waiting for its turn at the terrain generator.
    Requested,
    /// Taken off the generation queue; its terrain is being computed.
    Generating,
    /// Its terrain is laid; it may be meshed.
    Ready,
    /// Marked to leave; the next sweep removes it.
    Unloading,
    /// Gone from the registry.
    Removed,
}

impl ChunkLoadState {
    /// The place of the state on the path from `Requested` to `Removed`.
    pub open spec fn rank(self) -> int {
        match self {
            ChunkLoadState::Requested => 0,
            ChunkLoadState::Generating => 1,
            ChunkLoadState::Ready => 2,
            ChunkLoadState::Unloading => 3,
            ChunkLoadState::Removed => 4,
        }
    }

    /// Whether a chunk in state `self` may next be seen in state `next`: it stays, it
    /// takes the next step of generation, it is marked to leave, or, once marked, it
    /// is removed.
    pub open spec fn steps_to(self, next: ChunkLoadState) -> bool {
        ||| next == self
        ||| self == ChunkLoadState::Requested && next == ChunkLoadState::Generating
        ||| self == ChunkLoadState::Generating && next == ChunkLoadState::Ready
        ||| self.rank() <= 2 && next == ChunkLoadState::Unloading
        ||| self == ChunkLoadState::Unloading && next == ChunkLoadState::Removed
    }

    /// Whether a chunk in state `self` may next be seen in state `next`.
    pub fn can_step_to(self, next: ChunkLoadState) -> (ok: bool)
        ensures
            ok == self.steps_to(next),
    {
        match (self, next) {
            (ChunkLoadState::Requested, ChunkLoadState::Requested) => true,
            (ChunkLoadState::Requested, ChunkLoadState::Generating) => true,
            (ChunkLoadState::Requested, ChunkLoadState::Unloading) => true,
            (ChunkLoadState::Generating, ChunkLoadState::Generating) => true,
            (ChunkLoadState::Generating, ChunkLoadState::Ready) => true,
            (ChunkLoadState::Generating, ChunkLoadState::Unloading) => true,
            (ChunkLoadState::Ready, ChunkLoadState::Ready) => true,
            (ChunkLoadState::Ready, ChunkLoadState::Unloading) => true,
            (ChunkLoadState::Unloading, ChunkLoadState::Unloading) => true,
            (ChunkLoadState::Unloading, ChunkLoadState::Removed) => true,
            (ChunkLoadState::Removed, ChunkLoadState::Removed) => true,
            _ => false,
        }
    }
}

/// Whether each state of a trace may follow the one before it.
pub open spec fn is_lifecycle(trace: Seq<ChunkLoadState>) -> bool {
    forall|i: int| 0 <= i < trace.len() - 1 ==> (#[trigger] trace[i]).steps_to(trace[i + 1])
}

/// A step never leads back: the state after it stands no earlier on the path.
pub proof fn lemma_step_never_goes_back(from: ChunkLoadState, to: ChunkLoadState)
    requires
        from.steps_to(to),
    ensures
        from.rank() <= to.rank(),
{
}

/// Along a trace of states, each of which may follow the one before it, no state is
/// followed by an earlier one: the states seen are a subsequence of `Requested`,
/// `Generating`, `Ready`, `Unloading`, `Removed`.
pub proof fn lemma_lifecycle_is_monotone(trace: Seq<ChunkLoadState>, i: int, j: int)
    requires
        is_lifecycle(trace),
        0 <= i <= j < trace.len(),
    ensures
        trace[i].rank() <= trace[j].rank(),
    decreases j - i,
{
    if i < j {
        lemma_lifecycle_is_monotone(trace, i, j - 1);
        assert(trace[j - 1].steps_to(trace[j - 1 + 1]));
    }
}

/// A chunk that starts as `Requested` and is seen `Ready` was seen `Generating`
/// before: generation is never skipped.
pub proof fn lemma_ready_follows_generating(trace: Seq<ChunkLoadState>, j: int)
    requires
        is_lifecycle(trace),
        0 <= j < trace.len(),
        trace[0] == ChunkLoadState::Requested,
        trace[j] == ChunkLoadState::Ready,
    ensures
        exists|i: int| 0 <= i < j && trace[i] == ChunkLoadState::Generating,
    decreases j,
{
    assert(j > 0);
    assert(trace[j - 1].steps_to(trace[j - 1 + 1]));
    if trace[j - 1] == ChunkLoadState::Ready {
        lemma_ready_follows_generating(trace, j - 1);
        let i = choose|i: int| 0 <= i < j - 1 && trace[i] == ChunkLoadState::Generating;
        assert(0 <= i < j && trace[i] == ChunkLoadState::Generating);
    } else {
        assert(trace[j - 1] == ChunkLoadState::Generating);
    }
}

/// A chunk is never removed straight from a state of generation: it is seen
/// `Unloading` first.
pub proof fn lemma_removed_follows_unloading(trace: Seq<ChunkLoadState>, j: int)
    requires
        is_lifecycle(trace),
        0 <= j < trace.len(),
        trace[0] != ChunkLoadState::Removed,
        trace[j] == ChunkLoadState::Removed,
    ensures
        exists|i: int| 0 <= i < j && trace[i] == ChunkLoadState::Unloading,
    decreases j,
{
    assert(j > 0);
    assert(trace[j - 1].steps_to(trace[j - 1 + 1]));
    if trace[j - 1] == ChunkLoadState::Removed {
        lemma_removed_follows_unloading(trace, j - 1);
        let i = choose|i: int| 0 <= i < j - 1 && trace[i] == ChunkLoadState::Unloading;
        assert(0 <= i < j && trace[i] == ChunkLoadState::Unloading);
    } else {
        assert(trace[j - 1] == ChunkLoadState::Unloading);
    }
}

} // verus!
