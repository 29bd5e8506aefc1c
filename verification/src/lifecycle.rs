//! Completion handling for background chunk work, and the initial load
//! state machine. When a background generation+meshing task finishes, its
//! chunk is materialized only if the player is still within render
//! distance of it; otherwise the result is discarded and the pending
//! registry slot cleared. During the initial load, a counter steps the
//! load state from `Loading` to `MeshesLoaded` once the whole window has
//! materialized; `Complete` is reached when every registry slot holds a
//! real entity.

use vstd::prelude::*;

verus! {

use crate::chunk_map::ChunkMap;
use crate::chunk_map::ChunkSlot;
use crate::chunk_map::Handle;
use crate::chunk_map::MapEntry;
use crate::window::in_window;

/// The phases of the initial world load.
#[derive(Clone, Copy, PartialEq, Eq, Structural, Debug, Hash)]
pub enum InitialChunkLoadState {
    /// Background tasks for the initial window are still finishing.
    Loading,
    /// Every initial chunk has materialized; entities may still settle.
    MeshesLoaded,
    /// The world is fully up.
    Complete,
}

/// How many chunks the initial window holds: the full square of side
/// `2 * render_distance + 1`.
pub fn expected_initial_chunks(render_distance: i32) -> (r: u64)
    requires
        1 <= render_distance <= crate::window::RENDER_DISTANCE_LIMIT,
    ensures
        r == (2 * render_distance + 1) * (2 * render_distance + 1),
{
    let side = 2 * (render_distance as u64) + 1;
    proof {
        assert(side * side <= 0x10_0000_0000) by (nonlinear_arith)
            requires
                side == 2 * (render_distance as int) + 1,
                1 <= render_distance <= crate::window::RENDER_DISTANCE_LIMIT,
        ;
    }
    side * side
}

/// Steps the load counter and state after one chunk materializes: during
/// `Loading`, the counter advances and the state flips to `MeshesLoaded`
/// exactly when the counter reaches the expected window size; outside
/// `Loading` nothing changes.
pub fn note_chunk_loaded(state: InitialChunkLoadState, loaded: u64, expected: u64) -> (r: (
    u64,
    InitialChunkLoadState,
))
    requires
        loaded < expected,
    ensures
        state == InitialChunkLoadState::Loading ==> r.0 == loaded + 1 && r.1 == (if loaded + 1
            == expected {
            InitialChunkLoadState::MeshesLoaded
        } else {
            InitialChunkLoadState::Loading
        }),
        state != InitialChunkLoadState::Loading ==> r == (loaded, state),
{
    if matches!(state, InitialChunkLoadState::Loading) {
        let n = loaded + 1;
        if n == expected {
            (n, InitialChunkLoadState::MeshesLoaded)
        } else {
            (n, InitialChunkLoadState::Loading)
        }
    } else {
        (loaded, state)
    }
}

/// Handles one finished background result: if the player has moved so
/// that `cords` now falls outside the render window, the pending slot is
/// cleared and the result is to be discarded (`false`); otherwise the
/// chunk's entity takes the slot (`true`). Every other coordinate keeps
/// its slot.
pub fn accept_completed_chunk(
    chunk_map: &mut ChunkMap,
    current_chunk: [i32; 2],
    cords: [i32; 2],
    render_distance: i32,
    handle: Handle,
) -> (accepted: bool)
    requires
        old(chunk_map).wf(),
        old(chunk_map).spec_contains(cords),
        old(chunk_map).spec_slot(cords) == ChunkSlot::Pending,
        1 <= render_distance,
    ensures
        final(chunk_map).wf(),
        accepted == in_window(cords, current_chunk, render_distance as int),
        accepted ==> final(chunk_map).spec_contains(cords) && final(chunk_map).spec_slot(cords)
            == ChunkSlot::Ready(handle),
        !accepted ==> !final(chunk_map).spec_contains(cords),
        old(chunk_map).agrees_except(*final(chunk_map), cords),
{
    let dx = cords[0] as i64 - current_chunk[0] as i64;
    let dz = cords[1] as i64 - current_chunk[1] as i64;
    let rd = render_distance as i64;
    if dx > rd || dx < -rd || dz > rd || dz < -rd {
        chunk_map.remove_ent(cords, ChunkSlot::Pending);
        false
    } else {
        chunk_map.change_ent(cords, ChunkSlot::Ready(handle));
        true
    }
}

/// Whether every registered chunk has materialized (no pending slot is
/// left), the condition for entering `Complete`.
pub fn all_chunks_materialized(chunk_map: &ChunkMap) -> (r: bool)
    requires
        chunk_map.wf(),
    ensures
        r <==> forall|i: int|
            0 <= i < chunk_map.view_entries().len() ==> (#[trigger] chunk_map.view_entries()[i]).1
                != ChunkSlot::Pending,
{
    let entries = chunk_map.iter();
    let n = entries.len();
    let mut i: usize = 0;
    while i < n
        invariant
            entries@ == chunk_map.view_entries(),
            n == entries@.len(),
            0 <= i <= n,
            forall|j: int| 0 <= j < i ==> (#[trigger] entries@[j]).1 != ChunkSlot::Pending,
        decreases n - i,
    {
        if matches!(entries[i].1, ChunkSlot::Pending) {
            return false;
        }
        i = i + 1;
    }
    true
}

} // verus!
