//! The spawn/despawn queue. Requests accumulate during a frame and are
//! drained in order once per frame. Draining performs the registry updates
//! itself and reports what the caller must do outside the registry: which
//! entities to destroy and which coordinates to dispatch for background
//! generation. Consistency faults (despawn of an unregistered coordinate,
//! spawn of a registered one) either stop the drain (strict mode) or skip
//! the offending item; the behavior is the caller's choice by flag, and
//! `spec_drain` is the exact reference for both modes.

use vstd::prelude::*;

verus! {

use crate::chunk_map::ChunkMap;
use crate::chunk_map::ChunkSlot;
use crate::chunk_map::Handle;

/// What a queued request asks for.
#[derive(Clone, Copy, PartialEq, Eq, Structural, Debug)]
pub enum QueuedAction {
    Spawn,
    Despawn,
}

/// A registry/queue consistency fault found while draining.
#[derive(Clone, Copy, PartialEq, Eq, Debug)]
pub enum QueueFault {
    /// A despawn was queued for a coordinate that is not registered.
    DespawnMissing([i32; 2]),
    /// A spawn was queued for a coordinate that is already registered.
    DuplicateSpawn([i32; 2]),
}

/// Everything one drain produces: the registry afterwards, the entities to
/// destroy, the coordinates to dispatch, and the fault that stopped a
/// strict drain, if any.
pub struct DrainModel {
    pub map: Map<[i32; 2], ChunkSlot>,
    pub despawns: Seq<([i32; 2], Handle)>,
    pub spawns: Seq<[i32; 2]>,
    pub fault: Option<QueueFault>,
}

/// The drain semantics, item by item in queue order.
///
/// Despawn: an unregistered coordinate is a fault (strict mode stops with
/// it; otherwise the item is skipped); a pending slot is skipped cleanly
/// (nothing real to destroy yet); a ready slot leaves the registry and its
/// handle is reported for destruction. Spawn: a registered coordinate is a
/// duplicate-spawn fault (same policy); otherwise a pending slot is
/// registered at once and the coordinate is reported for dispatch.
pub open spec fn spec_drain(
    items: Seq<([i32; 2], QueuedAction)>,
    m: Map<[i32; 2], ChunkSlot>,
    strict: bool,
) -> DrainModel
    decreases items.len(),
{
    if items.len() == 0 {
        DrainModel { map: m, despawns: Seq::empty(), spawns: Seq::empty(), fault: None }
    } else {
        let c = items[0].0;
        let rest = items.drop_first();
        match items[0].1 {
            QueuedAction::Despawn => {
                if !m.dom().contains(c) {
                    if strict {
                        DrainModel {
                            map: m,
                            despawns: Seq::empty(),
                            spawns: Seq::empty(),
                            fault: Some(QueueFault::DespawnMissing(c)),
                        }
                    } else {
                        spec_drain(rest, m, strict)
                    }
                } else {
                    match m[c] {
                        ChunkSlot::Pending => spec_drain(rest, m, strict),
                        ChunkSlot::Ready(h) => {
                            let sub = spec_drain(rest, m.remove(c), strict);
                            DrainModel {
                                map: sub.map,
                                despawns: Seq::empty().push((c, h)) + sub.despawns,
                                spawns: sub.spawns,
                                fault: sub.fault,
                            }
                        },
                    }
                }
            },
            QueuedAction::Spawn => {
                if m.dom().contains(c) {
                    if strict {
                        DrainModel {
                            map: m,
                            despawns: Seq::empty(),
                            spawns: Seq::empty(),
                            fault: Some(QueueFault::DuplicateSpawn(c)),
                        }
                    } else {
                        spec_drain(rest, m, strict)
                    }
                } else {
                    let sub = spec_drain(rest, m.insert(c, ChunkSlot::Pending), strict);
                    DrainModel {
                        map: sub.map,
                        despawns: sub.despawns,
                        spawns: Seq::empty().push(c) + sub.spawns,
                        fault: sub.fault,
                    }
                }
            },
        }
    }
}

/// The pending spawn/despawn queue.
pub struct ChunkQueue {
    queue: Vec<([i32; 2], QueuedAction)>,
    /// Strict mode: a consistency fault stops the drain and is reported;
    /// otherwise the offending item is skipped and the drain continues.
    pub strict: bool,
}

impl ChunkQueue {
    /// The queued requests, oldest first.
    pub closed spec fn pending(self) -> Seq<([i32; 2], QueuedAction)> {
        self.queue@
    }

    /// The fault policy: whether a consistency fault stops the drain.
    pub closed spec fn spec_strict(self) -> bool {
        self.strict
    }

    /// An empty queue; `strict` picks the fault policy.
    pub fn new(strict: bool) -> (r: ChunkQueue)
        ensures
            r.pending().len() == 0,
            r.spec_strict() == strict,
    {
        ChunkQueue { queue: Vec::new(), strict }
    }

    /// The queued requests, oldest first, as a list.
    pub fn pending_requests(&self) -> (r: Vec<([i32; 2], QueuedAction)>)
        ensures
            r@ == self.pending(),
    {
        let mut out: Vec<([i32; 2], QueuedAction)> = Vec::new();
        let n = self.queue.len();
        let mut i: usize = 0;
        while i < n
            invariant
                n == self.queue@.len(),
                0 <= i <= n,
                out@ =~= self.queue@.subrange(0, i as int),
            decreases n - i,
        {
            out.push(self.queue[i]);
            i = i + 1;
            assert(out@ =~= self.queue@.subrange(0, i as int));
        }
        assert(self.queue@.subrange(0, n as int) =~= self.queue@);
        out
    }

    /// Queues a spawn request.
    pub fn queue_spawn(&mut self, pos: [i32; 2])
        ensures
            final(self).pending() == old(self).pending().push((pos, QueuedAction::Spawn)),
            final(self).spec_strict() == old(self).spec_strict(),
    {
        self.queue.push((pos, QueuedAction::Spawn));
    }

    /// Queues a despawn request.
    pub fn queue_despawn(&mut self, pos: [i32; 2])
        ensures
            final(self).pending() == old(self).pending().push((pos, QueuedAction::Despawn)),
            final(self).spec_strict() == old(self).spec_strict(),
    {
        self.queue.push((pos, QueuedAction::Despawn));
    }

    /// Drains every pending request in order, updating the registry, and
    /// returns the entity handles to destroy, the coordinates to dispatch
    /// for background generation (each now registered as pending), and the
    /// fault that stopped the drain in strict mode, if any. The queue is
    /// empty afterwards. The whole effect equals `spec_drain` on the queue
    /// and the registry as they were.
    pub fn dequeue_all(&mut self, chunk_map: &mut ChunkMap) -> (r: (
        Vec<([i32; 2], Handle)>,
        Vec<[i32; 2]>,
        Option<QueueFault>,
    ))
        requires
            old(chunk_map).wf(),
        ensures
            final(chunk_map).wf(),
            final(self).pending().len() == 0,
            final(self).spec_strict() == old(self).spec_strict(),
            ({
                let d = spec_drain(old(self).pending(), old(chunk_map).as_map(), old(self).spec_strict());
                &&& final(chunk_map).as_map() == d.map
                &&& r.0@ == d.despawns
                &&& r.1@ == d.spawns
                &&& r.2 == d.fault
            }),
    {
        let ghost items = self.queue@;
        let ghost m0 = chunk_map.as_map();
        let ghost strict = self.strict;
        let ghost full = spec_drain(items, m0, strict);
        let mut despawns: Vec<([i32; 2], Handle)> = Vec::new();
        let mut spawns: Vec<[i32; 2]> = Vec::new();
        let mut fault: Option<QueueFault> = None;
        let n = self.queue.len();
        let mut i: usize = 0;
        proof {
            assert(items.skip(0) =~= items);
            assert(Seq::<([i32; 2], Handle)>::empty() + full.despawns =~= full.despawns);
            assert(Seq::<[i32; 2]>::empty() + full.spawns =~= full.spawns);
        }
        while i < n && fault.is_none()
            invariant
                chunk_map.wf(),
                self.queue@ == items,
                self.strict == strict,
                n == items.len(),
                0 <= i <= n,
                full == spec_drain(items, m0, strict),
                fault.is_none() ==> ({
                    let sub = spec_drain(items.skip(i as int), chunk_map.as_map(), strict);
                    &&& full.map == sub.map
                    &&& full.despawns == despawns@ + sub.despawns
                    &&& full.spawns == spawns@ + sub.spawns
                    &&& full.fault == sub.fault
                }),
                fault.is_some() ==> ({
                    &&& full.map == chunk_map.as_map()
                    &&& full.despawns == despawns@
                    &&& full.spawns == spawns@
                    &&& full.fault == fault
                }),
            decreases n - i,
        {
            let (c, act) = self.queue[i];
            let ghost pre = chunk_map.as_map();
            let ghost rest = items.skip(i as int);
            proof {
                assert(rest[0] == items[i as int]);
                assert(rest.drop_first() =~= items.skip(i as int + 1));
            }
            match act {
                QueuedAction::Despawn => {
                    match chunk_map.get_ent(c) {
                        None => {
                            if self.strict {
                                fault = Some(QueueFault::DespawnMissing(c));
                            } else {
                                // Degraded mode: skip the offending item.
                            }
                        },
                        Some(ChunkSlot::Pending) => {
                            // Placeholder: nothing real to destroy yet.
                        },
                        Some(ChunkSlot::Ready(h)) => {
                            let ghost oldd = despawns@;
                            chunk_map.remove_ent(c, ChunkSlot::Ready(h));
                            despawns.push((c, h));
                            proof {
                                let sub = spec_drain(rest, pre, strict);
                                let sub2 = spec_drain(
                                    items.skip(i as int + 1),
                                    chunk_map.as_map(),
                                    strict,
                                );
                                assert(sub.despawns == Seq::empty().push((c, h)) + sub2.despawns);
                                assert(oldd + (Seq::empty().push((c, h)) + sub2.despawns) =~= despawns@
                                    + sub2.despawns);
                                assert(full.despawns == despawns@ + sub2.despawns);
                            }
                        },
                    }
                },
                QueuedAction::Spawn => {
                    if chunk_map.contains(c) {
                        if self.strict {
                            fault = Some(QueueFault::DuplicateSpawn(c));
                        } else {
                            // Degraded mode: skip the offending item.
                        }
                    } else {
                        let ghost oldsp = spawns@;
                        chunk_map.insert_ent(c, ChunkSlot::Pending);
                        spawns.push(c);
                        proof {
                            let sub = spec_drain(rest, pre, strict);
                            let sub2 = spec_drain(
                                items.skip(i as int + 1),
                                chunk_map.as_map(),
                                strict,
                            );
                            assert(sub.spawns == Seq::empty().push(c) + sub2.spawns);
                            assert(oldsp + (Seq::empty().push(c) + sub2.spawns) =~= spawns@
                                + sub2.spawns);
                            assert(full.spawns == spawns@ + sub2.spawns);
                        }
                    }
                },
            }
            i = i + 1;
        }
        proof {
            if fault.is_none() {
                assert(items.skip(n as int) =~= Seq::<([i32; 2], QueuedAction)>::empty());
                let sub = spec_drain(items.skip(i as int), chunk_map.as_map(), strict);
                assert(full.despawns =~= despawns@);
                assert(full.spawns =~= spawns@);
            }
        }
        self.queue.clear();
        (despawns, spawns, fault)
    }
}

} // verus!
