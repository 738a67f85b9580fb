//! Generational entity identifiers and the store that allocates them.
//!
//! An [`Entity`] is an opaque pair of a slot index and a generation counter.
//! The [`EntityManager`] reuses freed slots, bumping the slot's generation so
//! that identifiers handed out before the free can never again resolve to a
//! live node. A slot whose generation counter would overflow is retired and
//! never reused.

use vstd::prelude::*;

verus! {

/// A generational identifier for a tree node. It owns no data; all
/// entity-associated state lives in sparse side tables keyed by the index.
#[derive(Clone, Copy, PartialEq, Eq, Structural, Debug, Hash)]
pub struct Entity {
    index: u32,
    generation: u32,
}

impl Entity {
    /// The identifier of the root node, created first by every store.
    pub fn root() -> (r: Entity)
        ensures
            r.index_spec() == 0,
            r.generation_spec() == 0,
    {
        Entity { index: 0, generation: 0 }
    }

    pub fn new(index: u32, generation: u32) -> (r: Entity)
        ensures
            r.index_spec() == index,
            r.generation_spec() == generation,
    {
        Entity { index, generation }
    }

    pub closed spec fn index_spec(self) -> u32 {
        self.index
    }

    pub closed spec fn generation_spec(self) -> u32 {
        self.generation
    }

    /// The slot index of this identifier.
    pub fn index(self) -> (r: u32)
        ensures
            r == self.index_spec(),
    {
        self.index
    }

    /// The generation this identifier was allocated under.
    pub fn generation(self) -> (r: u32)
        ensures
            r == self.generation_spec(),
    {
        self.generation
    }
}

/// Allocator of generational entity identifiers.
///
/// Each slot records its current generation and whether it is live. Freed
/// slots are kept on a free list and reused with the already-bumped
/// generation, so a stale identifier (one allocated under an earlier
/// generation) is treated as dead by every operation.
pub struct EntityManager {
    generations: Vec<u32>,
    alive: Vec<bool>,
    free: Vec<u32>,
}

impl EntityManager {
    /// All internal consistency conditions of the store: the tables are
    /// parallel, the free list holds exactly the dead, unretired slots,
    /// each at most once.
    pub closed spec fn wf(self) -> bool {
        &&& self.alive@.len() == self.generations@.len()
        &&& self.generations@.len() <= u32::MAX as nat
        &&& forall|k: int|
            0 <= k < self.free@.len() ==> (#[trigger] self.free@[k]) < self.generations@.len()
                && !self.alive@[self.free@[k] as int]
                && self.generations@[self.free@[k] as int] < u32::MAX
        &&& forall|k1: int, k2: int|
            0 <= k1 < self.free@.len() && 0 <= k2 < self.free@.len() && k1 != k2
                ==> self.free@[k1] != self.free@[k2]
        &&& forall|i: int|
            0 <= i < self.generations@.len() && !(#[trigger] self.alive@[i])
                && self.generations@[i] < u32::MAX ==> self.free@.contains(i as u32)
        &&& forall|i: int|
            0 <= i < self.generations@.len() && (#[trigger] self.alive@[i])
                ==> self.generations@[i] < u32::MAX
    }

    /// Number of slots ever allocated (live, free, or retired).
    pub closed spec fn slot_count(self) -> nat {
        self.generations@.len()
    }

    /// The current generation of a slot.
    pub closed spec fn slot_generation(self, index: int) -> u32 {
        self.generations@[index]
    }

    /// Whether the slot at `i` currently hosts a live node, whatever the
    /// generation of the identifier one holds for it.
    pub closed spec fn index_alive(self, i: int) -> bool {
        0 <= i < self.generations@.len() && self.alive@[i]
    }

    /// Whether `e` resolves to a live node: its slot exists, is live, and the
    /// stored generation matches the identifier's generation exactly.
    pub closed spec fn is_alive_spec(self, e: Entity) -> bool {
        &&& (e.index as nat) < self.generations@.len()
        &&& self.alive@[e.index as int]
        &&& self.generations@[e.index as int] == e.generation
    }

    /// An empty store: no slots, nothing live.
    pub fn new() -> (r: EntityManager)
        ensures
            r.wf(),
            r.slot_count() == 0,
            forall|e: Entity| !r.is_alive_spec(e),
    {
        EntityManager { generations: Vec::new(), alive: Vec::new(), free: Vec::new() }
    }

    /// Allocates a fresh identifier in O(1): reuses a freed slot under its
    /// bumped generation if one exists, otherwise appends a new slot at
    /// generation zero. Every identifier that was live stays live and is
    /// distinct from the new one.
    pub fn create(&mut self) -> (r: Entity)
        requires
            old(self).wf(),
            old(self).slot_count() < u32::MAX as nat,
        ensures
            final(self).wf(),
            final(self).is_alive_spec(r),
            !old(self).is_alive_spec(r),
            r.index_spec() < final(self).slot_count(),
            forall|e: Entity|
                old(self).is_alive_spec(e) ==> final(self).is_alive_spec(e) && e != r,
            forall|e: Entity| final(self).is_alive_spec(e) && e != r ==> old(self).is_alive_spec(e),
            forall|i: int|
                0 <= i < old(self).slot_count() ==> final(self).slot_generation(i)
                    == old(self).slot_generation(i),
            old(self).slot_count() <= final(self).slot_count(),
            final(self).slot_count() <= old(self).slot_count() + 1,
            final(self).index_alive(r.index_spec() as int),
            !old(self).index_alive(r.index_spec() as int),
            forall|i: int|
                i != r.index_spec() as int ==> final(self).index_alive(i) == old(
                    self,
                ).index_alive(i),
    {
        match self.free.pop() {
            Some(index) => {
                let gen = self.generations[index as usize];
                self.alive.set(index as usize, true);
                proof {
                    assert forall|e: Entity|
                        old(self).is_alive_spec(e) implies final(self).is_alive_spec(e) && e
                        != (Entity { index, generation: gen }) by {
                        assert(e.index != index);
                    }
                    assert forall|i: int|
                        0 <= i < self.generations@.len() && !(#[trigger] self.alive@[i])
                            && self.generations@[i] < u32::MAX implies self.free@.contains(
                        i as u32,
                    ) by {
                        assert(old(self).free@.contains(i as u32));
                        let k = choose|k: int|
                            0 <= k < old(self).free@.len() && old(self).free@[k] == i as u32;
                        assert(old(self).free@[old(self).free@.len() - 1] == index);
                        assert(k < old(self).free@.len() - 1);
                        assert(self.free@[k] == i as u32);
                    }
                }
                Entity { index, generation: gen }
            },
            None => {
                let index = self.generations.len() as u32;
                self.generations.push(0);
                self.alive.push(true);
                Entity { index, generation: 0 }
            },
        }
    }

    /// Whether `e` currently resolves to a live node. O(1); an identifier
    /// with a stale generation or an out-of-range index is simply dead.
    pub fn is_alive(&self, e: Entity) -> (r: bool)
        requires
            self.wf(),
        ensures
            r == self.is_alive_spec(e),
    {
        let idx = e.index as usize;
        idx < self.alive.len() && self.alive[idx] && self.generations[idx] == e.generation
    }

    /// Frees the slot of `e` and bumps its generation, so that `e` and every
    /// other identifier of that slot is dead afterwards. Destroying an
    /// already-dead identifier is a no-op, not an error, to tolerate
    /// reentrant teardown. Liveness of every other slot is untouched.
    pub fn destroy(&mut self, e: Entity)
        requires
            old(self).wf(),
        ensures
            final(self).wf(),
            !final(self).is_alive_spec(e),
            final(self).slot_count() == old(self).slot_count(),
            forall|e2: Entity|
                e2.index_spec() != e.index_spec() ==> final(self).is_alive_spec(e2)
                    == old(self).is_alive_spec(e2),
            old(self).is_alive_spec(e) ==> forall|e2: Entity|
                e2.index_spec() == e.index_spec() ==> !final(self).is_alive_spec(e2),
            !old(self).is_alive_spec(e) ==> forall|e2: Entity|
                final(self).is_alive_spec(e2) == old(self).is_alive_spec(e2),
            old(self).is_alive_spec(e) ==> final(self).slot_generation(e.index_spec() as int)
                > e.generation_spec(),
            forall|i: int|
                0 <= i < old(self).slot_count() && i != e.index_spec() as int
                    ==> final(self).slot_generation(i) == old(self).slot_generation(i),
            forall|i: int|
                0 <= i < old(self).slot_count() ==> final(self).slot_generation(i)
                    >= old(self).slot_generation(i),
            !final(self).index_alive(e.index_spec() as int) || !old(self).is_alive_spec(e),
            forall|i: int|
                i != e.index_spec() as int ==> final(self).index_alive(i) == old(
                    self,
                ).index_alive(i),
            !old(self).is_alive_spec(e) ==> final(self).index_alive(e.index_spec() as int) == old(
                self,
            ).index_alive(e.index_spec() as int),
    {
        let idx = e.index as usize;
        if idx < self.alive.len() && self.alive[idx] && self.generations[idx] == e.generation {
            self.alive.set(idx, false);
            let gen = self.generations[idx];
            if gen < u32::MAX - 1 {
                self.generations.set(idx, gen + 1);
                proof {
                    // The slot was live, so the free list cannot already hold it.
                    if old(self).free@.contains(e.index) {
                        let k = choose|k: int|
                            0 <= k < old(self).free@.len() && old(self).free@[k] == e.index;
                        assert(!old(self).alive@[e.index as int]);
                    }
                }
                self.free.push(e.index);
                proof {
                    assert forall|i: int|
                        0 <= i < self.generations@.len() && !(#[trigger] self.alive@[i])
                            && self.generations@[i] < u32::MAX implies self.free@.contains(
                        i as u32,
                    ) by {
                        if i == e.index as int {
                            assert(self.free@[self.free@.len() - 1] == e.index);
                        } else {
                            assert(old(self).free@.contains(i as u32));
                            let k = choose|k: int|
                                0 <= k < old(self).free@.len() && old(self).free@[k] == i as u32;
                            assert(self.free@[k] == i as u32);
                        }
                    }
                }
            } else {
                // Retire the slot: one final bump, never reused.
                self.generations.set(idx, u32::MAX);
                proof {
                    assert forall|k: int|
                        0 <= k < self.free@.len() implies (#[trigger] self.free@[k])
                        < self.generations@.len() && !self.alive@[self.free@[k] as int]
                        && self.generations@[self.free@[k] as int] < u32::MAX by {
                        assert(old(self).free@[k] != e.index);
                    }
                }
            }
        }
    }

    /// Frees whatever lives in slot `i`, bumping its generation, so that
    /// every identifier of that slot is dead afterwards. A dead or absent
    /// slot is left alone.
    pub fn destroy_index(&mut self, i: u32)
        requires
            old(self).wf(),
        ensures
            final(self).wf(),
            !final(self).index_alive(i as int),
            final(self).slot_count() == old(self).slot_count(),
            forall|e2: Entity| e2.index_spec() == i ==> !final(self).is_alive_spec(e2),
            forall|e2: Entity|
                e2.index_spec() != i ==> final(self).is_alive_spec(e2) == old(self).is_alive_spec(
                    e2,
                ),
            forall|j: int|
                j != i as int ==> final(self).index_alive(j) == old(self).index_alive(j),
            !old(self).index_alive(i as int) ==> forall|e2: Entity|
                final(self).is_alive_spec(e2) == old(self).is_alive_spec(e2),
    {
        let idx = i as usize;
        if idx < self.alive.len() && self.alive[idx] {
            let e = Entity { index: i, generation: self.generations[idx] };
            self.destroy(e);
        }
    }
}

/// A well-formed store never exceeds the identifier space.
pub proof fn lemma_store_bounds(m: EntityManager)
    requires
        m.wf(),
    ensures
        m.slot_count() <= u32::MAX as nat,
{
}

/// A live identifier means its slot is live and within the store.
pub proof fn lemma_alive_implies_index_alive(m: EntityManager, e: Entity)
    requires
        m.is_alive_spec(e),
    ensures
        m.index_alive(e.index_spec() as int),
        (e.index_spec() as nat) < m.slot_count(),
{
}

/// An identifier whose generation differs from its slot's current generation
/// is stale: the store treats it as not alive.
pub proof fn lemma_stale_id_is_dead(m: EntityManager, e: Entity)
    requires
        (e.index_spec() as nat) < m.slot_count(),
        e.generation_spec() != m.slot_generation(e.index_spec() as int),
    ensures
        !m.is_alive_spec(e),
{
}

/// Two live identifiers on the same slot carry the same generation: a stale
/// identifier can therefore never alias a newly allocated entity at the same
/// index, because allocation hands out the slot's current generation only.
pub proof fn lemma_no_alias_per_slot(m: EntityManager, e1: Entity, e2: Entity)
    requires
        m.is_alive_spec(e1),
        m.is_alive_spec(e2),
        e1.index_spec() == e2.index_spec(),
    ensures
        e1 == e2,
{
}

} // verus!
