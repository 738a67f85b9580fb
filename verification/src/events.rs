//! Queue-based event delivery with directed propagation and consumption.
//!
//! An event carries a typed payload and propagation metadata. Delivery
//! follows one of three routes over the tree: direct (target only),
//! ascending (target, then each ancestor root-ward, the bubble phase), or
//! descending (root down to the target, the capture phase). A handler may
//! consume the event, which halts every later delivery of the dispatch.
//! Pointer events find their target by hit-testing the last committed layout
//! boxes, topmost entity first (reverse paint order).

use vstd::prelude::*;
use vstd::seq_lib::*;
use crate::entity::Entity;
use crate::tree::Tree;

verus! {

/// How an event travels through the tree.
#[derive(Clone, Copy, PartialEq, Eq, Structural, Debug)]
pub enum Propagation {
    /// Delivered to the target entity only.
    Direct,
    /// Delivered to the target, then each ancestor in root-ward order.
    Up,
    /// Delivered from the root down to the target, before any bubbling.
    Down,
}

/// A typed event: payload plus propagation metadata.
pub struct Event<M> {
    pub payload: M,
    pub target: Entity,
    pub origin: Option<Entity>,
    pub propagation: Propagation,
    pub consumed: bool,
}

impl<M> Event<M> {
    /// A fresh event aimed at `target`, not yet consumed.
    pub fn new(payload: M, target: Entity, propagation: Propagation) -> (e: Event<M>)
        ensures
            e.payload == payload,
            e.target == target,
            e.propagation == propagation,
            e.origin is None,
            !e.consumed,
    {
        Event { payload, target, origin: Option::None, propagation, consumed: false }
    }

    /// Marks the event consumed, halting further propagation.
    pub fn consume(&mut self)
        ensures
            final(self).consumed,
            final(self).payload == old(self).payload,
            final(self).target == old(self).target,
            final(self).origin == old(self).origin,
            final(self).propagation == old(self).propagation,
    {
        self.consumed = true;
    }
}

/// The queue of pending events: enqueued now, dispatched once per pipeline
/// tick, discarded after delivery unless re-emitted.
pub struct EventQueue<M> {
    events: Vec<Event<M>>,
}

impl<M> EventQueue<M> {
    pub closed spec fn queued(self) -> Seq<Event<M>> {
        self.events@
    }

    pub fn new() -> (q: EventQueue<M>)
        ensures
            q.queued() == Seq::<Event<M>>::empty(),
    {
        EventQueue { events: Vec::new() }
    }

    /// Enqueues one event behind the already pending ones.
    pub fn emit(&mut self, event: Event<M>)
        ensures
            final(self).queued() == old(self).queued().push(event),
    {
        self.events.push(event);
    }

    /// Takes every pending event, in emission order, leaving the queue
    /// empty for the next tick.
    pub fn drain(&mut self) -> (r: Vec<Event<M>>)
        ensures
            r@ == old(self).queued(),
            final(self).queued() == Seq::<Event<M>>::empty(),
    {
        let mut drained: Vec<Event<M>> = Vec::new();
        core::mem::swap(&mut drained, &mut self.events);
        drained
    }

    pub fn len(&self) -> (r: usize)
        ensures
            r == self.queued().len(),
    {
        self.events.len()
    }
}

/// The delivery order for a target and a propagation mode.
pub open spec fn route_spec(tree: Tree, target: u32, mode: Propagation) -> Seq<u32> {
    let anc = if tree.in_tree(target as int) {
        tree.ancestors_spec(target as int)
    } else {
        Seq::<u32>::empty()
    };
    match mode {
        Propagation::Direct => seq![target],
        Propagation::Up => seq![target] + anc,
        Propagation::Down => (seq![target] + anc).reverse(),
    }
}

/// Computes the ordered list of entities an event will visit: the target for
/// direct delivery; target then ancestors for ascending (bubble); root down
/// to target for descending (capture).
pub fn propagation_route(tree: &Tree, target: u32, mode: Propagation) -> (r: Vec<u32>)
    requires
        tree.wf(),
    ensures
        r@ == route_spec(*tree, target, mode),
{
    let mut route: Vec<u32> = Vec::new();
    match mode {
        Propagation::Direct => {
            route.push(target);
            proof {
                assert(route@ =~= seq![target]);
            }
            route
        },
        Propagation::Up => {
            route.push(target);
            let anc = tree.ancestors_of(target);
            let mut k: usize = 0;
            while k < anc.len()
                invariant
                    k <= anc.len(),
                    route@ == seq![target] + anc@.take(k as int),
                decreases anc.len() - k,
            {
                route.push(anc[k]);
                proof {
                    assert(anc@.take(k as int).push(anc@[k as int]) =~= anc@.take(k as int + 1));
                    assert((seq![target] + anc@.take(k as int)).push(anc@[k as int]) =~= seq![
                        target,
                    ] + anc@.take(k as int + 1));
                }
                k += 1;
            }
            proof {
                assert(anc@.take(anc@.len() as int) =~= anc@);
            }
            route
        },
        Propagation::Down => {
            let anc = tree.ancestors_of(target);
            let ghost full = seq![target] + anc@;
            let mut k: usize = anc.len();
            while k > 0
                invariant
                    k <= anc.len(),
                    full == seq![target] + anc@,
                    route@.len() == anc@.len() - k,
                    forall|m: int|
                        0 <= m < route@.len() ==> route@[m] == full[full.len() - 1 - m],
                decreases k,
            {
                k -= 1;
                route.push(anc[k]);
                proof {
                    assert(full[k as int + 1] == anc@[k as int]);
                }
            }
            route.push(target);
            proof {
                assert(full[0] == target);
                assert forall|m: int| 0 <= m < route@.len() implies route@[m] == full.reverse()[m]
                    by {
                    assert(full.reverse()[m] == full[full.len() - 1 - m]);
                }
                assert(route@ =~= full.reverse());
            }
            route
        },
    }
}

/// The bubble order over a two-level ancestor chain is exact: for a root
/// `a` with child `b` and grandchild `c`, an ascending event targeting `c`
/// visits `c`, then `b`, then `a`, in that order and nothing else. Combined
/// with [`Dispatch::next`]'s guarantee that a consumed dispatch hands out no
/// further entity, a handler consuming at `b` leaves `a`'s handler unfired.
pub proof fn lemma_ascending_route_of_chain(t: Tree, a: u32, b: u32, c: u32)
    requires
        t.wf(),
        t.in_tree(a as int),
        t.in_tree(b as int),
        t.in_tree(c as int),
        t.parent_spec(a as int) is None,
        t.parent_spec(b as int) == Some(a),
        t.parent_spec(c as int) == Some(b),
    ensures
        route_spec(t, c, Propagation::Up) == seq![c, b, a],
        route_spec(t, c, Propagation::Down) == seq![a, b, c],
{
    crate::tree::lemma_ancestors_of_child(t, c as int);
    crate::tree::lemma_ancestors_of_child(t, b as int);
    crate::tree::lemma_ancestors_of_root(t, a as int);
    assert(t.ancestors_spec(c as int) =~= seq![b, a]);
    assert(route_spec(t, c, Propagation::Up) =~= seq![c, b, a]);
    assert((seq![c] + t.ancestors_spec(c as int)).reverse() =~= seq![a, b, c]);
}

/// The state machine of one event delivery: a fixed route, a cursor, and a
/// consumption flag. Once consumed, no further entity is handed out.
pub struct Dispatch {
    route: Vec<u32>,
    pos: usize,
    consumed: bool,
}

impl Dispatch {
    pub closed spec fn route_of(self) -> Seq<u32> {
        self.route@
    }

    pub closed spec fn pos_of(self) -> nat {
        self.pos as nat
    }

    pub closed spec fn consumed_of(self) -> bool {
        self.consumed
    }

    /// Starts a delivery over `route`, at its first entry, unconsumed.
    pub fn new(route: Vec<u32>) -> (d: Dispatch)
        ensures
            d.route_of() == route@,
            d.pos_of() == 0,
            !d.consumed_of(),
    {
        Dispatch { route, pos: 0, consumed: false }
    }

    /// Hands out the next entity of the route, or `None` when the route is
    /// exhausted or the event was consumed: after consumption no handler
    /// further along the route ever fires.
    pub fn next(&mut self) -> (r: Option<u32>)
        ensures
            final(self).route_of() == old(self).route_of(),
            final(self).consumed_of() == old(self).consumed_of(),
            old(self).consumed_of() ==> r is None && final(self).pos_of() == old(self).pos_of(),
            !old(self).consumed_of() && old(self).pos_of() < old(self).route_of().len() ==> r
                == Some(old(self).route_of()[old(self).pos_of() as int]) && final(self).pos_of()
                == old(self).pos_of() + 1,
            !old(self).consumed_of() && old(self).pos_of() >= old(self).route_of().len() ==> r
                is None && final(self).pos_of() == old(self).pos_of(),
    {
        if self.consumed || self.pos >= self.route.len() {
            return Option::None;
        }
        let t = self.route[self.pos];
        self.pos = self.pos + 1;
        Option::Some(t)
    }

    /// Marks the in-flight event consumed: the current phase halts and every
    /// later `next` returns `None`.
    pub fn consume(&mut self)
        ensures
            final(self).consumed_of(),
            final(self).route_of() == old(self).route_of(),
            final(self).pos_of() == old(self).pos_of(),
    {
        self.consumed = true;
    }
}

/// An axis-aligned box of computed layout geometry, in whole pixels.
#[derive(Clone, Copy, PartialEq, Eq, Structural, Debug)]
pub struct BoundingBox {
    pub x: i32,
    pub y: i32,
    pub w: i32,
    pub h: i32,
}

/// Whether the point lies inside the box.
pub open spec fn box_contains(b: BoundingBox, px: int, py: int) -> bool {
    &&& b.x <= px < b.x + b.w
    &&& b.y <= py < b.y + b.h
}

/// The topmost box (reverse paint order: last drawn first) containing the
/// point, among `boxes[..k]`.
pub open spec fn hit_spec(boxes: Seq<(u32, BoundingBox)>, k: int, px: int, py: int) -> Option<u32>
    decreases k,
{
    if k <= 0 || k > boxes.len() {
        Option::None
    } else if box_contains(boxes[k - 1].1, px, py) {
        Option::Some(boxes[k - 1].0)
    } else {
        hit_spec(boxes, k - 1, px, py)
    }
}

/// Hit-testing against the last committed layout boxes, given in paint
/// order: of all boxes containing the point, the one painted last (topmost)
/// wins.
pub fn hit_test(boxes: &Vec<(u32, BoundingBox)>, px: i32, py: i32) -> (r: Option<u32>)
    ensures
        r == hit_spec(boxes@, boxes@.len() as int, px as int, py as int),
{
    let mut k: usize = boxes.len();
    while k > 0
        invariant
            k <= boxes.len(),
            hit_spec(boxes@, boxes@.len() as int, px as int, py as int) == hit_spec(
                boxes@,
                k as int,
                px as int,
                py as int,
            ),
        decreases k,
    {
        let (e, b) = boxes[k - 1];
        if (px as i64) >= (b.x as i64) && (px as i64) < (b.x as i64) + (b.w as i64) && (py as i64)
            >= (b.y as i64) && (py as i64) < (b.y as i64) + (b.h as i64) {
            return Option::Some(e);
        }
        k -= 1;
    }
    Option::None
}

} // verus!
