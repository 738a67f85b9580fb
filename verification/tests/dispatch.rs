use vizia_core::entity::Entity;
use vizia_core::events::BoundingBox;
use vizia_core::events::Dispatch;
use vizia_core::events::Event;
use vizia_core::events::EventQueue;
use vizia_core::events::Propagation;
use vizia_core::events::hit_test;
use vizia_core::events::propagation_route;
use vizia_core::tree::Tree;

fn three_level_chain() -> Tree {
    // A(0) -> B(1) -> C(2)
    let mut tree = Tree::new();
    tree.add_root(0);
    tree.add_child(0, 1);
    tree.add_child(1, 2);
    tree
}

#[test]
fn direct_route_is_the_target_alone() {
    let tree = three_level_chain();
    assert_eq!(propagation_route(&tree, 2, Propagation::Direct), vec![2]);
}

#[test]
fn ascending_route_bubbles_rootward() {
    let tree = three_level_chain();
    assert_eq!(propagation_route(&tree, 2, Propagation::Up), vec![2, 1, 0]);
}

#[test]
fn descending_route_captures_from_the_root() {
    let tree = three_level_chain();
    assert_eq!(propagation_route(&tree, 2, Propagation::Down), vec![0, 1, 2]);
}

#[test]
fn consumption_at_middle_handler_stops_the_ancestor() {
    // Ascending dispatch from C over A -> B -> C: the handler on B consumes,
    // so A's handler never fires.
    let tree = three_level_chain();
    let route = propagation_route(&tree, 2, Propagation::Up);
    let mut dispatch = Dispatch::new(route);
    let mut delivered: Vec<u32> = Vec::new();
    while let Some(target) = dispatch.next() {
        delivered.push(target);
        if target == 1 {
            // B's handler marks the event consumed.
            dispatch.consume();
        }
    }
    assert_eq!(delivered, vec![2, 1]);
    assert!(!delivered.contains(&0));
}

#[test]
fn unconsumed_dispatch_reaches_the_root() {
    let tree = three_level_chain();
    let route = propagation_route(&tree, 2, Propagation::Up);
    let mut dispatch = Dispatch::new(route);
    let mut delivered: Vec<u32> = Vec::new();
    while let Some(target) = dispatch.next() {
        delivered.push(target);
    }
    assert_eq!(delivered, vec![2, 1, 0]);
}

#[test]
fn event_carries_metadata_and_consumption() {
    let target = Entity::new(3, 0);
    let mut event = Event::new(7u32, target, Propagation::Up);
    assert_eq!(event.payload, 7);
    assert_eq!(event.target, target);
    assert!(!event.consumed);
    event.consume();
    assert!(event.consumed);
    assert_eq!(event.propagation, Propagation::Up);
}

#[test]
fn hit_test_picks_the_topmost_overlapping_box() {
    let boxes = vec![
        (1u32, BoundingBox { x: 0, y: 0, w: 100, h: 100 }),
        (2u32, BoundingBox { x: 10, y: 10, w: 50, h: 50 }),
    ];
    // Both boxes contain (20, 20); the one painted last wins.
    assert_eq!(hit_test(&boxes, 20, 20), Some(2));
    // Only the larger box contains (80, 80).
    assert_eq!(hit_test(&boxes, 80, 80), Some(1));
    // No box contains a point outside all of them.
    assert_eq!(hit_test(&boxes, 200, 200), None);
    // Edges are half-open: the right/bottom edge is outside.
    assert_eq!(hit_test(&boxes, 100, 0), None);
}

#[test]
fn queue_drains_in_emission_order_once_per_tick() {
    let mut queue: EventQueue<u32> = EventQueue::new();
    queue.emit(Event::new(1u32, Entity::new(0, 0), Propagation::Direct));
    queue.emit(Event::new(2u32, Entity::new(1, 0), Propagation::Up));
    assert_eq!(queue.len(), 2);
    let drained = queue.drain();
    assert_eq!(drained.len(), 2);
    assert_eq!(drained[0].payload, 1);
    assert_eq!(drained[1].payload, 2);
    // Delivered events are discarded: the next tick starts empty.
    assert_eq!(queue.len(), 0);
}
