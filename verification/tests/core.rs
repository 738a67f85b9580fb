use vizia_core::context::Context;
use vizia_core::entity::EntityManager;
use vizia_core::style::Color;
use vizia_core::tree::Tree;

#[test]
fn created_then_destroyed_is_dead_with_no_records() {
    let (mut cx, root) = Context::new();
    let child = cx.create(root).unwrap();
    let idx = child.index();
    cx.classes.insert(idx, vec!["warning".to_string()]);
    cx.background_color.set_inline(idx, Color::rgb(255, 0, 0));
    cx.names.insert(idx, "close button".to_string());
    assert!(cx.is_alive(child));
    assert!(cx.tree.contains(idx));

    cx.destroy(child);

    assert!(!cx.is_alive(child));
    assert!(!cx.tree.contains(idx));
    assert!(cx.classes.get(idx).is_none());
    assert!(cx.names.get(idx).is_none());
    // No surviving node references the destroyed slot.
    assert!(cx.tree.parent_of(idx).is_none());
    assert!(!cx.tree.children_of(root.index()).contains(&idx));
}

#[test]
fn destroy_removes_whole_subtree() {
    let (mut cx, root) = Context::new();
    let a = cx.create(root).unwrap();
    let b = cx.create(a).unwrap();
    let c = cx.create(b).unwrap();
    let sibling = cx.create(root).unwrap();
    cx.destroy(a);
    assert!(!cx.is_alive(a));
    assert!(!cx.is_alive(b));
    assert!(!cx.is_alive(c));
    assert!(cx.is_alive(sibling));
    assert!(cx.tree.contains(sibling.index()));
}

#[test]
fn stale_generation_never_aliases_reused_slot() {
    let mut em = EntityManager::new();
    let first = em.create();
    em.destroy(first);
    let second = em.create();
    // The slot is reused under a bumped generation.
    assert_eq!(first.index(), second.index());
    assert_ne!(first.generation(), second.generation());
    assert!(!em.is_alive(first));
    assert!(em.is_alive(second));
    // Destroying the stale id again is a no-op that leaves the new one live.
    em.destroy(first);
    assert!(em.is_alive(second));
}

#[test]
fn destroying_twice_is_a_noop() {
    let mut em = EntityManager::new();
    let e = em.create();
    em.destroy(e);
    em.destroy(e);
    assert!(!em.is_alive(e));
}

#[test]
fn sibling_order_is_insertion_order() {
    let mut tree = Tree::new();
    assert!(tree.add_root(0));
    assert!(tree.add_child(0, 3));
    assert!(tree.add_child(0, 1));
    assert!(tree.add_child(0, 2));
    assert_eq!(tree.children_of(0), vec![3, 1, 2]);
    assert_eq!(tree.first_child(0), Some(3));
    assert_eq!(tree.next_sibling(3), Some(1));
    assert_eq!(tree.next_sibling(1), Some(2));
    assert_eq!(tree.next_sibling(2), None);
}

#[test]
fn traversals_visit_parents_and_children_in_order() {
    let mut tree = Tree::new();
    tree.add_root(0);
    tree.add_child(0, 1);
    tree.add_child(0, 2);
    tree.add_child(1, 3);
    assert_eq!(tree.iter_preorder(0), vec![0, 1, 3, 2]);
    assert_eq!(tree.iter_postorder(0), vec![3, 1, 2, 0]);
    assert_eq!(tree.ancestors_of(3), vec![1, 0]);
}

#[test]
fn removing_a_node_erases_its_subtree_only() {
    let mut tree = Tree::new();
    tree.add_root(0);
    tree.add_child(0, 1);
    tree.add_child(1, 2);
    tree.add_child(0, 3);
    assert!(tree.remove(1));
    assert!(!tree.contains(1));
    assert!(!tree.contains(2));
    assert!(tree.contains(3));
    assert_eq!(tree.children_of(0), vec![3]);
    // Removing an absent node reports false and changes nothing.
    assert!(!tree.remove(1));
    assert!(tree.contains(3));
}
