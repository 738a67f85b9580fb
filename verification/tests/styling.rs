use vizia_core::gradient::GradientDirection;
use vizia_core::style::parse_hex_color;
use vizia_core::gradient::GradientStop;
use vizia_core::gradient::LinearGradient;
use vizia_core::style::AttributeStore;
use vizia_core::style::Color;
use vizia_core::style::SparseSet;
use vizia_core::style::Units;
use vizia_core::tree::Tree;

const RED: Color = Color { r: 255, g: 0, b: 0, a: 255 };
const BLUE: Color = Color { r: 0, g: 0, b: 255, a: 255 };
const BLACK: Color = Color { r: 0, g: 0, b: 0, a: 255 };

#[test]
fn missing_attribute_resolves_to_the_compiled_default() {
    let mut tree = Tree::new();
    tree.add_root(0);
    tree.add_child(0, 1);
    tree.add_child(1, 2);
    let classes: SparseSet<Vec<String>> = SparseSet::new();
    let store: AttributeStore<Color> = AttributeStore::new(BLACK);
    // No direct value on the entity and none on any ancestor: the default,
    // exactly.
    assert_eq!(store.get_inherited(&tree, &classes, 2), BLACK);
    assert_eq!(store.get(2, &classes), None);
}

#[test]
fn inline_value_overrides_matching_stylesheet_rule() {
    let mut tree = Tree::new();
    tree.add_root(0);
    tree.add_child(0, 1);
    let mut classes: SparseSet<Vec<String>> = SparseSet::new();
    classes.insert(1, vec!["accent".to_string()]);
    let mut store: AttributeStore<Color> = AttributeStore::new(BLACK);
    store.add_rule("accent".to_string(), BLUE);
    store.set_inline(1, RED);
    // Inline beats the rule layer.
    assert_eq!(store.get_inherited(&tree, &classes, 1), RED);
    assert_eq!(store.get(1, &classes), Some(RED));
    // Without the inline value the rule applies.
    store.clear_inline(1);
    assert_eq!(store.get_inherited(&tree, &classes, 1), BLUE);
}

#[test]
fn later_rules_override_earlier_ones() {
    let tree = Tree::new();
    let mut classes: SparseSet<Vec<String>> = SparseSet::new();
    classes.insert(0, vec!["a".to_string(), "b".to_string()]);
    let mut store: AttributeStore<Color> = AttributeStore::new(BLACK);
    store.add_rule("a".to_string(), RED);
    store.add_rule("b".to_string(), BLUE);
    assert_eq!(store.get(0, &classes), Some(BLUE));
}

#[test]
fn inherited_value_walks_ancestors() {
    let mut tree = Tree::new();
    tree.add_root(0);
    tree.add_child(0, 1);
    tree.add_child(1, 2);
    let classes: SparseSet<Vec<String>> = SparseSet::new();
    let mut store: AttributeStore<Color> = AttributeStore::new(BLACK);
    store.set_inline(0, RED);
    // The grandchild has no value of its own: the root's applies.
    assert_eq!(store.get_inherited(&tree, &classes, 2), RED);
    // The nearest ancestor with a value wins.
    store.set_inline(1, BLUE);
    assert_eq!(store.get_inherited(&tree, &classes, 2), BLUE);
}

#[test]
fn gradient_stops_keep_insertion_order() {
    let g = LinearGradient::new(GradientDirection::TopToBottom)
        .add_stop((Units::Percentage(0), RED))
        .add_stop((Units::Percentage(100), BLUE));
    assert_eq!(g.stops.len(), 2);
    assert_eq!(g.stops[0], (Units::Percentage(0), RED));
    assert_eq!(g.stops[1], (Units::Percentage(100), BLUE));
    assert_eq!(g.direction, GradientDirection::TopToBottom);
}

#[test]
fn gradient_stop_new_keeps_fields() {
    let stop = GradientStop::new(Units::Pixels(4), RED);
    assert_eq!(stop.position, Units::Pixels(4));
    assert_eq!(stop.color, RED);
    assert_eq!(GradientDirection::default(), GradientDirection::LeftToRight);
}

#[test]
fn accessibility_metadata_is_stored_per_entity() {
    let (mut cx, root) = vizia_core::context::Context::new();
    let child = cx.create(root).unwrap();
    cx.role(child, accesskit::Role::Button);
    cx.live(child, accesskit::Live::Polite);
    cx.name(child, "ok".to_string());
    cx.text_value(child, "OK".to_string());
    cx.labelled_by(child, root);
    assert_eq!(cx.roles.get(child.index()), Some(&accesskit::Role::Button));
    assert_eq!(cx.live.get(child.index()), Some(&accesskit::Live::Polite));
    assert_eq!(cx.names.get(child.index()), Some(&"ok".to_string()));
    assert_eq!(cx.text_value.get(child.index()), Some(&"OK".to_string()));
    assert_eq!(cx.labelled_by.get(child.index()), Some(&root));
}

#[test]
fn hex_color_declarations_parse_exactly() {
    assert_eq!(
        parse_hex_color(&b"#ff0080".to_vec()),
        Some(Color { r: 255, g: 0, b: 128, a: 255 })
    );
    assert_eq!(parse_hex_color(&b"#FF0080".to_vec()), Some(Color { r: 255, g: 0, b: 128, a: 255 }));
    // Malformed declarations are rejected, not fatal.
    assert_eq!(parse_hex_color(&b"#ff008".to_vec()), None);
    assert_eq!(parse_hex_color(&b"ff00800".to_vec()), None);
    assert_eq!(parse_hex_color(&b"#ff00g0".to_vec()), None);
}

#[test]
fn malformed_stylesheet_rule_is_skipped() {
    let mut classes: SparseSet<Vec<String>> = SparseSet::new();
    classes.insert(0, vec!["accent".to_string()]);
    let mut store: AttributeStore<Color> = AttributeStore::new(BLACK);
    assert!(!store.add_parsed_rule("accent".to_string(), &b"#zzz".to_vec()));
    assert_eq!(store.get(0, &classes), None);
    assert!(store.add_parsed_rule("accent".to_string(), &b"#0000ff".to_vec()));
    assert_eq!(store.get(0, &classes), Some(BLUE));
}

#[test]
fn stale_id_metadata_write_is_a_noop() {
    let (mut cx, root) = vizia_core::context::Context::new();
    let stale = cx.create(root).unwrap();
    cx.destroy(stale);
    let reused = cx.create(root).unwrap();
    // The freed slot is reused under a new generation.
    assert_eq!(stale.index(), reused.index());
    // A write through the stale id must not land at the reused slot.
    cx.role(stale, accesskit::Role::Button);
    cx.name(stale, "ghost".to_string());
    cx.default_action_verb(stale, accesskit::Action::Click);
    assert!(cx.roles.get(reused.index()).is_none());
    assert!(cx.names.get(reused.index()).is_none());
    assert!(cx.default_action.get(reused.index()).is_none());
    // Through the live id the write sticks.
    cx.role(reused, accesskit::Role::Button);
    cx.default_action_verb(reused, accesskit::Action::Click);
    assert_eq!(cx.roles.get(reused.index()), Some(&accesskit::Role::Button));
    assert_eq!(cx.default_action.get(reused.index()), Some(&accesskit::Action::Click));
}
