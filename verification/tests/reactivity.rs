use vizia_core::binding::BindingSet;
use vizia_core::binding::Data;
use vizia_core::binding::EvenLens;
use vizia_core::binding::IndexLens;
use vizia_core::binding::Lens;
use vizia_core::binding::LenLens;
use vizia_core::binding::NonNegativeLens;
use vizia_core::binding::Then;

#[test]
fn unchanged_value_does_not_fire() {
    let model: Vec<i64> = vec![10, 20];
    let mut bindings: BindingSet<LenLens> = BindingSet::new();
    bindings.register(7, LenLens {}, &model);
    // The model still has the same length: no rebuild fires.
    let fired = bindings.run_pass(&model);
    assert!(fired.is_empty());
    // Same length even though the contents changed: still no rebuild.
    let reordered: Vec<i64> = vec![20, 10];
    let fired = bindings.run_pass(&reordered);
    assert!(fired.is_empty());
}

#[test]
fn append_fires_exactly_one_rebuild() {
    let mut model: Vec<i64> = vec![1, 2, 3];
    let mut bindings: BindingSet<LenLens> = BindingSet::new();
    bindings.register(42, LenLens {}, &model);
    model.push(4);
    // One element appended: exactly one rebuild, not one per element.
    let fired = bindings.run_pass(&model);
    assert_eq!(fired, vec![42]);
    // The pass updated the stored observation: a second pass is quiet.
    let fired = bindings.run_pass(&model);
    assert!(fired.is_empty());
}

#[test]
fn composition_applies_the_second_lens_to_the_first_focus() {
    let model: Vec<i64> = vec![5, -3];
    let composed = Then { a: IndexLens { index: 1 }, b: NonNegativeLens {} };
    assert_eq!(composed.get(&model), Some(false));
    let through_parts = NonNegativeLens {}.get(&IndexLens { index: 1 }.get(&model).unwrap());
    assert_eq!(composed.get(&model), through_parts);
}

#[test]
fn composition_short_circuits_on_absent_intermediate() {
    let model: Vec<i64> = vec![5, -3];
    let composed = Then { a: IndexLens { index: 9 }, b: NonNegativeLens {} };
    assert_eq!(IndexLens { index: 9 }.get(&model), None);
    assert_eq!(composed.get(&model), None);
}

#[test]
fn length_parity_composition() {
    let model: Vec<i64> = vec![1, 2];
    let parity = Then { a: LenLens {}, b: EvenLens {} };
    assert_eq!(parity.get(&model), Some(true));
    let longer: Vec<i64> = vec![1, 2, 3];
    assert_eq!(parity.get(&longer), Some(false));
}

#[test]
fn data_same_is_structural_for_provided_types() {
    assert!(3u32.same(&3u32));
    assert!(!3u32.same(&4u32));
    assert!("abc".to_string().same(&"abc".to_string()));
    assert!(!"abc".to_string().same(&"abd".to_string()));
}

#[test]
fn bindings_fire_in_registration_order() {
    let model: Vec<i64> = vec![1];
    let mut bindings: BindingSet<IndexLens> = BindingSet::new();
    bindings.register(1, IndexLens { index: 0 }, &model);
    bindings.register(2, IndexLens { index: 1 }, &model);
    let changed: Vec<i64> = vec![9, 8];
    // Entity 1 sees 1 -> 9; entity 2 sees absent -> 8: both fire, in order.
    let fired = bindings.run_pass(&changed);
    assert_eq!(fired, vec![1, 2]);
}
