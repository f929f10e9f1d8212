use viewer_core::data_map::DataMap;
use viewer_core::model_id_map::{IdSet, ModelIdMap, ModelIdMapUtils};

fn map_of(entries: &[(&str, &[u32])]) -> ModelIdMap {
    let raw: Vec<(String, Vec<u32>)> = entries.iter().map(|(k, v)| (k.to_string(), v.to_vec())).collect();
    ModelIdMapUtils::from_raw(&raw)
}

fn raw(map: &ModelIdMap) -> Vec<(String, Vec<u32>)> {
    ModelIdMapUtils::to_raw(map)
}

#[test]
fn id_set_keeps_increasing_order_without_repeats() {
    let s = IdSet::from_slice(&[5, 1, 3, 1, 5]);
    assert_eq!(s.to_vec(), vec![1, 3, 5]);
    assert!(s.contains(3));
    assert!(!s.contains(2));
    let t = IdSet::from_slice(&[3, 4]);
    assert_eq!(s.union(&t).to_vec(), vec![1, 3, 4, 5]);
    assert_eq!(s.intersection(&t).to_vec(), vec![3]);
    assert_eq!(s.difference(&t).to_vec(), vec![1, 5]);
    assert!(IdSet::new().is_empty());
}

#[test]
fn join_unites_identifiers_per_model() {
    let a = map_of(&[("m1", &[1, 2]), ("m2", &[7])]);
    let b = map_of(&[("m1", &[2, 3]), ("m3", &[9])]);
    let j = ModelIdMapUtils::join(&[a, b]);
    assert_eq!(
        raw(&j),
        vec![
            ("m1".to_string(), vec![1, 2, 3]),
            ("m2".to_string(), vec![7]),
            ("m3".to_string(), vec![9])
        ]
    );
    assert!(ModelIdMapUtils::is_empty(&ModelIdMapUtils::join(&[])));
}

#[test]
fn intersect_keeps_common_models_with_common_identifiers() {
    let a = map_of(&[("m1", &[1, 2, 3]), ("m2", &[7]), ("m3", &[4])]);
    let b = map_of(&[("m1", &[2, 3, 4]), ("m2", &[8]), ("m4", &[4])]);
    let i = ModelIdMapUtils::intersect(&[a, b]);
    assert_eq!(raw(&i), vec![("m1".to_string(), vec![2, 3])]);
    assert_eq!(raw(&ModelIdMapUtils::intersect(&[])), vec![]);
    let single = ModelIdMapUtils::intersect(&[map_of(&[("m", &[])])]);
    assert_eq!(raw(&single), vec![("m".to_string(), vec![])]);
}

#[test]
fn remove_drops_emptied_models_and_updates_target_unless_cloned() {
    let mut target = map_of(&[("m1", &[1, 2]), ("m2", &[3]), ("m3", &[])]);
    let source = map_of(&[("m1", &[2]), ("m2", &[3]), ("m9", &[1])]);
    let out = ModelIdMapUtils::remove(&mut target, &source, true);
    assert_eq!(raw(&out), vec![("m1".to_string(), vec![1]), ("m3".to_string(), vec![])]);
    assert_eq!(raw(&target).len(), 3);
    let out = ModelIdMapUtils::remove(&mut target, &source, false);
    assert!(ModelIdMapUtils::is_equal(&out, &target));
}

#[test]
fn add_and_append_extend_identifiers() {
    let mut target = map_of(&[("m1", &[1])]);
    let source = map_of(&[("m1", &[0]), ("m2", &[5])]);
    let out = ModelIdMapUtils::add(&mut target, &source, false);
    assert_eq!(raw(&out), vec![("m1".to_string(), vec![0, 1]), ("m2".to_string(), vec![5])]);
    assert!(ModelIdMapUtils::is_equal(&out, &target));
    ModelIdMapUtils::append(&mut target, "m3", &[2, 2, 1]);
    ModelIdMapUtils::append(&mut target, "m1", &[9]);
    assert_eq!(
        raw(&target),
        vec![
            ("m1".to_string(), vec![0, 1, 9]),
            ("m2".to_string(), vec![5]),
            ("m3".to_string(), vec![1, 2])
        ]
    );
}

#[test]
fn equality_and_emptiness() {
    let a = map_of(&[("m1", &[1, 2]), ("m2", &[])]);
    let b = map_of(&[("m2", &[]), ("m1", &[2, 1])]);
    let c = map_of(&[("m1", &[1])]);
    assert!(ModelIdMapUtils::is_equal(&a, &b));
    assert!(!ModelIdMapUtils::is_equal(&a, &c));
    assert!(!ModelIdMapUtils::is_empty(&a));
    assert!(ModelIdMapUtils::is_empty(&map_of(&[("m", &[])])));
    let clone = ModelIdMapUtils::clone_map(&a);
    assert!(ModelIdMapUtils::is_equal(&clone, &a));
    let empty: ModelIdMap = DataMap::new();
    assert!(ModelIdMapUtils::is_empty(&empty));
}
