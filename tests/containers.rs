use viewer_core::data_map::DataMap;
use viewer_core::data_set::DataSet;
use viewer_core::element::{AcceptAll, Guard, SetGuard};
use viewer_core::event::HandlerId;
use viewer_core::uuid::UUID;

struct NoEmptyValues;

impl Guard<String, String> for NoEmptyValues {
    fn admits(&self, _key: String, value: String) -> bool {
        !value.is_empty()
    }

    fn accepts(&self, _key: &String, value: &String) -> bool {
        !value.is_empty()
    }
}

struct Even;

impl SetGuard<u32> for Even {
    fn admits_item(&self, item: u32) -> bool {
        item % 2 == 0
    }

    fn accepts_item(&self, item: &u32) -> bool {
        item % 2 == 0
    }
}

#[test]
fn set_fresh_key_fires_item_set_then_update_fires_item_updated() {
    let mut map: DataMap<String, u64, AcceptAll> = DataMap::new();
    map.on_item_set.add(&mut map.events, HandlerId(1));
    map.on_item_updated.add(&mut map.events, HandlerId(2));
    let first = map.set("k".to_string(), 1).unwrap();
    assert_eq!(first.event, map.on_item_set.control_handle());
    assert_eq!(first.handlers, vec![HandlerId(1)]);
    let payload = first.data.unwrap();
    assert_eq!(payload.key, "k");
    assert_eq!(payload.value, 1);
    let second = map.set("k".to_string(), 2).unwrap();
    assert_eq!(second.event, map.on_item_updated.control_handle());
    assert_eq!(second.handlers, vec![HandlerId(2)]);
    let payload = second.data.unwrap();
    assert_eq!(payload.key, "k");
    assert_eq!(payload.value, 2);
    assert_eq!(map.get(&"k".to_string()), Some(&2));
    assert_eq!(map.len(), 1);
}

#[test]
fn guard_veto_changes_nothing_and_fires_nothing() {
    let mut map: DataMap<String, String, NoEmptyValues> = DataMap::with_guard(NoEmptyValues);
    map.on_item_set.add(&mut map.events, HandlerId(1));
    assert!(map.set("a".to_string(), String::new()).is_none());
    assert!(!map.contains_key(&"a".to_string()));
    assert!(map.set("a".to_string(), "x".to_string()).is_some());
    assert!(map.set("a".to_string(), String::new()).is_none());
    assert_eq!(map.get(&"a".to_string()), Some(&"x".to_string()));
}

#[test]
fn delete_fires_only_when_a_value_was_removed() {
    let mut map: DataMap<u32, u32, AcceptAll> = DataMap::new();
    map.on_item_deleted.add(&mut map.events, HandlerId(5));
    assert!(map.delete(&1).is_none());
    map.set(1, 10);
    let d = map.delete(&1).unwrap();
    assert_eq!(d.handlers, vec![HandlerId(5)]);
    assert_eq!(d.data, Some(1));
    assert!(!map.contains_key(&1));
    assert!(map.delete(&1).is_none());
}

#[test]
fn clear_fires_once_even_when_empty() {
    let mut map: DataMap<u32, u32, AcceptAll> = DataMap::new();
    map.on_cleared.add(&mut map.events, HandlerId(8));
    let d = map.clear();
    assert_eq!(d.handlers, vec![HandlerId(8)]);
    map.set(1, 1);
    map.set(2, 2);
    let d = map.clear();
    assert_eq!(d.handlers, vec![HandlerId(8)]);
    assert_eq!(map.len(), 0);
}

#[test]
fn dispose_clears_and_silences_every_event() {
    let mut map: DataMap<u32, u32, AcceptAll> = DataMap::new();
    map.on_item_set.add(&mut map.events, HandlerId(1));
    map.on_item_updated.add(&mut map.events, HandlerId(2));
    map.on_cleared.add(&mut map.events, HandlerId(3));
    map.set(1, 1);
    let d = map.dispose();
    assert_eq!(d.handlers, vec![HandlerId(3)]);
    assert_eq!(map.len(), 0);
    assert!(map.set(1, 1).unwrap().handlers.is_empty());
    assert!(map.set(1, 2).unwrap().handlers.is_empty());
    assert!(map.clear().handlers.is_empty());
}

#[test]
fn iter_follows_key_order() {
    let mut map: DataMap<u32, u32, AcceptAll> = DataMap::new();
    map.set(3, 30);
    map.set(1, 10);
    map.set(3, 31);
    map.set(2, 20);
    assert_eq!(map.iter(), vec![(1, 10), (2, 20), (3, 31)]);
}

#[test]
fn string_keys_iterate_in_lexicographic_order() {
    let mut map: DataMap<String, u32, AcceptAll> = DataMap::new();
    for (k, v) in [("b", 2), ("ab", 1), ("a", 0), ("B", 3), ("c", 4)] {
        map.set(k.to_string(), v);
    }
    let keys: Vec<String> = map.iter().into_iter().map(|(k, _)| k).collect();
    assert_eq!(keys, vec!["B", "a", "ab", "b", "c"]);
    map.delete(&"ab".to_string());
    let keys: Vec<String> = map.iter().into_iter().map(|(k, _)| k).collect();
    assert_eq!(keys, vec!["B", "a", "b", "c"]);
}

#[test]
fn from_iter_keeps_the_last_value_of_a_key() {
    let map: DataMap<u32, u32, AcceptAll> = DataMap::from_iter(vec![(1, 1), (2, 2), (1, 3)]);
    assert_eq!(map.get(&1), Some(&3));
    assert_eq!(map.get(&2), Some(&2));
    assert_eq!(map.iter(), vec![(1, 3), (2, 2)]);
}

#[test]
fn add_stores_under_a_fresh_valid_identifier() {
    let mut map: DataMap<String, u32, AcceptAll> = DataMap::new();
    map.on_item_set.add(&mut map.events, HandlerId(1));
    let (id, d) = map.add(42).unwrap();
    assert!(UUID::validate(&id).is_ok());
    assert_eq!(map.get(&id), Some(&42));
    let d = d.unwrap();
    assert_eq!(d.event, map.on_item_set.control_handle());
    assert_eq!(d.data.unwrap().key, id);
}

#[test]
fn set_add_skips_present_and_vetoed_items() {
    let mut set: DataSet<u32, Even> = DataSet::with_guard(Even);
    set.on_item_added.add(&mut set.events, HandlerId(1));
    let fired = set.add(&[2, 3, 4, 2, 6]);
    let payloads: Vec<Option<u32>> = fired.iter().map(|d| d.data).collect();
    assert_eq!(payloads, vec![Some(2), Some(4), Some(6)]);
    assert!(fired.iter().all(|d| d.handlers == vec![HandlerId(1)]));
    assert_eq!(set.iter(), vec![2, 4, 6]);
    assert!(set.add(&[4]).is_empty());
    assert!(!set.contains(&3));
}

#[test]
fn set_delete_clear_and_dispose() {
    let mut set: DataSet<String, AcceptAll> = DataSet::from_iter(vec!["b".to_string(), "a".to_string(), "b".to_string()]);
    assert_eq!(set.iter(), vec!["a".to_string(), "b".to_string()]);
    set.on_item_deleted.add(&mut set.events, HandlerId(2));
    set.on_cleared.add(&mut set.events, HandlerId(3));
    assert!(set.delete(&"z".to_string()).is_none());
    assert_eq!(set.delete(&"a".to_string()).unwrap().handlers, vec![HandlerId(2)]);
    assert!(!set.contains(&"a".to_string()));
    assert_eq!(set.clear().handlers, vec![HandlerId(3)]);
    assert!(set.iter().is_empty());
    assert_eq!(set.dispose().handlers, vec![HandlerId(3)]);
    assert!(set.clear().handlers.is_empty());
}

#[test]
fn add_succeeds_when_no_key_is_an_identifier() {
    let mut map: DataMap<String, u32, AcceptAll> = DataMap::new();
    map.set("plain".to_string(), 1);
    let (id, d) = map.add(2).unwrap();
    assert_eq!(d.unwrap().event, map.on_item_set.control_handle());
    assert_eq!(map.get(&id), Some(&2));
    assert_eq!(map.get(&"plain".to_string()), Some(&1));
}

#[test]
fn add_never_reuses_a_key() {
    let mut map: DataMap<String, u32, AcceptAll> = DataMap::new();
    map.on_item_set.add(&mut map.events, HandlerId(1));
    map.on_item_updated.add(&mut map.events, HandlerId(2));
    let mut ids = Vec::new();
    for v in 0..20 {
        if let Some((id, d)) = map.add(v) {
            assert_eq!(d.unwrap().event, map.on_item_set.control_handle());
            assert!(!ids.contains(&id));
            ids.push(id);
        }
    }
    assert_eq!(map.len(), ids.len());
    assert!(!ids.is_empty());
}
