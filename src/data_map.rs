//! An observable map: a keyed collection that reports each change through
//! its events.
use crate::element::{sorted_keys, AcceptAll, Element, Guard, Key};
use crate::event::{Dispatch, Event, EventControlHandle, EventManager, HandlerId};
use crate::uuid::{is_valid_uuid, UUID};
use vstd::prelude::*;

verus! {

broadcast use vstd::seq_lib::group_seq_properties;

/// The payload of an item-set or item-updated event.
pub struct ItemEvent<K, V> {
    pub key: K,
    pub value: V,
}

/// A map from keys to values, kept in increasing key order.
/// Each change fires one of its events; a guard may veto an insertion, in
/// which case nothing changes and nothing fires.
pub struct DataMap<K: View, V: View, G> {
    keys: Vec<K>,
    values: Vec<V>,
    model: Ghost<Map<K::V, V::V>>,
    pub events: EventManager,
    pub on_item_set: Event<ItemEvent<K, V>>,
    pub on_item_updated: Event<ItemEvent<K, V>>,
    pub on_item_deleted: Event<K>,
    pub on_cleared: Event<()>,
    pub guard: G,
}

/// The views of a sequence of keys.
pub open spec fn views<K: View>(s: Seq<K>) -> Seq<K::V> {
    s.map_values(|k: K| k@)
}

impl<K: Key, V: Element, G: Guard<K, V>> DataMap<K, V, G> {
    /// The contents, key view to value view.
    pub closed spec fn view(&self) -> Map<K::V, V::V> {
        self.model@
    }

    /// The table that holds the map's events.
    pub closed spec fn table(&self) -> EventManager {
        self.events
    }

    /// The item-set event.
    pub closed spec fn item_set_event(&self) -> EventControlHandle {
        self.on_item_set.id()
    }

    /// The item-updated event.
    pub closed spec fn item_updated_event(&self) -> EventControlHandle {
        self.on_item_updated.id()
    }

    /// The item-deleted event.
    pub closed spec fn item_deleted_event(&self) -> EventControlHandle {
        self.on_item_deleted.id()
    }

    /// The cleared event.
    pub closed spec fn cleared_event(&self) -> EventControlHandle {
        self.on_cleared.id()
    }

    /// The guard.
    pub closed spec fn spec_guard(&self) -> G {
        self.guard
    }

    /// The key views in increasing order.
    pub closed spec fn key_order(&self) -> Seq<K::V> {
        views(self.keys@)
    }

    closed spec fn entries_wf(&self) -> bool {
        &&& self.keys@.len() == self.values@.len()
        &&& views(self.keys@).no_duplicates()
        &&& sorted_keys::<K>(views(self.keys@))
        &&& self.model@.dom() == views(self.keys@).to_set()
        &&& forall|i: int|
            0 <= i < self.keys@.len() ==> self.model@[#[trigger] self.keys@[i]@]
                == self.values@[i]@
    }

    /// The entries are consistent and the four events are distinct events of
    /// the table.
    pub closed spec fn wf(&self) -> bool {
        &&& self.entries_wf()
        &&& self.events.has(self.on_item_set.id())
        &&& self.events.has(self.on_item_updated.id())
        &&& self.events.has(self.on_item_deleted.id())
        &&& self.events.has(self.on_cleared.id())
        &&& self.on_item_set.id() != self.on_item_updated.id()
        &&& self.on_item_set.id() != self.on_item_deleted.id()
        &&& self.on_item_set.id() != self.on_cleared.id()
        &&& self.on_item_updated.id() != self.on_item_deleted.id()
        &&& self.on_item_updated.id() != self.on_cleared.id()
        &&& self.on_item_deleted.id() != self.on_cleared.id()
    }

    /// The key order lists each key of the contents once.
    pub proof fn lemma_key_order(&self)
        requires
            self.wf(),
        ensures
            self.key_order().no_duplicates(),
            sorted_keys::<K>(self.key_order()),
            self.key_order().to_set() == self.view().dom(),
    {
    }

    /// A well-formed map has four distinct events.
    pub proof fn lemma_events_distinct(&self)
        requires
            self.wf(),
        ensures
            self.item_set_event() != self.item_updated_event(),
            self.item_set_event() != self.item_deleted_event(),
            self.item_set_event() != self.cleared_event(),
            self.item_updated_event() != self.item_deleted_event(),
            self.item_updated_event() != self.cleared_event(),
            self.item_deleted_event() != self.cleared_event(),
            self.table().has(self.item_set_event()),
            self.table().has(self.item_updated_event()),
            self.table().has(self.item_deleted_event()),
            self.table().has(self.cleared_event()),
    {
    }

    /// `self` and `other` hold the same events, with the same handlers and flags.
    pub open spec fn same_events(&self, other: &Self) -> bool {
        &&& self.table() == other.table()
        &&& self.item_set_event() == other.item_set_event()
        &&& self.item_updated_event() == other.item_updated_event()
        &&& self.item_deleted_event() == other.item_deleted_event()
        &&& self.cleared_event() == other.cleared_event()
        &&& self.spec_guard() == other.spec_guard()
    }

    /// An empty map with the given guard, its four events new in its own
    /// table: enabled, with no handlers, and members of the table's group.
    pub fn with_guard(guard: G) -> (r: Self)
        ensures
            r.wf(),
            r.view() == Map::<K::V, V::V>::empty(),
            r.key_order() == Seq::<K::V>::empty(),
            r.spec_guard() == guard,
            r.table().is_enabled(r.item_set_event()),
            r.table().is_enabled(r.item_updated_event()),
            r.table().is_enabled(r.item_deleted_event()),
            r.table().is_enabled(r.cleared_event()),
            r.table().handlers(r.item_set_event()) == Seq::<HandlerId>::empty(),
            r.table().handlers(r.item_updated_event()) == Seq::<HandlerId>::empty(),
            r.table().handlers(r.item_deleted_event()) == Seq::<HandlerId>::empty(),
            r.table().handlers(r.cleared_event()) == Seq::<HandlerId>::empty(),
            r.table().members().contains(r.item_set_event()),
            r.table().members().contains(r.item_updated_event()),
            r.table().members().contains(r.item_deleted_event()),
            r.table().members().contains(r.cleared_event()),
    {
        let mut events = EventManager::new();
        let on_item_set = Event::new(&mut events);
        let on_item_updated = Event::new(&mut events);
        let on_item_deleted = Event::new(&mut events);
        let on_cleared = Event::new(&mut events);
        let mut group: Vec<EventControlHandle> = Vec::new();
        group.push(on_item_set.control_handle());
        group.push(on_item_updated.control_handle());
        group.push(on_item_deleted.control_handle());
        group.push(on_cleared.control_handle());
        events.add(group);
        proof {
            assert(group@.contains(group@[0]));
            assert(group@.contains(group@[1]));
            assert(group@.contains(group@[2]));
            assert(group@.contains(group@[3]));
        }
        let r = DataMap {
            keys: Vec::new(),
            values: Vec::new(),
            model: Ghost(Map::empty()),
            events,
            on_item_set,
            on_item_updated,
            on_item_deleted,
            on_cleared,
            guard,
        };
        proof {
            assert(r.model@.dom() =~= views(r.keys@).to_set());
            assert(views(r.keys@) =~= Seq::<K::V>::empty());
        }
        r
    }

    /// What `set(key, value)` does to a map `before`, leaving `after` and
    /// handing out `r`: a veto changes nothing and fires nothing; otherwise
    /// the key takes the value, and item-updated fires when the key was
    /// present, item-set when it was not, with the key and value as payload.
    pub open spec fn set_outcome(
        before: &Self,
        after: &Self,
        key: K,
        value: V,
        r: Option<Dispatch<ItemEvent<K, V>>>,
    ) -> bool {
        &&& after.same_events(before)
        &&& !before.spec_guard().admits(key, value) ==> r is None && after.view() == before.view()
            && after.key_order() == before.key_order()
        &&& before.spec_guard().admits(key, value) ==> {
            &&& after.view() == before.view().insert(key@, value@)
            &&& r matches Some(d)
            &&& d.event == if before.view().contains_key(key@) {
                before.item_updated_event()
            } else {
                before.item_set_event()
            }
            &&& d.handlers@ == before.table().dispatch_list(d.event, None)
            &&& d.data matches Some(p)
            &&& p.key@ == key@
            &&& p.value@ == value@
        }
    }

    /// Sets `key` to `value` unless the guard vetoes.
    pub fn set(&mut self, key: K, value: V) -> (r: Option<Dispatch<ItemEvent<K, V>>>)
        requires
            old(self).wf(),
        ensures
            final(self).wf(),
            Self::set_outcome(&*old(self), &*final(self), key, value, r),
    {
        let found = self.find(&key);
        if !self.guard.accepts(&key, &value) {
            return None;
        }
        let payload = ItemEvent { key: key.duplicate(), value: value.duplicate() };
        match found {
            Some(i) => {
                proof {
                    self.lemma_index_of(i as int);
                }
                self.replace_at(i, value);
                Some(self.on_item_updated.trigger(&self.events, Some(payload)))
            },
            None => {
                self.insert_new(key, value);
                Some(self.on_item_set.trigger(&self.events, Some(payload)))
            },
        }
    }

    /// Removes `key`. Fires item-deleted, with the key, only when a value was
    /// removed.
    pub fn delete(&mut self, key: &K) -> (r: Option<Dispatch<K>>)
        requires
            old(self).wf(),
        ensures
            final(self).wf(),
            final(self).same_events(&*old(self)),
            final(self).view() == old(self).view().remove(key@),
            r is Some <==> old(self).view().contains_key(key@),
            r matches Some(d) ==> {
                &&& d.event == old(self).item_deleted_event()
                &&& d.handlers@ == old(self).table().dispatch_list(d.event, None)
                &&& d.data matches Some(k)
                &&& k@ == key@
            },
            !old(self).view().contains_key(key@) ==> final(self).key_order() == old(
                self,
            ).key_order(),
    {
        match self.find(key) {
            Some(i) => {
                proof {
                    self.lemma_index_of(i as int);
                }
                let removed = self.remove_at(i);
                Some(self.on_item_deleted.trigger(&self.events, Some(removed)))
            },
            None => {
                proof {
                    assert(self.model@.remove(key@) =~= self.model@);
                }
                None
            },
        }
    }

    /// Empties the map and fires cleared, whatever the map held.
    pub fn clear(&mut self) -> (r: Dispatch<()>)
        requires
            old(self).wf(),
        ensures
            final(self).wf(),
            final(self).same_events(&*old(self)),
            final(self).view() == Map::<K::V, V::V>::empty(),
            final(self).key_order() == Seq::<K::V>::empty(),
            r.event == old(self).cleared_event(),
            r.handlers@ == old(self).table().dispatch_list(r.event, None),
            r.data == Some(()),
    {
        self.keys = Vec::new();
        self.values = Vec::new();
        self.model = Ghost(Map::empty());
        proof {
            assert(self.model@.dom() =~= views(self.keys@).to_set());
            assert(views(self.keys@) =~= Seq::<K::V>::empty());
        }
        self.on_cleared.trigger(&self.events, Some(()))
    }

    /// Empties the map, fires cleared, then clears the handlers of its four
    /// events, so that nothing fires to the old handlers afterwards.
    pub fn dispose(&mut self) -> (r: Dispatch<()>)
        requires
            old(self).wf(),
        ensures
            final(self).wf(),
            final(self).view() == Map::<K::V, V::V>::empty(),
            r.event == old(self).cleared_event(),
            r.handlers@ == old(self).table().dispatch_list(r.event, None),
            r.data == Some(()),
            final(self).table().size() == old(self).table().size(),
            final(self).table().handlers(final(self).item_set_event()) == Seq::<HandlerId>::empty(),
            final(self).table().handlers(final(self).item_updated_event())
                == Seq::<HandlerId>::empty(),
            final(self).table().handlers(final(self).item_deleted_event())
                == Seq::<HandlerId>::empty(),
            final(self).table().handlers(final(self).cleared_event()) == Seq::<HandlerId>::empty(),
    {
        let r = self.clear();
        self.on_item_set.reset(&mut self.events);
        self.on_item_updated.reset(&mut self.events);
        self.on_item_deleted.reset(&mut self.events);
        self.on_cleared.reset(&mut self.events);
        r
    }

    /// The value of `key`, if present.
    pub fn get(&self, key: &K) -> (r: Option<&V>)
        requires
            self.wf(),
        ensures
            match r {
                Some(v) => self.view().contains_key(key@) && v@ == self.view()[key@],
                None => !self.view().contains_key(key@),
            },
    {
        match self.find(key) {
            Some(i) => {
                proof {
                    self.lemma_index_of(i as int);
                }
                Some(&self.values[i])
            },
            None => None,
        }
    }

    /// Whether `key` is present.
    pub fn contains_key(&self, key: &K) -> (r: bool)
        requires
            self.wf(),
        ensures
            r == self.view().contains_key(key@),
    {
        match self.find(key) {
            Some(i) => {
                proof {
                    self.lemma_index_of(i as int);
                }
                true
            },
            None => false,
        }
    }

    /// The number of entries.
    pub fn len(&self) -> (r: usize)
        requires
            self.wf(),
        ensures
            r == self.key_order().len(),
    {
        self.keys.len()
    }

    /// Copies of the entries, in increasing key order.
    pub fn iter(&self) -> (r: Vec<(K, V)>)
        requires
            self.wf(),
        ensures
            r@.len() == self.key_order().len(),
            forall|i: int|
                0 <= i < r@.len() ==> (#[trigger] r@[i]).0@ == self.key_order()[i] && r@[i].1@
                    == self.view()[self.key_order()[i]],
    {
        let mut out: Vec<(K, V)> = Vec::new();
        let mut i: usize = 0;
        while i < self.keys.len()
            invariant
                self.wf(),
                0 <= i <= self.keys@.len(),
                out@.len() == i,
                forall|j: int|
                    0 <= j < i ==> (#[trigger] out@[j]).0@ == self.key_order()[j] && out@[j].1@
                        == self.view()[self.key_order()[j]],
            decreases self.keys@.len() - i,
        {
            proof {
                self.lemma_index_of(i as int);
            }
            out.push((self.keys[i].duplicate(), self.values[i].duplicate()));
            i = i + 1;
        }
        out
    }

    proof fn lemma_index_of(&self, i: int)
        requires
            self.entries_wf(),
            0 <= i < self.keys@.len(),
        ensures
            self.model@.contains_key(self.keys@[i]@),
            self.key_order()[i] == self.keys@[i]@,
    {
        assert(views(self.keys@)[i] == self.keys@[i]@);
        assert(views(self.keys@).contains(self.keys@[i]@));
    }

    fn find(&self, key: &K) -> (r: Option<usize>)
        requires
            self.entries_wf(),
        ensures
            match r {
                Some(i) => i < self.keys@.len() && self.keys@[i as int]@ == key@,
                None => !self.model@.contains_key(key@),
            },
    {
        let mut i: usize = 0;
        while i < self.keys.len()
            invariant
                self.entries_wf(),
                0 <= i <= self.keys@.len(),
                forall|j: int| 0 <= j < i ==> self.keys@[j]@ != key@,
            decreases self.keys@.len() - i,
        {
            if self.keys[i].same(key) {
                return Some(i);
            }
            i = i + 1;
        }
        proof {
            if self.model@.contains_key(key@) {
                assert(views(self.keys@).contains(key@));
                let j = choose|j: int| 0 <= j < views(self.keys@).len() && views(self.keys@)[j] == key@;
                assert(self.keys@[j]@ == key@);
            }
        }
        None
    }

    fn insert_new(&mut self, key: K, value: V)
        requires
            old(self).entries_wf(),
            !old(self).model@.contains_key(key@),
        ensures
            final(self).entries_wf(),
            final(self).model@ == old(self).model@.insert(key@, value@),
            final(self).same_events(&*old(self)),
    {
        let ghost k = key@;
        let ghost v = views(self.keys@);
        let mut p: usize = 0;
        loop
            invariant
                self.entries_wf(),
                *self == *old(self),
                v == views(self.keys@),
                k == key@,
                0 <= p <= self.keys@.len(),
                forall|j: int| 0 <= j < p ==> K::precedes(#[trigger] v[j], k),
            ensures
                p == v.len() || !K::precedes(v[p as int], k),
            decreases self.keys@.len() - p,
        {
            if p >= self.keys.len() {
                break;
            }
            assert(v[p as int] == self.keys@[p as int]@);
            if !self.keys[p].less(&key) {
                break;
            }
            p = p + 1;
        }
        proof {
            assert(!v.contains(k));
            assert forall|j: int| p <= j < v.len() implies K::precedes(k, #[trigger] v[j]) by {
                K::lemma_order(v[p as int], k, v[p as int]);
                K::lemma_order(k, v[p as int], v[j]);
                assert(v[p as int] != k);
            }
        }
        self.keys.insert(p, key);
        self.values.insert(p, value);
        self.model = Ghost(self.model@.insert(k, self.values@[p as int]@));
        proof {
            let w = views(self.keys@);
            assert(w =~= v.insert(p as int, k));
            assert forall|a: int, b: int| 0 <= a < b < w.len() implies K::precedes(w[a], w[b]) by {
                if a < p && b > p {
                    K::lemma_order(w[a], k, w[b]);
                }
            }
            assert forall|a: int, b: int| 0 <= a < b < w.len() implies w[a] != w[b] by {
                K::lemma_order(w[a], w[b], w[b]);
            }
            assert forall|x: K::V| #[trigger] w.contains(x) <==> v.contains(x) || x == k by {
                if w.contains(x) {
                    let t = choose|t: int| 0 <= t < w.len() && w[t] == x;
                    if t < p {
                        assert(v[t] == x);
                    } else if t > p {
                        assert(v[t - 1] == x);
                    }
                }
                if v.contains(x) {
                    let t = choose|t: int| 0 <= t < v.len() && v[t] == x;
                    if t < p {
                        assert(w[t] == x);
                    } else {
                        assert(w[t + 1] == x);
                    }
                }
                if x == k {
                    assert(w[p as int] == k);
                }
            }
            assert(self.model@.dom() =~= w.to_set());
            assert forall|t: int| 0 <= t < self.keys@.len() implies self.model@[#[trigger] self.keys@[t]@]
                == self.values@[t]@ by {
                assert(w[t] == self.keys@[t]@);
                if t < p {
                    old(self).lemma_index_of(t);
                    assert(self.keys@[t] == old(self).keys@[t]);
                    assert(self.values@[t] == old(self).values@[t]);
                } else if t > p {
                    old(self).lemma_index_of(t - 1);
                    assert(self.keys@[t] == old(self).keys@[t - 1]);
                    assert(self.values@[t] == old(self).values@[t - 1]);
                }
            }
        }
    }

    fn replace_at(&mut self, i: usize, value: V)
        requires
            old(self).entries_wf(),
            i < old(self).keys@.len(),
        ensures
            final(self).entries_wf(),
            final(self).model@ == old(self).model@.insert(old(self).keys@[i as int]@, value@),
            final(self).key_order() == old(self).key_order(),
            final(self).same_events(&*old(self)),
    {
        let ghost k = self.keys@[i as int]@;
        self.values.set(i, value);
        self.model = Ghost(self.model@.insert(k, self.values@[i as int]@));
        proof {
            old(self).lemma_index_of(i as int);
            assert(self.model@.dom() =~= views(self.keys@).to_set());
            assert forall|j: int| 0 <= j < self.keys@.len() implies self.model@[#[trigger] self.keys@[j]@]
                == self.values@[j]@ by {
                if j != i {
                    assert(views(self.keys@)[j] != views(self.keys@)[i as int]);
                }
            }
        }
    }

    fn remove_at(&mut self, i: usize) -> (r: K)
        requires
            old(self).entries_wf(),
            i < old(self).keys@.len(),
        ensures
            final(self).entries_wf(),
            r@ == old(self).keys@[i as int]@,
            final(self).model@ == old(self).model@.remove(r@),
            final(self).key_order() == old(self).key_order().remove(i as int),
            final(self).same_events(&*old(self)),
    {
        let ghost k = self.keys@[i as int]@;
        let key = self.keys.remove(i);
        self.values.remove(i);
        self.model = Ghost(self.model@.remove(k));
        proof {
            let old_views = views(old(self).keys@);
            assert(views(self.keys@) =~= old_views.remove(i as int));
            assert forall|a: int, b: int|
                0 <= a < b < views(self.keys@).len() implies views(self.keys@)[a] != views(
                self.keys@,
            )[b] && K::precedes(views(self.keys@)[a], views(self.keys@)[b]) by {
                let a0 = if a < i { a } else { a + 1 };
                let b0 = if b < i { b } else { b + 1 };
                assert(views(self.keys@)[a] == old_views[a0]);
                assert(views(self.keys@)[b] == old_views[b0]);
            }
            assert forall|x: K::V| #[trigger] self.model@.dom().contains(x) <==> views(self.keys@).contains(x) by {
                if views(self.keys@).contains(x) {
                    let j = choose|j: int| 0 <= j < views(self.keys@).len() && views(self.keys@)[j] == x;
                    let j0 = if j < i { j } else { j + 1 };
                    assert(old_views[j0] == x);
                    assert(old_views[i as int] == k);
                    assert(x != k);
                    assert(old_views.contains(x));
                }
                if self.model@.dom().contains(x) {
                    assert(old_views.contains(x));
                    let j0 = choose|j: int| 0 <= j < old_views.len() && old_views[j] == x;
                    assert(j0 != i);
                    let j = if j0 < i { j0 } else { j0 - 1 };
                    assert(views(self.keys@)[j] == x);
                }
            }
            assert(self.model@.dom() =~= views(self.keys@).to_set());
            assert forall|j: int| 0 <= j < self.keys@.len() implies self.model@[#[trigger] self.keys@[j]@]
                == self.values@[j]@ by {
                let j0 = if j < i { j } else { j + 1 };
                assert(self.keys@[j] == old(self).keys@[j0]);
                assert(self.values@[j] == old(self).values@[j0]);
                assert(old_views[j0] != old_views[i as int]);
                assert(views(self.keys@)[j] == self.keys@[j]@);
            }
        }
        key
    }
}

/// The contents that a list of entries gives when set in order, a later
/// entry for a key winning over an earlier one.
pub open spec fn map_of<K: View, V: View>(s: Seq<(K, V)>) -> Map<K::V, V::V>
    decreases s.len(),
{
    if s.len() == 0 {
        Map::empty()
    } else {
        map_of(s.drop_last()).insert(s.last().0@, s.last().1@)
    }
}

impl<K: Key, V: Element> DataMap<K, V, AcceptAll> {
    /// An empty map that accepts every insertion, its four events new in its
    /// own table: enabled, with no handlers, and members of the table's group.
    pub fn new() -> (r: Self)
        ensures
            r.wf(),
            r.view() == Map::<K::V, V::V>::empty(),
            r.key_order() == Seq::<K::V>::empty(),
            r.table().is_enabled(r.item_set_event()),
            r.table().is_enabled(r.item_updated_event()),
            r.table().is_enabled(r.item_deleted_event()),
            r.table().is_enabled(r.cleared_event()),
            r.table().handlers(r.item_set_event()) == Seq::<HandlerId>::empty(),
            r.table().handlers(r.item_updated_event()) == Seq::<HandlerId>::empty(),
            r.table().handlers(r.item_deleted_event()) == Seq::<HandlerId>::empty(),
            r.table().handlers(r.cleared_event()) == Seq::<HandlerId>::empty(),
    {
        Self::with_guard(AcceptAll)
    }

    /// A map holding the given entries, set in order without firing events.
    pub fn from_iter(entries: Vec<(K, V)>) -> (r: Self)
        ensures
            r.wf(),
            r.view() == map_of(entries@),
    {
        let ghost all = entries@;
        let n = entries.len();
        let mut entries = entries;
        let mut reversed: Vec<(K, V)> = Vec::new();
        while entries.len() > 0
            invariant
                n == all.len(),
                entries@.len() + reversed@.len() == n,
                entries@ == all.subrange(0, entries@.len() as int),
                forall|j: int| 0 <= j < reversed@.len() ==> reversed@[j] == all[n - 1 - j],
            decreases entries@.len(),
        {
            let e = entries.pop().unwrap();
            reversed.push(e);
            assert(entries@ =~= all.subrange(0, entries@.len() as int));
        }
        let mut map = Self::new();
        while reversed.len() > 0
            invariant
                n == all.len(),
                reversed@.len() <= n,
                forall|j: int| 0 <= j < reversed@.len() ==> reversed@[j] == all[n - 1 - j],
                map.wf(),
                map.view() == map_of(all.subrange(0, n - reversed@.len())),
            decreases reversed@.len(),
        {
            let ghost done = all.subrange(0, n - reversed@.len());
            let (key, value) = reversed.pop().unwrap();
            proof {
                let next = all.subrange(0, n - reversed@.len());
                assert(next.drop_last() =~= done);
                assert(next.last() == (key, value));
            }
            match map.find(&key) {
                Some(i) => {
                    proof {
                        map.lemma_index_of(i as int);
                    }
                    map.replace_at(i, value);
                },
                None => {
                    map.insert_new(key, value);
                },
            }
        }
        assert(all.subrange(0, n as int) =~= all);
        map
    }
}

impl<V: Element, G: Guard<String, V>> DataMap<String, V, G> {
    /// Stores `value` under a fresh identifier, as `set` does, and returns
    /// the identifier with what `set` fired. The identifier is drawn from the
    /// clock; a draw that is already a key is discarded and another drawn, at
    /// most `ADD_DRAWS` times. When every draw is taken, nothing changes and
    /// `None` comes back; that cannot happen when no key is a valid
    /// identifier, since every draw is one.
    pub fn add(&mut self, value: V) -> (r: Option<(String, Option<Dispatch<ItemEvent<String, V>>>)>)
        requires
            old(self).wf(),
        ensures
            final(self).wf(),
            r is None ==> *final(self) == *old(self),
            (forall|k: Seq<char>| #[trigger] old(self).view().contains_key(k) ==> !is_valid_uuid(k))
                ==> r is Some,
            r matches Some(p) ==> {
                &&& is_valid_uuid(p.0@)
                &&& !old(self).view().contains_key(p.0@)
                &&& Self::set_outcome(&*old(self), &*final(self), p.0, value, p.1)
            },
    {
        let mut draws: usize = 0;
        while draws < ADD_DRAWS
            invariant
                self.wf(),
                *self == *old(self),
                (forall|k: Seq<char>| #[trigger] old(self).view().contains_key(k) ==> !is_valid_uuid(k))
                    ==> draws == 0,
            decreases ADD_DRAWS - draws,
        {
            let key = UUID::create();
            if !self.contains_key(&key) {
                let d = self.set(key.clone(), value);
                return Some((key, d));
            }
            assert(old(self).view().contains_key(key@) && is_valid_uuid(key@));
            draws = draws + 1;
        }
        None
    }
}

/// How many identifiers `DataMap::add` draws before it gives up.
pub const ADD_DRAWS: usize = 8;

/// Setting a fresh key fires item-set, not item-updated, with that key and
/// value; setting the same key again fires item-updated with the new value,
/// which the map then holds.
pub proof fn lemma_set_then_update<K: Key, V: Element>(
    m0: &DataMap<K, V, AcceptAll>,
    m1: &DataMap<K, V, AcceptAll>,
    m2: &DataMap<K, V, AcceptAll>,
    key: K,
    v1: V,
    v2: V,
    r1: Option<Dispatch<ItemEvent<K, V>>>,
    r2: Option<Dispatch<ItemEvent<K, V>>>,
)
    requires
        m0.wf(),
        !m0.view().contains_key(key@),
        DataMap::set_outcome(m0, m1, key, v1, r1),
        DataMap::set_outcome(m1, m2, key, v2, r2),
    ensures
        r1 matches Some(d) && {
            &&& d.event == m0.item_set_event()
            &&& d.event != m0.item_updated_event()
            &&& d.data matches Some(p) && (p.key@ == key@ && p.value@ == v1@)
        },
        r2 matches Some(d) && {
            &&& d.event == m0.item_updated_event()
            &&& d.event != m0.item_set_event()
            &&& d.data matches Some(p) && (p.key@ == key@ && p.value@ == v2@)
        },
        m2.view().contains_key(key@),
        m2.view()[key@] == v2@,
{
    m0.lemma_events_distinct();
    assert(m1.view().contains_key(key@));
}

} // verus!
