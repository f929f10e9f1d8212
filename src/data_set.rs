//! An observable set: a collection of distinct items that reports each
//! change through its events.
use crate::data_map::views;
use crate::element::{sorted_keys, AcceptAll, Element, Key, SetGuard};
use crate::event::{Dispatch, Event, EventControlHandle, EventManager, HandlerId};
use vstd::prelude::*;

verus! {

broadcast use vstd::seq_lib::group_seq_properties;

/// A set of items of distinct views, kept in increasing order. A guard may
/// veto the insertion of an item.
pub struct DataSet<T: View, G> {
    items: Vec<T>,
    model: Ghost<Set<T::V>>,
    pub events: EventManager,
    pub on_item_added: Event<T>,
    pub on_item_deleted: Event<()>,
    pub on_cleared: Event<()>,
    pub guard: G,
}

/// The views of the items that `add(items)` puts into a set holding
/// `present`, in order: each item that is neither present nor added before
/// it, and that the guard admits.
pub open spec fn added_items<T: View, G: SetGuard<T>>(
    present: Set<T::V>,
    items: Seq<T>,
    guard: G,
) -> Seq<T::V>
    decreases items.len(),
{
    if items.len() == 0 {
        Seq::empty()
    } else {
        let before = added_items(present, items.drop_last(), guard);
        let x = items.last();
        if present.contains(x@) || before.contains(x@) || !guard.admits_item(x) {
            before
        } else {
            before.push(x@)
        }
    }
}

impl<T: Key, G: SetGuard<T>> DataSet<T, G> {
    /// The views of the items.
    pub closed spec fn view(&self) -> Set<T::V> {
        self.model@
    }

    /// The item views in increasing order.
    pub closed spec fn item_order(&self) -> Seq<T::V> {
        views(self.items@)
    }

    /// The table that holds the set's events.
    pub closed spec fn table(&self) -> EventManager {
        self.events
    }

    /// The item-added event.
    pub closed spec fn item_added_event(&self) -> EventControlHandle {
        self.on_item_added.id()
    }

    /// The item-deleted event.
    pub closed spec fn item_deleted_event(&self) -> EventControlHandle {
        self.on_item_deleted.id()
    }

    /// The cleared event.
    pub closed spec fn cleared_event(&self) -> EventControlHandle {
        self.on_cleared.id()
    }

    /// The guard.
    pub closed spec fn spec_guard(&self) -> G {
        self.guard
    }

    closed spec fn items_wf(&self) -> bool {
        &&& views(self.items@).no_duplicates()
        &&& sorted_keys::<T>(views(self.items@))
        &&& self.model@ == views(self.items@).to_set()
    }

    /// The items are distinct and the three events are distinct events of the
    /// table.
    pub closed spec fn wf(&self) -> bool {
        &&& self.items_wf()
        &&& self.events.has(self.on_item_added.id())
        &&& self.events.has(self.on_item_deleted.id())
        &&& self.events.has(self.on_cleared.id())
        &&& self.on_item_added.id() != self.on_item_deleted.id()
        &&& self.on_item_added.id() != self.on_cleared.id()
        &&& self.on_item_deleted.id() != self.on_cleared.id()
    }

    /// `self` and `other` hold the same events, with the same handlers and flags.
    pub open spec fn same_events(&self, other: &Self) -> bool {
        &&& self.table() == other.table()
        &&& self.item_added_event() == other.item_added_event()
        &&& self.item_deleted_event() == other.item_deleted_event()
        &&& self.cleared_event() == other.cleared_event()
        &&& self.spec_guard() == other.spec_guard()
    }

    fn find(&self, item: &T) -> (r: Option<usize>)
        requires
            self.items_wf(),
        ensures
            match r {
                Some(i) => i < self.items@.len() && self.items@[i as int]@ == item@
                    && self.model@.contains(item@),
                None => !self.model@.contains(item@),
            },
    {
        let mut i: usize = 0;
        while i < self.items.len()
            invariant
                self.items_wf(),
                0 <= i <= self.items@.len(),
                forall|j: int| 0 <= j < i ==> self.items@[j]@ != item@,
            decreases self.items@.len() - i,
        {
            if self.items[i].same(item) {
                proof {
                    assert(views(self.items@)[i as int] == item@);
                    assert(views(self.items@).contains(item@));
                }
                return Some(i);
            }
            i = i + 1;
        }
        proof {
            if self.model@.contains(item@) {
                let j = choose|j: int| 0 <= j < views(self.items@).len() && views(self.items@)[j] == item@;
                assert(self.items@[j]@ == item@);
            }
        }
        None
    }

    fn insert_new(&mut self, item: T)
        requires
            old(self).items_wf(),
            !old(self).model@.contains(item@),
        ensures
            final(self).items_wf(),
            final(self).model@ == old(self).model@.insert(item@),
            final(self).same_events(&*old(self)),
    {
        let ghost k = item@;
        let ghost v = views(self.items@);
        let mut p: usize = 0;
        loop
            invariant
                self.items_wf(),
                *self == *old(self),
                v == views(self.items@),
                k == item@,
                0 <= p <= self.items@.len(),
                forall|j: int| 0 <= j < p ==> T::precedes(#[trigger] v[j], k),
            ensures
                p == v.len() || !T::precedes(v[p as int], k),
            decreases self.items@.len() - p,
        {
            if p >= self.items.len() {
                break;
            }
            assert(v[p as int] == self.items@[p as int]@);
            if !self.items[p].less(&item) {
                break;
            }
            p = p + 1;
        }
        proof {
            assert(!v.contains(k));
            assert forall|j: int| p <= j < v.len() implies T::precedes(k, #[trigger] v[j]) by {
                T::lemma_order(v[p as int], k, v[p as int]);
                T::lemma_order(k, v[p as int], v[j]);
                assert(v[p as int] != k);
            }
        }
        self.items.insert(p, item);
        self.model = Ghost(self.model@.insert(k));
        proof {
            let w = views(self.items@);
            assert(w =~= v.insert(p as int, k));
            assert forall|a: int, b: int| 0 <= a < b < w.len() implies T::precedes(w[a], w[b]) by {
                if a < p && b > p {
                    T::lemma_order(w[a], k, w[b]);
                }
            }
            assert forall|a: int, b: int| 0 <= a < b < w.len() implies w[a] != w[b] by {
                T::lemma_order(w[a], w[b], w[b]);
            }
            assert forall|x: T::V| #[trigger] w.contains(x) <==> v.contains(x) || x == k by {
                if w.contains(x) {
                    let t = choose|t: int| 0 <= t < w.len() && w[t] == x;
                    if t < p {
                        assert(v[t] == x);
                    } else if t > p {
                        assert(v[t - 1] == x);
                    }
                }
                if v.contains(x) {
                    let t = choose|t: int| 0 <= t < v.len() && v[t] == x;
                    if t < p {
                        assert(w[t] == x);
                    } else {
                        assert(w[t + 1] == x);
                    }
                }
                if x == k {
                    assert(w[p as int] == k);
                }
            }
            assert(self.model@ =~= w.to_set());
        }
    }

    /// An empty set with the given guard, its three events new in its own
    /// table: enabled, with no handlers, and members of the table's group.
    pub fn with_guard(guard: G) -> (r: Self)
        ensures
            r.wf(),
            r.view() == Set::<T::V>::empty(),
            r.spec_guard() == guard,
            r.table().is_enabled(r.item_added_event()),
            r.table().is_enabled(r.item_deleted_event()),
            r.table().is_enabled(r.cleared_event()),
            r.table().handlers(r.item_added_event()) == Seq::<HandlerId>::empty(),
            r.table().handlers(r.item_deleted_event()) == Seq::<HandlerId>::empty(),
            r.table().handlers(r.cleared_event()) == Seq::<HandlerId>::empty(),
    {
        let mut events = EventManager::new();
        let on_item_added = Event::new(&mut events);
        let on_item_deleted = Event::new(&mut events);
        let on_cleared = Event::new(&mut events);
        let mut group: Vec<EventControlHandle> = Vec::new();
        group.push(on_item_added.control_handle());
        group.push(on_item_deleted.control_handle());
        group.push(on_cleared.control_handle());
        events.add(group);
        let r = DataSet {
            items: Vec::new(),
            model: Ghost(Set::empty()),
            events,
            on_item_added,
            on_item_deleted,
            on_cleared,
            guard,
        };
        proof {
            assert(views(r.items@) =~= Seq::<T::V>::empty());
            assert(r.model@ =~= views(r.items@).to_set());
        }
        r
    }

    /// Adds, in order, each item that is not yet present and that the guard
    /// admits, firing item-added for each.
    pub fn add(&mut self, values: &[T]) -> (r: Vec<Dispatch<T>>)
        requires
            old(self).wf(),
        ensures
            final(self).wf(),
            final(self).same_events(&*old(self)),
            final(self).view() == old(self).view() + added_items(
                old(self).view(),
                values@,
                old(self).spec_guard(),
            ).to_set(),
            r@.len() == added_items(old(self).view(), values@, old(self).spec_guard()).len(),
            forall|i: int|
                0 <= i < r@.len() ==> {
                    &&& (#[trigger] r@[i]).event == old(self).item_added_event()
                    &&& r@[i].handlers@ == old(self).table().dispatch_list(r@[i].event, None)
                    &&& r@[i].data matches Some(t) && t@ == added_items(
                        old(self).view(),
                        values@,
                        old(self).spec_guard(),
                    )[i]
                },
    {
        let mut out: Vec<Dispatch<T>> = Vec::new();
        let mut i: usize = 0;
        while i < values.len()
            invariant
                self.wf(),
                self.same_events(&*old(self)),
                0 <= i <= values@.len(),
                self.view() == old(self).view() + added_items(
                    old(self).view(),
                    values@.subrange(0, i as int),
                    old(self).spec_guard(),
                ).to_set(),
                out@.len() == added_items(
                    old(self).view(),
                    values@.subrange(0, i as int),
                    old(self).spec_guard(),
                ).len(),
                forall|j: int|
                    0 <= j < out@.len() ==> {
                        &&& (#[trigger] out@[j]).event == old(self).item_added_event()
                        &&& out@[j].handlers@ == old(self).table().dispatch_list(out@[j].event, None)
                        &&& out@[j].data matches Some(t) && t@ == added_items(
                            old(self).view(),
                            values@.subrange(0, i as int),
                            old(self).spec_guard(),
                        )[j]
                    },
            decreases values@.len() - i,
        {
            let ghost done = values@.subrange(0, i as int);
            let ghost before = added_items(old(self).view(), done, old(self).spec_guard());
            let item = &values[i];
            proof {
                assert(values@.subrange(0, i + 1).drop_last() =~= done);
                assert(self.view().contains(item@) <==> old(self).view().contains(item@)
                    || before.contains(item@));
            }
            let present = self.find(item).is_some();
            let accepted = if present {
                false
            } else {
                self.guard.accepts_item(item)
            };
            proof {
                let now = added_items(old(self).view(), values@.subrange(0, i + 1), old(self).spec_guard());
                assert(present == self.view().contains(item@));
                if accepted {
                    assert(now == before.push(item@));
                } else {
                    assert(now == before);
                }
            }
            if accepted {
                self.insert_new(item.duplicate());
                let d = self.on_item_added.trigger(&self.events, Some(item.duplicate()));
                out.push(d);
                proof {
                    let now = added_items(old(self).view(), values@.subrange(0, i + 1), old(self).spec_guard());
                    assert(now == before.push(item@));
                    assert forall|x: T::V| #[trigger] now.contains(x) <==> before.contains(x) || x == item@ by {}
                    assert(self.view() =~= old(self).view() + now.to_set());
                }
            }
            i = i + 1;
        }
        proof {
            assert(values@.subrange(0, values@.len() as int) =~= values@);
        }
        out
    }

    /// Removes `value`. Fires item-deleted only when an item was removed.
    pub fn delete(&mut self, value: &T) -> (r: Option<Dispatch<()>>)
        requires
            old(self).wf(),
        ensures
            final(self).wf(),
            final(self).same_events(&*old(self)),
            final(self).view() == old(self).view().remove(value@),
            r is Some <==> old(self).view().contains(value@),
            r matches Some(d) ==> {
                &&& d.event == old(self).item_deleted_event()
                &&& d.handlers@ == old(self).table().dispatch_list(d.event, None)
                &&& d.data == Some(())
            },
    {
        match self.find(value) {
            Some(i) => {
                let ghost v = value@;
                proof {
                    assert(views(self.items@)[i as int] == value@);
                    assert(views(self.items@).contains(value@));
                }
                self.items.remove(i);
                self.model = Ghost(self.model@.remove(v));
                proof {
                    let old_views = views(old(self).items@);
                    assert(views(self.items@) =~= old_views.remove(i as int));
                    assert forall|a: int, b: int|
                        0 <= a < b < views(self.items@).len() implies views(self.items@)[a]
                        != views(self.items@)[b] && T::precedes(views(self.items@)[a], views(self.items@)[b]) by {
                        let a0 = if a < i { a } else { a + 1 };
                        let b0 = if b < i { b } else { b + 1 };
                        assert(views(self.items@)[a] == old_views[a0]);
                        assert(views(self.items@)[b] == old_views[b0]);
                    }
                    assert forall|x: T::V| #[trigger] self.model@.contains(x) <==> views(self.items@).contains(x) by {
                        if views(self.items@).contains(x) {
                            let j = choose|j: int| 0 <= j < views(self.items@).len() && views(self.items@)[j] == x;
                            let j0 = if j < i { j } else { j + 1 };
                            assert(old_views[j0] == x);
                            assert(old_views[i as int] == v);
                            assert(old_views.contains(x));
                        }
                        if self.model@.contains(x) {
                            assert(old_views.contains(x));
                            let j0 = choose|j: int| 0 <= j < old_views.len() && old_views[j] == x;
                            assert(old_views[i as int] == v);
                            assert(j0 != i);
                            let j = if j0 < i { j0 } else { j0 - 1 };
                            assert(views(self.items@)[j] == x);
                        }
                    }
                    assert(self.model@ =~= views(self.items@).to_set());
                }
                Some(self.on_item_deleted.trigger(&self.events, Some(())))
            },
            None => {
                proof {
                    assert(self.model@.remove(value@) =~= self.model@);
                }
                None
            },
        }
    }

    /// Empties the set and fires cleared, whatever the set held.
    pub fn clear(&mut self) -> (r: Dispatch<()>)
        requires
            old(self).wf(),
        ensures
            final(self).wf(),
            final(self).same_events(&*old(self)),
            final(self).view() == Set::<T::V>::empty(),
            r.event == old(self).cleared_event(),
            r.handlers@ == old(self).table().dispatch_list(r.event, None),
            r.data == Some(()),
    {
        self.items = Vec::new();
        self.model = Ghost(Set::empty());
        proof {
            assert(views(self.items@) =~= Seq::<T::V>::empty());
            assert(self.model@ =~= views(self.items@).to_set());
        }
        self.on_cleared.trigger(&self.events, Some(()))
    }

    /// Empties the set, fires cleared, then clears the handlers of its three
    /// events.
    pub fn dispose(&mut self) -> (r: Dispatch<()>)
        requires
            old(self).wf(),
        ensures
            final(self).wf(),
            final(self).view() == Set::<T::V>::empty(),
            r.event == old(self).cleared_event(),
            r.handlers@ == old(self).table().dispatch_list(r.event, None),
            r.data == Some(()),
            final(self).table().handlers(final(self).item_added_event())
                == Seq::<HandlerId>::empty(),
            final(self).table().handlers(final(self).item_deleted_event())
                == Seq::<HandlerId>::empty(),
            final(self).table().handlers(final(self).cleared_event()) == Seq::<HandlerId>::empty(),
    {
        let r = self.clear();
        self.on_item_added.reset(&mut self.events);
        self.on_item_deleted.reset(&mut self.events);
        self.on_cleared.reset(&mut self.events);
        r
    }

    /// Whether an item with the view of `value` is present.
    pub fn contains(&self, value: &T) -> (r: bool)
        requires
            self.wf(),
        ensures
            r == self.view().contains(value@),
    {
        match self.find(value) {
            Some(i) => {
                proof {
                    assert(views(self.items@)[i as int] == value@);
                    assert(views(self.items@).contains(value@));
                }
                true
            },
            None => false,
        }
    }

    /// Copies of the items, in increasing order.
    pub fn iter(&self) -> (r: Vec<T>)
        requires
            self.wf(),
        ensures
            views(r@) == self.item_order(),
    {
        let mut out: Vec<T> = Vec::new();
        let mut i: usize = 0;
        while i < self.items.len()
            invariant
                0 <= i <= self.items@.len(),
                out@.len() == i,
                views(out@) == views(self.items@).subrange(0, i as int),
            decreases self.items@.len() - i,
        {
            let ghost prev = out@;
            out.push(self.items[i].duplicate());
            proof {
                assert(out@ == prev.push(out@[i as int]));
                assert(views(out@) =~= views(prev).push(self.items@[i as int]@));
            }
            i = i + 1;
            assert(views(out@) =~= views(self.items@).subrange(0, i as int));
        }
        assert(views(self.items@).subrange(0, i as int) =~= views(self.items@));
        out
    }
}

impl<T: Key> DataSet<T, AcceptAll> {
    /// An empty set that accepts every item.
    pub fn new() -> (r: Self)
        ensures
            r.wf(),
            r.view() == Set::<T::V>::empty(),
            r.table().handlers(r.item_added_event()) == Seq::<HandlerId>::empty(),
            r.table().handlers(r.item_deleted_event()) == Seq::<HandlerId>::empty(),
            r.table().handlers(r.cleared_event()) == Seq::<HandlerId>::empty(),
    {
        Self::with_guard(AcceptAll)
    }

    /// A set holding the given items, without firing events.
    pub fn from_iter(items: Vec<T>) -> (r: Self)
        ensures
            r.wf(),
            r.view() == views(items@).to_set(),
    {
        let mut set = Self::new();
        let mut i: usize = 0;
        while i < items.len()
            invariant
                set.wf(),
                0 <= i <= items@.len(),
                set.view() == views(items@.subrange(0, i as int)).to_set(),
            decreases items@.len() - i,
        {
            let item = &items[i];
            proof {
                assert(views(items@.subrange(0, i + 1)) =~= views(items@.subrange(0, i as int)).push(item@));
            }
            let ghost seen = views(items@.subrange(0, i as int));
            if set.find(item).is_none() {
                set.insert_new(item.duplicate());
            }
            proof {
                assert(set.view().contains(item@));
                assert forall|x: T::V| #[trigger] seen.push(item@).contains(x) <==> seen.contains(x) || x == item@ by {}
            }
            i = i + 1;
            assert(set.view() =~= views(items@.subrange(0, i as int)).to_set());
        }
        assert(items@.subrange(0, i as int) =~= items@);
        set
    }
}

} // verus!
