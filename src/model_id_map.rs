//! Sets of item identifiers per model, and the set algebra over them.
use crate::data_map::{views, DataMap};
use crate::element::{AcceptAll, Element};
use vstd::prelude::*;

verus! {

broadcast use vstd::seq_lib::group_seq_properties;

/// Whether `s` is strictly increasing.
pub open spec fn increasing(s: Seq<u32>) -> bool {
    forall|i: int, j: int| 0 <= i < j < s.len() ==> s[i] < s[j]
}

/// A set of local item identifiers, kept in increasing order.
pub struct IdSet {
    ids: Vec<u32>,
}

impl View for IdSet {
    type V = Set<u32>;

    closed spec fn view(&self) -> Set<u32> {
        self.ids@.to_set()
    }
}

impl IdSet {
    /// The identifiers in increasing order.
    pub closed spec fn order(&self) -> Seq<u32> {
        self.ids@
    }

    #[verifier::type_invariant]
    closed spec fn sorted(&self) -> bool {
        increasing(self.ids@)
    }

    /// The empty set.
    pub fn new() -> (r: IdSet)
        ensures
            r@ == Set::<u32>::empty(),
    {
        let r = IdSet { ids: Vec::new() };
        assert(r@ =~= Set::<u32>::empty());
        r
    }

    /// Whether `id` is in the set.
    pub fn contains(&self, id: u32) -> (r: bool)
        ensures
            r == self@.contains(id),
    {
        let mut i: usize = 0;
        while i < self.ids.len()
            invariant
                0 <= i <= self.ids@.len(),
                forall|j: int| 0 <= j < i ==> self.ids@[j] != id,
            decreases self.ids@.len() - i,
        {
            if self.ids[i] == id {
                assert(self.ids@.contains(self.ids@[i as int]));
                return true;
            }
            i = i + 1;
        }
        false
    }

    /// Whether the set is empty.
    pub fn is_empty(&self) -> (r: bool)
        ensures
            r == (self@ == Set::<u32>::empty()),
    {
        if self.ids.len() == 0 {
            assert(self@ =~= Set::<u32>::empty());
            true
        } else {
            assert(self@.contains(self.ids@[0]));
            false
        }
    }

    /// The identifiers in increasing order.
    pub fn to_vec(&self) -> (r: Vec<u32>)
        ensures
            r@ == self.order(),
            increasing(r@),
            r@.to_set() == self@,
    {
        proof {
            use_type_invariant(self);
        }
        let mut out: Vec<u32> = Vec::new();
        let mut i: usize = 0;
        while i < self.ids.len()
            invariant
                0 <= i <= self.ids@.len(),
                out@ == self.ids@.subrange(0, i as int),
            decreases self.ids@.len() - i,
        {
            out.push(self.ids[i]);
            i = i + 1;
            assert(out@ =~= self.ids@.subrange(0, i as int));
        }
        assert(out@ =~= self.ids@);
        out
    }

    /// A copy.
    pub fn copy(&self) -> (r: IdSet)
        ensures
            r@ == self@,
            r.order() == self.order(),
    {
        proof {
            use_type_invariant(self);
        }
        IdSet { ids: self.to_vec() }
    }

    /// The set with `id` added.
    pub fn with(&self, id: u32) -> (r: IdSet)
        ensures
            r@ == self@.insert(id),
    {
        proof {
            use_type_invariant(self);
        }
        let ghost s = self.ids@;
        let mut out: Vec<u32> = Vec::new();
        let mut i: usize = 0;
        while i < self.ids.len() && self.ids[i] < id
            invariant
                increasing(s),
                s == self.ids@,
                0 <= i <= s.len(),
                out@ == s.subrange(0, i as int),
                forall|j: int| 0 <= j < i ==> s[j] < id,
            decreases s.len() - i,
        {
            out.push(self.ids[i]);
            i = i + 1;
            assert(out@ =~= s.subrange(0, i as int));
        }
        let k = i;
        if i < self.ids.len() && self.ids[i] == id {
            return self.copy();
        }
        out.push(id);
        while i < self.ids.len()
            invariant
                increasing(s),
                s == self.ids@,
                k <= i <= s.len(),
                k == s.len() || id < s[k as int],
                forall|j: int| 0 <= j < k ==> s[j] < id,
                out@ == s.subrange(0, k as int).push(id) + s.subrange(k as int, i as int),
            decreases s.len() - i,
        {
            out.push(self.ids[i]);
            i = i + 1;
            assert(out@ =~= s.subrange(0, k as int).push(id) + s.subrange(k as int, i as int));
        }
        proof {
            let o = out@;
            assert(o =~= s.subrange(0, k as int).push(id) + s.subrange(k as int, s.len() as int));
            assert forall|a: int, b: int| 0 <= a < b < o.len() implies o[a] < o[b] by {
                if a < k && b > k {
                    assert(o[b] == s[b - 1]);
                    assert(s[k as int] <= s[b - 1]);
                }
                if a > k {
                    assert(o[a] == s[a - 1]);
                    assert(o[b] == s[b - 1]);
                }
                if a == k && b > k {
                    assert(o[b] == s[b - 1]);
                    assert(s[k as int] <= s[b - 1]);
                }
            }
            assert forall|x: u32| #[trigger] o.contains(x) <==> s.contains(x) || x == id by {
                if o.contains(x) {
                    let j = choose|j: int| 0 <= j < o.len() && o[j] == x;
                    if j < k {
                        assert(s[j] == x);
                    } else if j > k {
                        assert(s[j - 1] == x);
                    }
                }
                if s.contains(x) {
                    let j = choose|j: int| 0 <= j < s.len() && s[j] == x;
                    if j < k {
                        assert(o[j] == x);
                    } else {
                        assert(o[j + 1] == x);
                    }
                }
                if x == id {
                    assert(o[k as int] == id);
                }
            }
        }
        let r = IdSet { ids: out };
        assert(r@ =~= self@.insert(id));
        r
    }

    /// The identifiers of `self` that `keep` says to keep, as a set.
    fn filtered(&self, other: &IdSet, keep_common: bool) -> (r: IdSet)
        ensures
            r@ == if keep_common {
                self@.intersect(other@)
            } else {
                self@.difference(other@)
            },
    {
        proof {
            use_type_invariant(self);
        }
        let ghost s = self.ids@;
        let mut out: Vec<u32> = Vec::new();
        let mut i: usize = 0;
        while i < self.ids.len()
            invariant
                increasing(s),
                s == self.ids@,
                0 <= i <= s.len(),
                increasing(out@),
                forall|j: int| 0 <= j < out@.len() ==> exists|t: int| 0 <= t < i && s[t] == #[trigger] out@[j],
                forall|x: u32|
                    #[trigger] out@.contains(x) <==> s.subrange(0, i as int).contains(x) && (
                    other@.contains(x) == keep_common),
            decreases s.len() - i,
        {
            let x = self.ids[i];
            let ghost prev = out@;
            proof {
                assert(s.subrange(0, i + 1) =~= s.subrange(0, i as int).push(x));
            }
            if other.contains(x) == keep_common {
                out.push(x);
                proof {
                    assert forall|a: int, b: int| 0 <= a < b < out@.len() implies out@[a] < out@[b] by {
                        if b == out@.len() - 1 && a < b {
                            let t = choose|t: int| 0 <= t < i && s[t] == #[trigger] prev[a];
                            assert(s[t] < s[i as int]);
                        }
                    }
                    assert forall|j: int| 0 <= j < out@.len() implies exists|t: int| 0 <= t < i + 1 && s[t] == #[trigger] out@[j] by {
                        if j < prev.len() {
                            let t = choose|t: int| 0 <= t < i && s[t] == #[trigger] prev[j];
                            assert(s[t] == out@[j]);
                        } else {
                            assert(s[i as int] == out@[j]);
                        }
                    }
                }
            } else {
                proof {
                    assert forall|j: int| 0 <= j < out@.len() implies exists|t: int| 0 <= t < i + 1 && s[t] == #[trigger] out@[j] by {
                        let t = choose|t: int| 0 <= t < i && s[t] == #[trigger] prev[j];
                        assert(s[t] == out@[j]);
                    }
                }
            }
            i = i + 1;
        }
        assert(s.subrange(0, i as int) =~= s);
        let r = IdSet { ids: out };
        proof {
            if keep_common {
                assert(r@ =~= self@.intersect(other@));
            } else {
                assert(r@ =~= self@.difference(other@));
            }
        }
        r
    }

    /// The identifiers in both sets.
    pub fn intersection(&self, other: &IdSet) -> (r: IdSet)
        ensures
            r@ == self@.intersect(other@),
    {
        self.filtered(other, true)
    }

    /// The identifiers of `self` not in `other`.
    pub fn difference(&self, other: &IdSet) -> (r: IdSet)
        ensures
            r@ == self@.difference(other@),
    {
        self.filtered(other, false)
    }

    /// The identifiers in either set.
    pub fn union(&self, other: &IdSet) -> (r: IdSet)
        ensures
            r@ == self@.union(other@),
    {
        let mut acc = self.copy();
        let items = other.to_vec();
        let mut i: usize = 0;
        while i < items.len()
            invariant
                0 <= i <= items@.len(),
                items@.to_set() == other@,
                acc@ == self@.union(items@.subrange(0, i as int).to_set()),
            decreases items@.len() - i,
        {
            proof {
                assert(items@.subrange(0, i + 1) =~= items@.subrange(0, i as int).push(items@[i as int]));
            }
            acc = acc.with(items[i]);
            i = i + 1;
            assert(acc@ =~= self@.union(items@.subrange(0, i as int).to_set()));
        }
        assert(items@.subrange(0, i as int) =~= items@);
        acc
    }

    /// The set of the identifiers in `ids`.
    pub fn from_slice(ids: &[u32]) -> (r: IdSet)
        ensures
            r@ == ids@.to_set(),
    {
        let mut acc = IdSet::new();
        let mut i: usize = 0;
        while i < ids.len()
            invariant
                0 <= i <= ids@.len(),
                acc@ == ids@.subrange(0, i as int).to_set(),
            decreases ids@.len() - i,
        {
            proof {
                assert(ids@.subrange(0, i + 1) =~= ids@.subrange(0, i as int).push(ids@[i as int]));
            }
            acc = acc.with(ids[i]);
            i = i + 1;
            assert(acc@ =~= ids@.subrange(0, i as int).to_set());
        }
        assert(ids@.subrange(0, i as int) =~= ids@);
        acc
    }
}

impl Element for IdSet {
    fn same(&self, other: &Self) -> (r: bool) {
        proof {
            use_type_invariant(self);
            use_type_invariant(other);
        }
        let a = self.to_vec();
        let b = other.to_vec();
        if a.len() != b.len() {
            proof {
                if self@ == other@ {
                    lemma_sorted_same_set(a@, b@);
                }
            }
            return false;
        }
        let mut i: usize = 0;
        while i < a.len()
            invariant
                a@.len() == b@.len(),
                increasing(a@),
                increasing(b@),
                a@.to_set() == self@,
                b@.to_set() == other@,
                0 <= i <= a@.len(),
                forall|j: int| 0 <= j < i ==> a@[j] == b@[j],
            decreases a@.len() - i,
        {
            if a[i] != b[i] {
                proof {
                    if self@ == other@ {
                        lemma_sorted_same_set(a@, b@);
                    }
                }
                return false;
            }
            i = i + 1;
        }
        assert(a@ =~= b@);
        true
    }

    fn duplicate(&self) -> (r: Self) {
        self.copy()
    }
}

/// Two increasing sequences with the same elements are equal.
proof fn lemma_sorted_same_set(a: Seq<u32>, b: Seq<u32>)
    requires
        increasing(a),
        increasing(b),
        a.to_set() == b.to_set(),
    ensures
        a == b,
    decreases a.len() + b.len(),
{
    if a.len() == 0 {
        if b.len() > 0 {
            assert(b.to_set().contains(b[0]));
            assert(a.to_set().contains(b[0]));
        }
        assert(a =~= b);
    } else if b.len() == 0 {
        assert(a.to_set().contains(a[0]));
        assert(b.to_set().contains(a[0]));
    } else {
        let x = a.last();
        let y = b.last();
        assert(a.to_set().contains(x));
        assert(b.to_set().contains(y));
        assert(b.contains(x));
        assert(a.contains(y));
        let i = choose|i: int| 0 <= i < b.len() && b[i] == x;
        let j = choose|j: int| 0 <= j < a.len() && a[j] == y;
        assert(x == y) by {
            if x < y {
                assert(a[j] <= a[a.len() - 1]);
            } else if y < x {
                assert(b[i] <= b[b.len() - 1]);
            }
        }
        let a2 = a.drop_last();
        let b2 = b.drop_last();
        assert forall|z: u32| #[trigger] a2.to_set().contains(z) <==> b2.to_set().contains(z) by {
            if a2.contains(z) {
                let k = choose|k: int| 0 <= k < a2.len() && a2[k] == z;
                assert(a[k] == z);
                assert(a.contains(z));
                assert(a.to_set().contains(z));
                assert(b.to_set().contains(z));
                assert(b.contains(z));
                let m = choose|m: int| 0 <= m < b.len() && b[m] == z;
                assert(z < x);
                assert(m != b.len() - 1);
                assert(b2[m] == z);
            }
            if b2.contains(z) {
                let k = choose|k: int| 0 <= k < b2.len() && b2[k] == z;
                assert(b[k] == z);
                assert(b.contains(z));
                assert(b.to_set().contains(z));
                assert(a.to_set().contains(z));
                assert(a.contains(z));
                let m = choose|m: int| 0 <= m < a.len() && a[m] == z;
                assert(z < y);
                assert(m != a.len() - 1);
                assert(a2[m] == z);
            }
        }
        assert(a2.to_set() =~= b2.to_set());
        lemma_sorted_same_set(a2, b2);
        assert(a =~= a2.push(x));
        assert(b =~= b2.push(y));
    }
}

} // verus!

verus! {

/// Model identifiers to the local identifiers of items in each model.
pub type ModelIdMap = DataMap<String, IdSet, AcceptAll>;

/// The identifiers of `k` in `m`, none when `k` is absent.
pub open spec fn ids_of(m: Map<Seq<char>, Set<u32>>, k: Seq<char>) -> Set<u32> {
    if m.contains_key(k) {
        m[k]
    } else {
        Set::empty()
    }
}

/// Every model of either map, with the identifiers of both.
pub open spec fn union_maps(a: Map<Seq<char>, Set<u32>>, b: Map<Seq<char>, Set<u32>>) -> Map<
    Seq<char>,
    Set<u32>,
> {
    Map::new(|k: Seq<char>| a.contains_key(k) || b.contains_key(k), |k: Seq<char>| ids_of(a, k).union(ids_of(b, k)))
}

/// The union of a sequence of maps.
pub open spec fn joined(ms: Seq<Map<Seq<char>, Set<u32>>>) -> Map<Seq<char>, Set<u32>>
    decreases ms.len(),
{
    if ms.len() == 0 {
        Map::empty()
    } else {
        union_maps(joined(ms.drop_last()), ms.last())
    }
}

/// The models of both maps whose identifiers meet, with the common ones.
pub open spec fn intersect_maps(a: Map<Seq<char>, Set<u32>>, b: Map<Seq<char>, Set<u32>>) -> Map<
    Seq<char>,
    Set<u32>,
> {
    Map::new(
        |k: Seq<char>|
            a.contains_key(k) && b.contains_key(k) && a[k].intersect(b[k]) != Set::<u32>::empty(),
        |k: Seq<char>| a[k].intersect(b[k]),
    )
}

/// The intersection of a non-empty sequence of maps, from the first on;
/// the empty map for none.
pub open spec fn intersected(ms: Seq<Map<Seq<char>, Set<u32>>>) -> Map<Seq<char>, Set<u32>>
    decreases ms.len(),
{
    if ms.len() == 0 {
        Map::empty()
    } else if ms.len() == 1 {
        ms[0]
    } else {
        intersect_maps(intersected(ms.drop_last()), ms.last())
    }
}

/// `a` without the identifiers of `b`; a model of `b` whose identifiers all
/// go is dropped.
pub open spec fn subtract_maps(a: Map<Seq<char>, Set<u32>>, b: Map<Seq<char>, Set<u32>>) -> Map<
    Seq<char>,
    Set<u32>,
> {
    Map::new(
        |k: Seq<char>|
            a.contains_key(k) && !(b.contains_key(k) && a[k].difference(b[k]) == Set::<
                u32,
            >::empty()),
        |k: Seq<char>| a[k].difference(ids_of(b, k)),
    )
}

/// The contents of a raw list of models and identifiers, a later entry for
/// a model winning.
pub open spec fn raw_map(raw: Seq<(String, Vec<u32>)>) -> Map<Seq<char>, Set<u32>>
    decreases raw.len(),
{
    if raw.len() == 0 {
        Map::empty()
    } else {
        raw_map(raw.drop_last()).insert(raw.last().0@, raw.last().1@.to_set())
    }
}

/// Operations on model identifier maps.
pub struct ModelIdMapUtils;

impl ModelIdMapUtils {
    /// Adds the identifiers of every model of `source` to `acc`.
    fn merge_into(acc: &mut ModelIdMap, source: &ModelIdMap)
        requires
            old(acc).wf(),
            source.wf(),
        ensures
            final(acc).wf(),
            final(acc).view() == union_maps(old(acc).view(), source.view()),
    {
        let entries = source.iter();
        proof {
            source.lemma_key_order();
        }
        let ghost keys = source.key_order();
        proof {
            assert(keys.subrange(0, 0).to_set() =~= Set::<Seq<char>>::empty());
            assert(union_maps(acc.view(), source.view().restrict(Set::empty())) =~~= acc.view());
        }
        let mut j: usize = 0;
        while j < entries.len()
            invariant
                acc.wf(),
                source.wf(),
                keys == source.key_order(),
                keys.no_duplicates(),
                keys.to_set() == source.view().dom(),
                entries@.len() == keys.len(),
                forall|i: int|
                    0 <= i < entries@.len() ==> (#[trigger] entries@[i]).0@ == keys[i]
                        && entries@[i].1@ == source.view()[keys[i]],
                0 <= j <= entries@.len(),
                acc.view() == union_maps(
                    old(acc).view(),
                    source.view().restrict(keys.subrange(0, j as int).to_set()),
                ),
            decreases entries@.len() - j,
        {
            let key = &entries[j].0;
            let ids = &entries[j].1;
            let merged = match acc.get(key) {
                Some(current) => current.union(ids),
                None => ids.copy(),
            };
            acc.set(key.duplicate(), merged);
            proof {
                let k = keys[j as int];
                let done = keys.subrange(0, j as int).to_set();
                assert(keys.subrange(0, j + 1) =~= keys.subrange(0, j as int).push(k));
                assert(keys.subrange(0, j + 1).to_set() =~= done.insert(k));
                assert(!done.contains(k)) by {
                    if keys.subrange(0, j as int).contains(k) {
                        let t = choose|t: int| 0 <= t < j && keys.subrange(0, j as int)[t] == k;
                        assert(keys[t] == keys[j as int]);
                    }
                }
                assert(keys.contains(k));
                assert(acc.view() =~~= union_maps(
                    old(acc).view(),
                    source.view().restrict(keys.subrange(0, j + 1).to_set()),
                ));
            }
            j = j + 1;
        }
        proof {
            assert(keys.subrange(0, j as int) =~= keys);
            assert(source.view().restrict(keys.to_set()) =~= source.view());
        }
    }

    /// A map with the same models and identifiers.
    pub fn clone_map(source: &ModelIdMap) -> (r: ModelIdMap)
        requires
            source.wf(),
        ensures
            r.wf(),
            r.view() == source.view(),
    {
        let mut acc = DataMap::new();
        Self::merge_into(&mut acc, source);
        assert(union_maps(Map::empty(), source.view()) =~~= source.view());
        acc
    }

    /// Every model of the maps, with all of its identifiers.
    pub fn join(maps: &[ModelIdMap]) -> (r: ModelIdMap)
        requires
            forall|i: int| 0 <= i < maps@.len() ==> (#[trigger] maps@[i]).wf(),
        ensures
            r.wf(),
            r.view() == joined(maps@.map_values(|m: ModelIdMap| m.view())),
    {
        let ghost vs = maps@.map_values(|m: ModelIdMap| m.view());
        let mut acc = DataMap::new();
        let mut i: usize = 0;
        while i < maps.len()
            invariant
                forall|t: int| 0 <= t < maps@.len() ==> (#[trigger] maps@[t]).wf(),
                vs == maps@.map_values(|m: ModelIdMap| m.view()),
                0 <= i <= maps@.len(),
                acc.wf(),
                acc.view() == joined(vs.subrange(0, i as int)),
            decreases maps@.len() - i,
        {
            Self::merge_into(&mut acc, &maps[i]);
            proof {
                assert(vs.subrange(0, i + 1).drop_last() =~= vs.subrange(0, i as int));
            }
            i = i + 1;
        }
        assert(vs.subrange(0, i as int) =~= vs);
        acc
    }

    /// The models of `a` that `b` also has and whose identifiers meet, with
    /// the common identifiers.
    fn intersect_two(a: &ModelIdMap, b: &ModelIdMap) -> (r: ModelIdMap)
        requires
            a.wf(),
            b.wf(),
        ensures
            r.wf(),
            r.view() == intersect_maps(a.view(), b.view()),
    {
        let entries = a.iter();
        proof {
            a.lemma_key_order();
        }
        let ghost keys = a.key_order();
        let mut next: ModelIdMap = DataMap::new();
        let mut j: usize = 0;
        while j < entries.len()
            invariant
                a.wf(),
                b.wf(),
                keys == a.key_order(),
                keys.no_duplicates(),
                keys.to_set() == a.view().dom(),
                entries@.len() == keys.len(),
                forall|i: int|
                    0 <= i < entries@.len() ==> (#[trigger] entries@[i]).0@ == keys[i]
                        && entries@[i].1@ == a.view()[keys[i]],
                0 <= j <= entries@.len(),
                next.wf(),
                next.view() == intersect_maps(
                    a.view().restrict(keys.subrange(0, j as int).to_set()),
                    b.view(),
                ),
            decreases entries@.len() - j,
        {
            let key = &entries[j].0;
            let ids = &entries[j].1;
            proof {
                let k = keys[j as int];
                assert(keys.subrange(0, j + 1) =~= keys.subrange(0, j as int).push(k));
                assert(keys.contains(k));
            }
            match b.get(key) {
                Some(other) => {
                    let common = ids.intersection(other);
                    if !common.is_empty() {
                        next.set(key.duplicate(), common);
                    }
                },
                None => {},
            }
            proof {
                assert(next.view() =~= intersect_maps(
                    a.view().restrict(keys.subrange(0, j + 1).to_set()),
                    b.view(),
                ));
            }
            j = j + 1;
        }
        proof {
            assert(keys.subrange(0, j as int) =~= keys);
            assert(a.view().restrict(keys.to_set()) =~= a.view());
        }
        next
    }

    /// The models common to all the maps, with the identifiers common to
    /// all; a model whose common identifiers are none is left out.
    pub fn intersect(maps: &[ModelIdMap]) -> (r: ModelIdMap)
        requires
            forall|i: int| 0 <= i < maps@.len() ==> (#[trigger] maps@[i]).wf(),
        ensures
            r.wf(),
            r.view() == intersected(maps@.map_values(|m: ModelIdMap| m.view())),
    {
        let ghost vs = maps@.map_values(|m: ModelIdMap| m.view());
        if maps.len() == 0 {
            return DataMap::new();
        }
        let mut result = Self::clone_map(&maps[0]);
        proof {
            assert(vs.subrange(0, 1) =~= seq![vs[0]]);
        }
        let mut i: usize = 1;
        while i < maps.len()
            invariant
                forall|t: int| 0 <= t < maps@.len() ==> (#[trigger] maps@[t]).wf(),
                vs == maps@.map_values(|m: ModelIdMap| m.view()),
                1 <= i <= maps@.len(),
                result.wf(),
                result.view() == intersected(vs.subrange(0, i as int)),
            decreases maps@.len() - i,
        {
            result = Self::intersect_two(&result, &maps[i]);
            proof {
                assert(vs.subrange(0, i + 1).drop_last() =~= vs.subrange(0, i as int));
            }
            i = i + 1;
        }
        assert(vs.subrange(0, i as int) =~= vs);
        result
    }

    /// `target` without the identifiers of `source`, dropping each model of
    /// `source` that loses all of its identifiers. Unless `clone` is set,
    /// `target` becomes the result too.
    pub fn remove(target: &mut ModelIdMap, source: &ModelIdMap, clone: bool) -> (r: ModelIdMap)
        requires
            old(target).wf(),
            source.wf(),
        ensures
            r.wf(),
            final(target).wf(),
            r.view() == subtract_maps(old(target).view(), source.view()),
            final(target).view() == if clone {
                old(target).view()
            } else {
                r.view()
            },
    {
        let mut output = Self::clone_map(target);
        let entries = source.iter();
        proof {
            source.lemma_key_order();
        }
        let ghost keys = source.key_order();
        let ghost t0 = target.view();
        proof {
            assert(keys.subrange(0, 0).to_set() =~= Set::<Seq<char>>::empty());
            assert(subtract_maps(t0, source.view().restrict(Set::empty())) =~~= t0);
        }
        let mut j: usize = 0;
        while j < entries.len()
            invariant
                source.wf(),
                keys == source.key_order(),
                keys.no_duplicates(),
                keys.to_set() == source.view().dom(),
                entries@.len() == keys.len(),
                forall|i: int|
                    0 <= i < entries@.len() ==> (#[trigger] entries@[i]).0@ == keys[i]
                        && entries@[i].1@ == source.view()[keys[i]],
                0 <= j <= entries@.len(),
                output.wf(),
                output.view() == subtract_maps(t0, source.view().restrict(keys.subrange(0, j as int).to_set())),
            decreases entries@.len() - j,
        {
            let key = &entries[j].0;
            let ids = &entries[j].1;
            proof {
                let k = keys[j as int];
                assert(keys.subrange(0, j + 1) =~= keys.subrange(0, j as int).push(k));
                assert(keys.contains(k));
            }
            let ghost before = output.view();
            let remaining = match output.get(key) {
                Some(current) => Some(current.difference(ids)),
                None => None,
            };
            match remaining {
                Some(rest) => {
                    if rest.is_empty() {
                        output.delete(key);
                    } else {
                        output.set(key.duplicate(), rest);
                    }
                },
                None => {},
            }
            proof {
                let k = keys[j as int];
                let done = keys.subrange(0, j as int).to_set();
                assert(keys.subrange(0, j + 1).to_set() =~= done.insert(k));
                assert(!done.contains(k)) by {
                    if keys.subrange(0, j as int).contains(k) {
                        let t = choose|t: int| 0 <= t < j && keys.subrange(0, j as int)[t] == k;
                        assert(keys[t] == keys[j as int]);
                    }
                }
                let src = source.view();
                assert(!src.restrict(done).contains_key(k));
                assert(src.contains_key(k));
                if t0.contains_key(k) {
                    assert(before.contains_key(k));
                    assert(before[k] =~= t0[k].difference(Set::empty()));
                    assert(t0[k].difference(Set::empty()).difference(src[k]) =~= t0[k].difference(src[k]));
                }
                assert(output.view() =~~= subtract_maps(t0, source.view().restrict(keys.subrange(0, j + 1).to_set())));
            }
            j = j + 1;
        }
        proof {
            assert(keys.subrange(0, j as int) =~= keys);
            assert(source.view().restrict(keys.to_set()) =~= source.view());
        }
        if !clone {
            *target = Self::clone_map(&output);
        }
        output
    }

    /// `target` with the identifiers of `source` added, model by model.
    /// Unless `clone` is set, `target` becomes the result too.
    pub fn add(target: &mut ModelIdMap, source: &ModelIdMap, clone: bool) -> (r: ModelIdMap)
        requires
            old(target).wf(),
            source.wf(),
        ensures
            r.wf(),
            final(target).wf(),
            r.view() == union_maps(old(target).view(), source.view()),
            final(target).view() == if clone {
                old(target).view()
            } else {
                r.view()
            },
    {
        let mut output = Self::clone_map(target);
        Self::merge_into(&mut output, source);
        if !clone {
            *target = Self::clone_map(&output);
        }
        output
    }

    /// Adds `local_ids` to the identifiers of `model_id`.
    pub fn append(target: &mut ModelIdMap, model_id: &str, local_ids: &[u32])
        requires
            old(target).wf(),
        ensures
            final(target).wf(),
            final(target).view() == old(target).view().insert(
                model_id@,
                ids_of(old(target).view(), model_id@).union(local_ids@.to_set()),
            ),
    {
        let key = model_id.to_owned();
        let added = IdSet::from_slice(local_ids);
        let merged = match target.get(&key) {
            Some(current) => current.union(&added),
            None => added,
        };
        target.set(key, merged);
        assert(target.view() =~~= old(target).view().insert(
            model_id@,
            ids_of(old(target).view(), model_id@).union(local_ids@.to_set()),
        ));
    }

    /// Whether the two maps hold the same models with the same identifiers.
    pub fn is_equal(a: &ModelIdMap, b: &ModelIdMap) -> (r: bool)
        requires
            a.wf(),
            b.wf(),
        ensures
            r == (a.view() == b.view()),
    {
        proof {
            a.lemma_key_order();
            b.lemma_key_order();
        }
        if a.len() != b.len() {
            proof {
                if a.view() == b.view() {
                    a.key_order().unique_seq_to_set();
                    b.key_order().unique_seq_to_set();
                }
            }
            return false;
        }
        let entries = a.iter();
        let ghost keys = a.key_order();
        let mut j: usize = 0;
        while j < entries.len()
            invariant
                a.wf(),
                b.wf(),
                keys == a.key_order(),
                keys.no_duplicates(),
                keys.to_set() == a.view().dom(),
                b.key_order().no_duplicates(),
                b.key_order().to_set() == b.view().dom(),
                keys.len() == b.key_order().len(),
                entries@.len() == keys.len(),
                forall|i: int|
                    0 <= i < entries@.len() ==> (#[trigger] entries@[i]).0@ == keys[i]
                        && entries@[i].1@ == a.view()[keys[i]],
                0 <= j <= entries@.len(),
                forall|i: int|
                    0 <= i < j ==> b.view().contains_key(#[trigger] keys[i]) && b.view()[keys[i]]
                        == a.view()[keys[i]],
            decreases entries@.len() - j,
        {
            let key = &entries[j].0;
            let ids = &entries[j].1;
            proof {
                assert(keys.contains(keys[j as int]));
            }
            match b.get(key) {
                Some(other) => {
                    if !ids.same(other) {
                        return false;
                    }
                },
                None => {
                    return false;
                },
            }
            j = j + 1;
        }
        proof {
            assert forall|k: Seq<char>| #[trigger] a.view().contains_key(k) implies b.view().contains_key(k) && b.view()[k] == a.view()[k] by {
                assert(keys.to_set().contains(k));
                let i = choose|i: int| 0 <= i < keys.len() && keys[i] == k;
            }
            assert(a.view().dom().subset_of(b.view().dom()));
            keys.unique_seq_to_set();
            b.key_order().unique_seq_to_set();
            vstd::set_lib::lemma_subset_equality(a.view().dom(), b.view().dom());
            assert(a.view() =~= b.view());
        }
        true
    }

    /// Whether every model of the map has no identifiers.
    pub fn is_empty(map: &ModelIdMap) -> (r: bool)
        requires
            map.wf(),
        ensures
            r == (forall|k: Seq<char>| #[trigger] map.view().contains_key(k) ==> map.view()[k]
                == Set::<u32>::empty()),
    {
        proof {
            map.lemma_key_order();
        }
        let entries = map.iter();
        let ghost keys = map.key_order();
        let mut j: usize = 0;
        while j < entries.len()
            invariant
                map.wf(),
                keys == map.key_order(),
                keys.to_set() == map.view().dom(),
                entries@.len() == keys.len(),
                forall|i: int|
                    0 <= i < entries@.len() ==> (#[trigger] entries@[i]).0@ == keys[i]
                        && entries@[i].1@ == map.view()[keys[i]],
                0 <= j <= entries@.len(),
                forall|i: int| 0 <= i < j ==> map.view()[#[trigger] keys[i]] == Set::<u32>::empty(),
            decreases entries@.len() - j,
        {
            if !entries[j].1.is_empty() {
                proof {
                    assert(keys.contains(keys[j as int]));
                    assert(keys.to_set().contains(keys[j as int]));
                    assert(map.view().contains_key(keys[j as int]));
                }
                return false;
            }
            j = j + 1;
        }
        proof {
            assert forall|k: Seq<char>| #[trigger] map.view().contains_key(k) implies map.view()[k] == Set::<u32>::empty() by {
                assert(keys.to_set().contains(k));
                let i = choose|i: int| 0 <= i < keys.len() && keys[i] == k;
            }
        }
        true
    }

    /// The models in the order they came in, each with its identifiers in
    /// increasing order.
    pub fn to_raw(map: &ModelIdMap) -> (r: Vec<(String, Vec<u32>)>)
        requires
            map.wf(),
        ensures
            r@.len() == map.key_order().len(),
            forall|i: int|
                0 <= i < r@.len() ==> {
                    &&& (#[trigger] r@[i]).0@ == map.key_order()[i]
                    &&& r@[i].1@.to_set() == map.view()[map.key_order()[i]]
                    &&& increasing(r@[i].1@)
                },
    {
        let entries = map.iter();
        let mut out: Vec<(String, Vec<u32>)> = Vec::new();
        let mut j: usize = 0;
        while j < entries.len()
            invariant
                entries@.len() == map.key_order().len(),
                forall|i: int|
                    0 <= i < entries@.len() ==> (#[trigger] entries@[i]).0@ == map.key_order()[i]
                        && entries@[i].1@ == map.view()[map.key_order()[i]],
                0 <= j <= entries@.len(),
                out@.len() == j,
                forall|i: int|
                    0 <= i < j ==> {
                        &&& (#[trigger] out@[i]).0@ == map.key_order()[i]
                        &&& out@[i].1@.to_set() == map.view()[map.key_order()[i]]
                        &&& increasing(out@[i].1@)
                    },
            decreases entries@.len() - j,
        {
            out.push((entries[j].0.duplicate(), entries[j].1.to_vec()));
            j = j + 1;
        }
        out
    }

    /// The map of a raw list of models and identifiers; a later entry for a
    /// model wins.
    pub fn from_raw(raw: &Vec<(String, Vec<u32>)>) -> (r: ModelIdMap)
        ensures
            r.wf(),
            r.view() == raw_map(raw@),
    {
        let mut acc: ModelIdMap = DataMap::new();
        let mut j: usize = 0;
        while j < raw.len()
            invariant
                0 <= j <= raw@.len(),
                acc.wf(),
                acc.view() == raw_map(raw@.subrange(0, j as int)),
            decreases raw@.len() - j,
        {
            let ids = IdSet::from_slice(raw[j].1.as_slice());
            acc.set(raw[j].0.duplicate(), ids);
            proof {
                assert(raw@.subrange(0, j + 1).drop_last() =~= raw@.subrange(0, j as int));
            }
            j = j + 1;
        }
        assert(raw@.subrange(0, j as int) =~= raw@);
        acc
    }
}

} // verus!
