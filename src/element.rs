//! Values that the observable containers compare and copy.
use vstd::prelude::*;

verus! {

/// A value that the containers can compare with another by its view and copy
/// into an event payload.
pub trait Element: View + Sized {
    /// Whether the two values have the same view.
    fn same(&self, other: &Self) -> (r: bool)
        ensures
            r == (self@ == other@),
    ;

    /// A copy with the same view.
    fn duplicate(&self) -> (r: Self)
        ensures
            r@ == self@,
    ;
}

impl Element for String {
    fn same(&self, other: &Self) -> (r: bool) {
        *self == *other
    }

    fn duplicate(&self) -> (r: Self) {
        self.clone()
    }
}

impl Element for u32 {
    fn same(&self, other: &Self) -> (r: bool) {
        *self == *other
    }

    fn duplicate(&self) -> (r: Self) {
        *self
    }
}

impl Element for u64 {
    fn same(&self, other: &Self) -> (r: bool) {
        *self == *other
    }

    fn duplicate(&self) -> (r: Self) {
        *self
    }
}

impl Element for usize {
    fn same(&self, other: &Self) -> (r: bool) {
        *self == *other
    }

    fn duplicate(&self) -> (r: Self) {
        *self
    }
}

/// Lexicographic order on character sequences, by code point; a proper
/// prefix comes first.
pub open spec fn chars_less(a: Seq<char>, b: Seq<char>) -> bool
    decreases a.len(),
{
    if a.len() == 0 {
        b.len() > 0
    } else if b.len() == 0 {
        false
    } else if a[0] != b[0] {
        a[0] < b[0]
    } else {
        chars_less(a.drop_first(), b.drop_first())
    }
}

proof fn lemma_chars_irreflexive(a: Seq<char>)
    ensures
        !chars_less(a, a),
    decreases a.len(),
{
    if a.len() > 0 {
        lemma_chars_irreflexive(a.drop_first());
    }
}

proof fn lemma_chars_transitive(a: Seq<char>, b: Seq<char>, c: Seq<char>)
    ensures
        chars_less(a, b) && chars_less(b, c) ==> chars_less(a, c),
    decreases a.len(),
{
    if a.len() > 0 && b.len() > 0 && c.len() > 0 {
        lemma_chars_transitive(a.drop_first(), b.drop_first(), c.drop_first());
    }
}

proof fn lemma_chars_total(a: Seq<char>, b: Seq<char>)
    ensures
        a != b ==> chars_less(a, b) || chars_less(b, a),
    decreases a.len(),
{
    if a.len() == 0 && b.len() == 0 {
        assert(a =~= b);
    }
    if a.len() > 0 && b.len() > 0 && a[0] == b[0] {
        lemma_chars_total(a.drop_first(), b.drop_first());
        if a.drop_first() == b.drop_first() {
            assert(a =~= seq![a[0]] + a.drop_first());
            assert(b =~= seq![b[0]] + b.drop_first());
        }
    }
}

/// Whether the views in `s` are in strictly increasing key order.
pub open spec fn sorted_keys<K: Key>(s: Seq<K::V>) -> bool {
    forall|i: int, j: int| 0 <= i < j < s.len() ==> K::precedes(s[i], s[j])
}

/// A key of the observable containers: an element whose views are strictly
/// and totally ordered.
pub trait Key: Element {
    /// The order on views.
    spec fn precedes(a: Self::V, b: Self::V) -> bool;

    /// Whether `self` comes before `other`.
    fn less(&self, other: &Self) -> (r: bool)
        ensures
            r == Self::precedes(self@, other@),
    ;

    /// The order is irreflexive, transitive and total.
    proof fn lemma_order(a: Self::V, b: Self::V, c: Self::V)
        ensures
            !Self::precedes(a, a),
            Self::precedes(a, b) && Self::precedes(b, c) ==> Self::precedes(a, c),
            a != b ==> Self::precedes(a, b) || Self::precedes(b, a),
    ;
}

impl Key for String {
    open spec fn precedes(a: Seq<char>, b: Seq<char>) -> bool {
        chars_less(a, b)
    }

    fn less(&self, other: &Self) -> (r: bool) {
        let a = self.as_str();
        let b = other.as_str();
        let n = a.unicode_len();
        let m = b.unicode_len();
        assert(a@.subrange(0, n as int) =~= a@);
        assert(b@.subrange(0, m as int) =~= b@);
        assert(a@.subrange(0, 0) =~= b@.subrange(0, 0));
        let mut i: usize = 0;
        while i < n && i < m
            invariant
                a@ == self@,
                b@ == other@,
                n == a@.len(),
                m == b@.len(),
                0 <= i <= n,
                i <= m,
                a@.subrange(0, i as int) == b@.subrange(0, i as int),
                chars_less(a@, b@) == chars_less(a@.subrange(i as int, n as int), b@.subrange(i as int, m as int)),
            decreases n - i,
        {
            let x = a.get_char(i);
            let y = b.get_char(i);
            let ghost sa = a@.subrange(i as int, n as int);
            let ghost sb = b@.subrange(i as int, m as int);
            assert(sa[0] == x && sb[0] == y);
            if x != y {
                return x < y;
            }
            assert(sa.drop_first() =~= a@.subrange(i + 1, n as int));
            assert(sb.drop_first() =~= b@.subrange(i + 1, m as int));
            assert(a@.subrange(0, i + 1) =~= a@.subrange(0, i as int).push(x));
            assert(b@.subrange(0, i + 1) =~= b@.subrange(0, i as int).push(y));
            i = i + 1;
        }
        i == n && i < m
    }

    proof fn lemma_order(a: Seq<char>, b: Seq<char>, c: Seq<char>) {
        lemma_chars_irreflexive(a);
        lemma_chars_transitive(a, b, c);
        lemma_chars_total(a, b);
    }
}

impl Key for u32 {
    open spec fn precedes(a: u32, b: u32) -> bool {
        a < b
    }

    fn less(&self, other: &Self) -> (r: bool) {
        *self < *other
    }

    proof fn lemma_order(a: u32, b: u32, c: u32) {
    }
}

impl Key for u64 {
    open spec fn precedes(a: u64, b: u64) -> bool {
        a < b
    }

    fn less(&self, other: &Self) -> (r: bool) {
        *self < *other
    }

    proof fn lemma_order(a: u64, b: u64, c: u64) {
    }
}

impl Key for usize {
    open spec fn precedes(a: usize, b: usize) -> bool {
        a < b
    }

    fn less(&self, other: &Self) -> (r: bool) {
        *self < *other
    }

    proof fn lemma_order(a: usize, b: usize, c: usize) {
    }
}

/// A veto over the insertion of a key and value into an observable map.
pub trait Guard<K, V> {
    /// Whether the guard lets `key` and `value` in.
    spec fn admits(&self, key: K, value: V) -> bool;

    fn accepts(&self, key: &K, value: &V) -> (r: bool)
        ensures
            r == self.admits(*key, *value),
    ;
}

/// A veto over the insertion of an item into an observable set.
pub trait SetGuard<T> {
    /// Whether the guard lets `item` in.
    spec fn admits_item(&self, item: T) -> bool;

    fn accepts_item(&self, item: &T) -> (r: bool)
        ensures
            r == self.admits_item(*item),
    ;
}

/// The guard that lets everything in.
#[derive(Clone, Copy, Debug, PartialEq, Eq, Structural)]
pub struct AcceptAll;

impl<K, V> Guard<K, V> for AcceptAll {
    open spec fn admits(&self, key: K, value: V) -> bool {
        true
    }

    fn accepts(&self, key: &K, value: &V) -> (r: bool) {
        true
    }
}

impl<T> SetGuard<T> for AcceptAll {
    open spec fn admits_item(&self, item: T) -> bool {
        true
    }

    fn accepts_item(&self, item: &T) -> (r: bool) {
        true
    }
}

} // verus!
