//! A map that keeps its entries in the order of their keys.

use vstd::prelude::*;

verus! {

/// A key type whose values are ordered by an integer rank.
pub trait SortKey: Copy {
    spec fn rank(self) -> int;

    /// Two keys of the same rank are the same key.
    proof fn lemma_rank_injective(a: Self, b: Self)
        ensures
            a.rank() == b.rank() ==> a == b,
    ;

    /// Does this key come before the other one?
    fn precedes(&self, other: &Self) -> (r: bool)
        ensures
            r == (self.rank() < other.rank()),
    ;
}

/// Entries sorted by the rank of their keys, no key twice. The view is the map from
/// ranks to values.
pub struct SortedMap<K: SortKey, V> {
    entries: Vec<(K, V)>,
}

/// What is left of `m` at and above `bound`.
pub open spec fn from_bound<V>(m: Map<int, V>, bound: int) -> Map<int, V> {
    m.restrict(Set::new(|r: int| r >= bound))
}

/// What is left of `m` below `bound`.
pub open spec fn below_bound<V>(m: Map<int, V>, bound: int) -> Map<int, V> {
    m.restrict(Set::new(|r: int| r < bound))
}

/// `b` is one above a key of `m`, and exactly `cap` keys are at or above it.
pub open spec fn is_newest_bound<V>(m: Map<int, V>, cap: nat, b: int) -> bool {
    m.contains_key(b - 1) && from_bound(m, b).dom().len() == cap
}

/// Where to cut a map of more than `cap` keys so that its `cap` largest keys are left.
pub open spec fn newest_bound<V>(m: Map<int, V>, cap: nat) -> int {
    choose|b: int| is_newest_bound(m, cap, b)
}

/// The part of `m` with its `cap` largest keys.
pub open spec fn newest<V>(m: Map<int, V>, cap: nat) -> Map<int, V> {
    if m.dom().len() <= cap {
        m
    } else {
        from_bound(m, newest_bound(m, cap))
    }
}

/// `b` is a key of `m`, and exactly `cap` keys are below it.
pub open spec fn is_oldest_bound<V>(m: Map<int, V>, cap: nat, b: int) -> bool {
    m.contains_key(b) && below_bound(m, b).dom().len() == cap
}

/// Where to cut a map of more than `cap` keys so that its `cap` smallest keys are left.
pub open spec fn oldest_bound<V>(m: Map<int, V>, cap: nat) -> int {
    choose|b: int| is_oldest_bound(m, cap, b)
}

/// The part of `m` with its `cap` smallest keys.
pub open spec fn oldest<V>(m: Map<int, V>, cap: nat) -> Map<int, V> {
    if m.dom().len() <= cap {
        m
    } else {
        below_bound(m, oldest_bound(m, cap))
    }
}

/// A finite set of integers that is not empty has a smallest element.
pub proof fn lemma_has_minimum(s: Set<int>) -> (least: int)
    requires
        s.finite(),
        s.len() > 0,
    ensures
        s.contains(least),
        forall|x: int| #[trigger] s.contains(x) ==> least <= x,
    decreases s.len(),
{
    let some = s.choose();
    let rest = s.remove(some);
    if rest.len() == 0 {
        assert(rest =~= Set::empty());
        assert forall|x: int| #[trigger] s.contains(x) implies some <= x by {
            if x != some {
                assert(rest.contains(x));
            }
        }
        some
    } else {
        let other = lemma_has_minimum(rest);
        let least = if some < other { some } else { other };
        assert forall|x: int| #[trigger] s.contains(x) implies least <= x by {
            if x != some {
                assert(rest.contains(x));
            }
        }
        least
    }
}

/// A map of more than `cap` keys can be cut so that its `cap` largest keys are left.
pub proof fn lemma_newest_bound_exists<V>(m: Map<int, V>, cap: nat)
    requires
        m.dom().finite(),
        m.dom().len() > cap,
    ensures
        is_newest_bound(m, cap, newest_bound(m, cap)),
    decreases m.dom().len(),
{
    let least = lemma_has_minimum(m.dom());
    let rest = m.remove(least);
    let b = if rest.dom().len() == cap {
        assert(from_bound(m, least + 1).dom() =~= rest.dom());
        least + 1
    } else {
        lemma_newest_bound_exists(rest, cap);
        let b = newest_bound(rest, cap);
        assert(from_bound(m, b).dom() =~= from_bound(rest, b).dom());
        b
    };
    assert(is_newest_bound(m, cap, b));
}

/// There is one place only to cut a map so that its `cap` largest keys are left.
pub proof fn lemma_newest_bound_unique<V>(m: Map<int, V>, cap: nat, b: int)
    requires
        m.dom().finite(),
        is_newest_bound(m, cap, b),
    ensures
        newest_bound(m, cap) == b,
{
    let c = newest_bound(m, cap);
    assert(is_newest_bound(m, cap, c));
    if c != b {
        let lo = if c < b { c } else { b };
        let hi = if c < b { b } else { c };
        let more = from_bound(m, lo).dom();
        let fewer = from_bound(m, hi).dom();
        assert(more.subset_of(m.dom()));
        vstd::set_lib::lemma_set_subset_finite(m.dom(), more);
        assert(more.contains(hi - 1));
        assert(!fewer.contains(hi - 1));
        assert(fewer.subset_of(more.remove(hi - 1)));
        vstd::set_lib::lemma_len_subset(fewer, more.remove(hi - 1));
    }
}

/// A finite set of integers that is not empty has a largest element.
proof fn lemma_has_maximum(s: Set<int>) -> (greatest: int)
    requires
        s.finite(),
        s.len() > 0,
    ensures
        s.contains(greatest),
        forall|x: int| #[trigger] s.contains(x) ==> x <= greatest,
    decreases s.len(),
{
    let a = s.choose();
    let rest = s.remove(a);
    if rest.len() == 0 {
        assert forall|x: int| #[trigger] s.contains(x) implies x <= a by {
            if x != a {
                assert(rest.contains(x));
            }
        }
        a
    } else {
        let b = lemma_has_maximum(rest);
        let greatest = if a >= b {
            a
        } else {
            b
        };
        assert forall|x: int| #[trigger] s.contains(x) implies x <= greatest by {
            if x != a {
                assert(rest.contains(x));
            }
        }
        greatest
    }
}

/// A map of more than `cap` keys can be cut so that its `cap` smallest keys are left.
pub proof fn lemma_oldest_bound_exists<V>(m: Map<int, V>, cap: nat)
    requires
        m.dom().finite(),
        m.dom().len() > cap,
    ensures
        is_oldest_bound(m, cap, oldest_bound(m, cap)),
    decreases m.dom().len(),
{
    let greatest = lemma_has_maximum(m.dom());
    assert(m.dom().contains(greatest));
    let rest = m.remove(greatest);
    let b = if rest.dom().len() == cap {
        assert(below_bound(m, greatest).dom() =~= rest.dom());
        greatest
    } else {
        lemma_oldest_bound_exists(rest, cap);
        let b = oldest_bound(rest, cap);
        assert(rest.contains_key(b));
        assert(m.dom().contains(b));
        assert(below_bound(m, b).dom() =~= below_bound(rest, b).dom());
        b
    };
    assert(is_oldest_bound(m, cap, b));
}

/// There is one place only to cut a map so that its `cap` smallest keys are left.
pub proof fn lemma_oldest_bound_unique<V>(m: Map<int, V>, cap: nat, b: int)
    requires
        m.dom().finite(),
        is_oldest_bound(m, cap, b),
    ensures
        oldest_bound(m, cap) == b,
{
    let c = oldest_bound(m, cap);
    assert(is_oldest_bound(m, cap, c));
    if c != b {
        let lo = if c < b { c } else { b };
        let hi = if c < b { b } else { c };
        let more = below_bound(m, hi).dom();
        let fewer = below_bound(m, lo).dom();
        assert(more.subset_of(m.dom()));
        vstd::set_lib::lemma_set_subset_finite(m.dom(), more);
        assert(more.contains(lo));
        assert(!fewer.contains(lo));
        assert(fewer.subset_of(more.remove(lo)));
        vstd::set_lib::lemma_len_subset(fewer, more.remove(lo));
    }
}

/// The ranks of the keys of `entries` increase strictly.
spec fn increasing<K: SortKey, V>(entries: Seq<(K, V)>) -> bool {
    forall|i: int, j: int|
        #![trigger entries[i], entries[j]]
        0 <= i < j < entries.len() ==> entries[i].0.rank() < entries[j].0.rank()
}

spec fn has_rank<K: SortKey, V>(entries: Seq<(K, V)>, rank: int) -> bool {
    exists|i: int| 0 <= i < entries.len() && (#[trigger] entries[i]).0.rank() == rank
}

spec fn position_of<K: SortKey, V>(entries: Seq<(K, V)>, rank: int) -> int {
    choose|i: int| 0 <= i < entries.len() && (#[trigger] entries[i]).0.rank() == rank
}

spec fn map_of<K: SortKey, V>(entries: Seq<(K, V)>) -> Map<int, V> {
    Map::new(|r: int| has_rank(entries, r), |r: int| entries[position_of(entries, r)].1)
}

proof fn lemma_entry<K: SortKey, V>(entries: Seq<(K, V)>, i: int)
    requires
        increasing(entries),
        0 <= i < entries.len(),
    ensures
        map_of(entries).contains_key(entries[i].0.rank()),
        map_of(entries)[entries[i].0.rank()] == entries[i].1,
{
    let r = entries[i].0.rank();
    let p = position_of(entries, r);
    assert(entries[i].0.rank() == r);
    assert(has_rank(entries, r));
    assert(0 <= p < entries.len() && entries[p].0.rank() == r);
    assert(p == i);
}

proof fn lemma_no_entry<K: SortKey, V>(entries: Seq<(K, V)>, at: int, rank: int)
    requires
        increasing(entries),
        0 <= at <= entries.len(),
        at > 0 ==> entries[at - 1].0.rank() < rank,
        at < entries.len() ==> rank < entries[at].0.rank(),
    ensures
        !map_of(entries).contains_key(rank),
{
    if has_rank(entries, rank) {
        let p = position_of(entries, rank);
        assert(0 <= p < entries.len() && entries[p].0.rank() == rank);
        if p < at {
            assert(entries[p].0.rank() <= entries[at - 1].0.rank());
        } else {
            assert(entries[at].0.rank() <= entries[p].0.rank());
        }
    }
}

proof fn lemma_insert<K: SortKey, V>(entries: Seq<(K, V)>, at: int, key: K, value: V)
    requires
        increasing(entries),
        0 <= at <= entries.len(),
        forall|i: int| 0 <= i < at ==> (#[trigger] entries[i]).0.rank() < key.rank(),
        forall|i: int| at <= i < entries.len() ==> key.rank() < (#[trigger] entries[i]).0.rank(),
    ensures
        increasing(entries.insert(at, (key, value))),
        map_of(entries.insert(at, (key, value))) == map_of(entries).insert(key.rank(), value),
        !map_of(entries).contains_key(key.rank()),
{
    let after = entries.insert(at, (key, value));
    assert(increasing(after));
    lemma_no_entry(entries, at, key.rank());
    lemma_entry(after, at);
    assert forall|r: int| r != key.rank() implies {
        &&& #[trigger] map_of(after).contains_key(r) == map_of(entries).contains_key(r)
        &&& map_of(entries).contains_key(r) ==> map_of(after)[r] == map_of(entries)[r]
    } by {
        if has_rank(entries, r) {
            let p = position_of(entries, r);
            lemma_entry(entries, p);
            let q = if p < at { p } else { p + 1 };
            assert(after[q] == entries[p]);
            lemma_entry(after, q);
        }
        if has_rank(after, r) {
            let q = position_of(after, r);
            assert(q != at);
            let p = if q < at { q } else { q - 1 };
            assert(after[q] == entries[p]);
            lemma_entry(entries, p);
        }
    }
    assert(map_of(after) =~= map_of(entries).insert(key.rank(), value));
}

proof fn lemma_remove<K: SortKey, V>(entries: Seq<(K, V)>, at: int)
    requires
        increasing(entries),
        0 <= at < entries.len(),
    ensures
        increasing(entries.remove(at)),
        map_of(entries.remove(at)) == map_of(entries).remove(entries[at].0.rank()),
{
    let rest = entries.remove(at);
    let (key, value) = entries[at];
    assert(increasing(rest));
    assert(rest.insert(at, (key, value)) =~= entries);
    lemma_insert(rest, at, key, value);
    assert(map_of(rest) =~= map_of(entries).remove(key.rank()));
}

proof fn lemma_dom_len<K: SortKey, V>(entries: Seq<(K, V)>)
    requires
        increasing(entries),
    ensures
        map_of(entries).dom().finite(),
        map_of(entries).dom().len() == entries.len(),
    decreases entries.len(),
{
    if entries.len() == 0 {
        assert(map_of(entries).dom() =~= Set::empty());
    } else {
        let n = entries.len() - 1;
        lemma_remove(entries, n);
        lemma_dom_len(entries.remove(n));
        lemma_entry(entries, n);
        assert(map_of(entries).dom() =~= map_of(entries.remove(n)).dom().insert(
            entries[n].0.rank(),
        ));
    }
}

/// What is left of a sorted sequence when the positions `from..to` are cut out.
proof fn lemma_cut<K: SortKey, V>(entries: Seq<(K, V)>, from: int, to: int, keep: spec_fn(int) -> bool)
    requires
        increasing(entries),
        0 <= from <= to <= entries.len(),
        forall|i: int|
            0 <= i < entries.len() ==> (keep((#[trigger] entries[i]).0.rank()) <==> !(from <= i < to)),
    ensures
        ({
            let rest = entries.subrange(0, from) + entries.subrange(to, entries.len() as int);
            &&& increasing(rest)
            &&& map_of(rest) == map_of(entries).restrict(Set::new(keep))
        }),
{
    let rest = entries.subrange(0, from) + entries.subrange(to, entries.len() as int);
    assert(increasing(rest));
    assert forall|r: int| {
        &&& #[trigger] map_of(rest).contains_key(r) == (map_of(entries).contains_key(r) && keep(r))
        &&& map_of(rest).contains_key(r) ==> map_of(rest)[r] == map_of(entries)[r]
    } by {
        if has_rank(rest, r) {
            let q = position_of(rest, r);
            let p = if q < from { q } else { q - from + to };
            assert(rest[q] == entries[p]);
            lemma_entry(rest, q);
            lemma_entry(entries, p);
        }
        if has_rank(entries, r) && keep(r) {
            let p = position_of(entries, r);
            let q = if p < from { p } else { p - to + from };
            assert(rest[q] == entries[p]);
            lemma_entry(rest, q);
            lemma_entry(entries, p);
        }
    }
    assert(map_of(rest) =~= map_of(entries).restrict(Set::new(keep)));
}

impl<K: SortKey, V> View for SortedMap<K, V> {
    type V = Map<int, V>;

    closed spec fn view(&self) -> Map<int, V> {
        map_of(self.entries@)
    }
}

impl<K: SortKey, V> SortedMap<K, V> {
    #[verifier::type_invariant]
    spec fn ordered(self) -> bool {
        increasing(self.entries@)
    }

    /// The keys in ascending order.
    pub closed spec fn keys(self) -> Seq<K> {
        self.entries@.map_values(|e: (K, V)| e.0)
    }

    /// `keys` lists every key of the map once, in ascending order.
    pub open spec fn listed(self) -> bool {
        &&& forall|i: int, j: int|
            #![trigger self.keys()[i], self.keys()[j]]
            0 <= i < j < self.keys().len() ==> self.keys()[i].rank() < self.keys()[j].rank()
        &&& forall|i: int|
            0 <= i < self.keys().len() ==> self@.contains_key((#[trigger] self.keys()[i]).rank())
        &&& forall|r: int| #[trigger]
            self@.contains_key(r) ==> exists|i: int|
                0 <= i < self.keys().len() && (#[trigger] self.keys()[i]).rank() == r
        &&& self@.dom().finite()
        &&& self@.dom().len() == self.keys().len()
    }

    proof fn lemma_listed(&self)
        requires
            increasing(self.entries@),
        ensures
            self.listed(),
            self.keys().len() == self.entries@.len(),
            forall|i: int| 0 <= i < self.keys().len() ==> #[trigger] self.keys()[i] == self.entries@[i].0,
    {
        let entries = self.entries@;
        lemma_dom_len(entries);
        assert forall|i: int| 0 <= i < self.keys().len() implies self@.contains_key(
            (#[trigger] self.keys()[i]).rank(),
        ) by {
            lemma_entry(entries, i);
        }
        assert forall|r: int| #[trigger] self@.contains_key(r) implies exists|i: int|
            0 <= i < self.keys().len() && (#[trigger] self.keys()[i]).rank() == r by {
            let p = position_of(entries, r);
            assert(self.keys()[p].rank() == r);
        }
    }

    pub fn new() -> (m: Self)
        ensures
            m@ == Map::<int, V>::empty(),
    {
        let m = SortedMap { entries: Vec::new() };
        assert(m@ =~= Map::<int, V>::empty());
        m
    }

    pub fn len(&self) -> (n: usize)
        ensures
            n == self@.dom().len(),
            n == self.keys().len(),
            self.listed(),
    {
        proof {
            use_type_invariant(self);
            self.lemma_listed();
        }
        self.entries.len()
    }

    pub fn is_empty(&self) -> (r: bool)
        ensures
            r == (self@ == Map::<int, V>::empty()),
            self.listed(),
    {
        proof {
            use_type_invariant(self);
            self.lemma_listed();
            if self.entries@.len() > 0 {
                lemma_entry(self.entries@, 0);
                assert(!Map::<int, V>::empty().contains_key(self.entries@[0].0.rank()));
            } else {
                assert(self@ =~= Map::<int, V>::empty());
            }
        }
        self.entries.len() == 0
    }

    /// All keys in ascending order.
    pub fn key_list(&self) -> (list: Vec<K>)
        ensures
            list@ == self.keys(),
            self.listed(),
    {
        let mut list: Vec<K> = Vec::new();
        let n: usize = self.len();
        let mut i: usize = 0;
        while i < n
            invariant
                i <= n,
                n == self.keys().len(),
                list@ == self.keys().take(i as int),
            decreases n - i,
        {
            list.push(self.key_at(i));
            i += 1;
            assert(self.keys().take(i as int) =~= self.keys().take(i - 1).push(self.keys()[i - 1]));
        }
        assert(self.keys().take(i as int) =~= self.keys());
        list
    }

    /// The key at position `i` in ascending order.
    pub fn key_at(&self, i: usize) -> (key: K)
        requires
            i < self.keys().len(),
        ensures
            key == self.keys()[i as int],
            self@.contains_key(key.rank()),
            self.listed(),
    {
        proof {
            use_type_invariant(self);
            self.lemma_listed();
        }
        self.entries[i].0
    }

    /// The value at position `i` in ascending order of the keys.
    pub fn value_at(&self, i: usize) -> (value: &V)
        requires
            i < self.keys().len(),
        ensures
            self@.contains_key(self.keys()[i as int].rank()),
            *value == self@[self.keys()[i as int].rank()],
            self.listed(),
    {
        proof {
            use_type_invariant(self);
            self.lemma_listed();
            lemma_entry(self.entries@, i as int);
        }
        &self.entries[i].1
    }

    /// Moves the entries out and leaves the map empty.
    fn take_entries(&mut self) -> (entries: Vec<(K, V)>)
        ensures
            entries@ == old(self).entries@,
            final(self).entries@ == Seq::<(K, V)>::empty(),
    {
        let mut entries: Vec<(K, V)> = Vec::new();
        std::mem::swap(&mut entries, &mut self.entries);
        entries
    }

    /// The number of keys that come before `key`.
    fn lower_bound(&self, key: &K) -> (at: usize)
        ensures
            at <= self.entries@.len(),
            forall|i: int| 0 <= i < at ==> (#[trigger] self.entries@[i]).0.rank() < key.rank(),
            forall|i: int|
                at <= i < self.entries@.len() ==> key.rank() <= (#[trigger] self.entries@[i]).0.rank(),
            increasing(self.entries@),
    {
        proof {
            use_type_invariant(self);
        }
        let mut lo: usize = 0;
        let mut hi: usize = self.entries.len();
        while lo < hi
            invariant
                lo <= hi <= self.entries@.len(),
                increasing(self.entries@),
                forall|i: int| 0 <= i < lo ==> (#[trigger] self.entries@[i]).0.rank() < key.rank(),
                forall|i: int|
                    hi <= i < self.entries@.len() ==> key.rank() <= (
                    #[trigger] self.entries@[i]).0.rank(),
            decreases hi - lo,
        {
            let mid: usize = lo + (hi - lo) / 2;
            let before: bool = self.entries[mid].0.precedes(key);
            if before {
                lo = mid + 1;
            } else {
                hi = mid;
            }
        }
        lo
    }

    /// The position of `key`, if it is there.
    fn find(&self, key: &K) -> (r: Option<usize>)
        ensures
            increasing(self.entries@),
            self@.contains_key(key.rank()) <==> r is Some,
            r matches Some(i) ==> i < self.entries@.len() && self.entries@[i as int].0 == *key
                && self@[key.rank()] == self.entries@[i as int].1,
    {
        let at: usize = self.lower_bound(key);
        if at < self.entries.len() {
            let after: bool = key.precedes(&self.entries[at].0);
            if !after {
                proof {
                    K::lemma_rank_injective(*key, self.entries@[at as int].0);
                    lemma_entry(self.entries@, at as int);
                }
                return Some(at);
            }
        }
        proof {
            lemma_no_entry(self.entries@, at as int, key.rank());
        }
        None
    }

    pub fn contains_key(&self, key: &K) -> (r: bool)
        ensures
            r == self@.contains_key(key.rank()),
    {
        self.find(key).is_some()
    }

    pub fn get(&self, key: &K) -> (r: Option<&V>)
        ensures
            r is Some <==> self@.contains_key(key.rank()),
            r matches Some(v) ==> *v == self@[key.rank()],
    {
        match self.find(key) {
            Some(i) => Some(&self.entries[i].1),
            None => None,
        }
    }

    /// Stores `value` under `key`, in place of what was there before.
    pub fn insert(&mut self, key: K, value: V)
        ensures
            final(self)@ == old(self)@.insert(key.rank(), value),
            final(self)@.dom().finite(),
    {
        let at: usize = self.lower_bound(&key);
        let ghost before = self.entries@;
        if at < self.entries.len() {
            let after: bool = key.precedes(&self.entries[at].0);
            if !after {
                proof {
                    K::lemma_rank_injective(key, before[at as int].0);
                    lemma_remove(before, at as int);
                    assert(before.remove(at as int).insert(at as int, (key, value)) =~= before.update(
                        at as int,
                        (key, value),
                    ));
                    lemma_insert(before.remove(at as int), at as int, key, value);
                    assert(map_of(before).remove(key.rank()).insert(key.rank(), value)
                        =~= map_of(before).insert(key.rank(), value));
                }
                let mut entries: Vec<(K, V)> = self.take_entries();
                entries[at] = (key, value);
                self.entries = entries;
                proof {
                    lemma_dom_len(self.entries@);
                }
                return;
            }
        }
        proof {
            lemma_insert(before, at as int, key, value);
        }
        let mut entries: Vec<(K, V)> = self.take_entries();
        entries.insert(at, (key, value));
        self.entries = entries;
        proof {
            lemma_dom_len(self.entries@);
        }
    }

    /// Takes the entry of `key` out of the map and gives its value.
    pub fn remove(&mut self, key: &K) -> (r: Option<V>)
        ensures
            final(self)@ == old(self)@.remove(key.rank()),
            final(self)@.dom().finite(),
            r is Some <==> old(self)@.contains_key(key.rank()),
            r matches Some(v) ==> v == old(self)@[key.rank()],
    {
        match self.find(key) {
            Some(i) => {
                proof {
                    lemma_remove(self.entries@, i as int);
                }
                let mut entries: Vec<(K, V)> = self.take_entries();
                let (_, value): (K, V) = entries.remove(i);
                self.entries = entries;
                proof {
                    lemma_dom_len(self.entries@);
                }
                Some(value)
            },
            None => {
                proof {
                    lemma_dom_len(self.entries@);
                }
                assert(self@.remove(key.rank()) =~= self@);
                None
            },
        }
    }

    /// The smallest key.
    pub fn first_key(&self) -> (r: Option<K>)
        ensures
            r is None <==> self@ == Map::<int, V>::empty(),
            r matches Some(k) ==> self@.contains_key(k.rank()) && forall|rank: int| #[trigger]
                self@.contains_key(rank) ==> k.rank() <= rank,
            self.listed(),
    {
        proof {
            use_type_invariant(self);
            self.lemma_listed();
        }
        let empty: bool = self.is_empty();
        if empty {
            None
        } else {
            proof {
                if self.entries@.len() == 0 {
                    assert(self@ =~= Map::<int, V>::empty());
                }
            }
            Some(self.entries[0].0)
        }
    }

    /// The largest key.
    pub fn last_key(&self) -> (r: Option<K>)
        ensures
            r is None <==> self@ == Map::<int, V>::empty(),
            r matches Some(k) ==> self@.contains_key(k.rank()) && forall|rank: int| #[trigger]
                self@.contains_key(rank) ==> rank <= k.rank(),
            self.listed(),
    {
        proof {
            use_type_invariant(self);
            self.lemma_listed();
        }
        let empty: bool = self.is_empty();
        if empty {
            None
        } else {
            proof {
                if self.entries@.len() == 0 {
                    assert(self@ =~= Map::<int, V>::empty());
                }
            }
            Some(self.entries[self.entries.len() - 1].0)
        }
    }

    /// Removes the entries whose keys come before `bound`.
    pub fn drop_before(&mut self, bound: &K)
        ensures
            final(self)@ == from_bound(old(self)@, bound.rank()),
            final(self)@.dom().finite(),
    {
        let at: usize = self.lower_bound(bound);
        let ghost before = self.entries@;
        proof {
            let keep = |r: int| r >= bound.rank();
            lemma_cut(before, 0, at as int, keep);
            assert(before.subrange(0, 0) + before.subrange(at as int, before.len() as int)
                =~= before.subrange(at as int, before.len() as int));
        }
        let mut entries: Vec<(K, V)> = self.take_entries();
        self.entries = entries.split_off(at);
        proof {
            lemma_dom_len(self.entries@);
        }
    }

    /// Removes the entries whose keys are not before `bound`.
    pub fn drop_from(&mut self, bound: &K)
        ensures
            final(self)@ == below_bound(old(self)@, bound.rank()),
            final(self)@.dom().finite(),
    {
        let at: usize = self.lower_bound(bound);
        let ghost before = self.entries@;
        proof {
            let keep = |r: int| r < bound.rank();
            lemma_cut(before, at as int, before.len() as int, keep);
            assert(before.subrange(0, at as int) + before.subrange(
                before.len() as int,
                before.len() as int,
            ) =~= before.subrange(0, at as int));
        }
        let mut entries: Vec<(K, V)> = self.take_entries();
        entries.truncate(at);
        self.entries = entries;
        proof {
            lemma_dom_len(self.entries@);
        }
    }

    /// Removes the entries whose keys are in `from..to`.
    pub fn drop_range(&mut self, from: &K, to: &K)
        ensures
            final(self)@ == old(self)@.restrict(
                Set::new(|r: int| r < from.rank() || r >= to.rank()),
            ),
            final(self)@.dom().finite(),
    {
        let a: usize = self.lower_bound(from);
        let b: usize = self.lower_bound(to);
        let ghost before = self.entries@;
        let ghost keep = |r: int| r < from.rank() || r >= to.rank();
        if a < b {
            proof {
                lemma_cut(before, a as int, b as int, keep);
            }
            let mut rest: Vec<(K, V)> = self.take_entries();
            let mut tail: Vec<(K, V)> = rest.split_off(b);
            let _cut: Vec<(K, V)> = rest.split_off(a);
            rest.append(&mut tail);
            assert(rest@ =~= before.subrange(0, a as int) + before.subrange(
                b as int,
                before.len() as int,
            ));
            self.entries = rest;
        } else {
            proof {
                lemma_cut(before, a as int, a as int, keep);
                assert(before.subrange(0, a as int) + before.subrange(a as int, before.len() as int)
                    =~= before);
            }
        }
        proof {
            lemma_dom_len(self.entries@);
        }
    }

    /// Removes the entries with the smallest keys until at most `cap` are left. Gives the
    /// largest key that had to go.
    pub fn keep_newest(&mut self, cap: usize) -> (dropped: Option<K>)
        ensures
            final(self)@ == newest(old(self)@, cap as nat),
            final(self)@.dom().finite(),
            final(self)@.dom().len() <= cap,
            dropped is Some <==> old(self)@.dom().len() > cap,
            dropped matches Some(k) ==> is_newest_bound(old(self)@, cap as nat, k.rank() + 1)
                && newest_bound(old(self)@, cap as nat) == k.rank() + 1,
    {
        let ghost before = self.entries@;
        proof {
            use_type_invariant(&*self);
            lemma_dom_len(before);
        }
        let n: usize = self.entries.len();
        if n <= cap {
            return None;
        }
        let at: usize = n - cap;
        let dropped: K = self.entries[at - 1].0;
        proof {
            let bound = dropped.rank() + 1;
            let rest = before.subrange(at as int, before.len() as int);
            lemma_cut(before, 0, at as int, |r: int| r >= bound);
            assert(before.subrange(0, 0) + rest =~= rest);
            lemma_dom_len(rest);
            lemma_entry(before, at - 1);
            assert(is_newest_bound(map_of(before), cap as nat, bound));
            lemma_newest_bound_unique(map_of(before), cap as nat, bound);
        }
        let mut entries: Vec<(K, V)> = self.take_entries();
        self.entries = entries.split_off(at);
        Some(dropped)
    }

    /// Removes the entries with the largest keys until at most `cap` are left.
    pub fn keep_oldest(&mut self, cap: usize)
        ensures
            final(self)@ == oldest(old(self)@, cap as nat),
            final(self)@.dom().finite(),
            final(self)@.dom().len() <= cap,
            old(self)@.dom().len() > cap ==> is_oldest_bound(
                old(self)@,
                cap as nat,
                oldest_bound(old(self)@, cap as nat),
            ),
    {
        let ghost before = self.entries@;
        proof {
            use_type_invariant(&*self);
            lemma_dom_len(before);
        }
        let n: usize = self.entries.len();
        if n <= cap {
            return;
        }
        proof {
            let bound = before[cap as int].0.rank();
            let rest = before.subrange(0, cap as int);
            lemma_cut(before, cap as int, before.len() as int, |r: int| r < bound);
            assert(rest + before.subrange(before.len() as int, before.len() as int) =~= rest);
            lemma_dom_len(rest);
            lemma_entry(before, cap as int);
            assert(is_oldest_bound(map_of(before), cap as nat, bound));
            lemma_oldest_bound_unique(map_of(before), cap as nat, bound);
        }
        let mut entries: Vec<(K, V)> = self.take_entries();
        entries.truncate(cap);
        self.entries = entries;
    }
}

} // verus!
