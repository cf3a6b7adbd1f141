use vstd::prelude::*;

use crate::types::{AccountKey, AssetKey, ClassId};

verus! {

/// A key of a storage table: compared by value, and grouped under the class it belongs to.
pub trait TableKey: Copy + Sized {
    spec fn class_of(&self) -> ClassId;

    fn class(&self) -> (r: ClassId)
        ensures
            r == self.class_of(),
    ;

    fn same(&self, other: &Self) -> (r: bool)
        ensures
            r == (*self == *other),
    ;
}

impl TableKey for u32 {
    open spec fn class_of(&self) -> ClassId {
        *self
    }

    fn class(&self) -> (r: ClassId) {
        *self
    }

    fn same(&self, other: &Self) -> (r: bool) {
        *self == *other
    }
}

impl TableKey for AssetKey {
    open spec fn class_of(&self) -> ClassId {
        self.class
    }

    fn class(&self) -> (r: ClassId) {
        self.class
    }

    fn same(&self, other: &Self) -> (r: bool) {
        self.class == other.class && self.instance == other.instance
    }
}

impl TableKey for AccountKey {
    open spec fn class_of(&self) -> ClassId {
        self.class
    }

    fn class(&self) -> (r: ClassId) {
        self.class
    }

    fn same(&self, other: &Self) -> (r: bool) {
        self.who == other.who && self.class == other.class && self.instance == other.instance
    }
}

/// The sum of `f` over a sequence of entries.
pub open spec fn sum_of<K, V>(s: Seq<(K, V)>, f: spec_fn(K, V) -> int) -> int
    decreases s.len(),
{
    if s.len() == 0 {
        0
    } else {
        sum_of(s.drop_last(), f) + f(s.last().0, s.last().1)
    }
}

/// `f` gives nothing to the entries of class `c`.
pub open spec fn zero_on_class<K: TableKey, V>(f: spec_fn(K, V) -> int, c: ClassId) -> bool {
    forall|k: K, v: V| k.class_of() == c ==> #[trigger] f(k, v) == 0
}

proof fn lemma_sum_update<K, V>(s: Seq<(K, V)>, j: int, e: (K, V), f: spec_fn(K, V) -> int)
    requires
        0 <= j < s.len(),
    ensures
        sum_of(s.update(j, e), f) == sum_of(s, f) - f(s[j].0, s[j].1) + f(e.0, e.1),
    decreases s.len(),
{
    let t = s.update(j, e);
    if j == s.len() - 1 {
        assert(t.drop_last() =~= s.drop_last());
    } else {
        assert(t.drop_last() =~= s.drop_last().update(j, e));
        lemma_sum_update(s.drop_last(), j, e, f);
    }
}

proof fn lemma_sum_remove<K, V>(s: Seq<(K, V)>, j: int, f: spec_fn(K, V) -> int)
    requires
        0 <= j < s.len(),
    ensures
        sum_of(s.remove(j), f) == sum_of(s, f) - f(s[j].0, s[j].1),
    decreases s.len(),
{
    let t = s.remove(j);
    if j == s.len() - 1 {
        assert(t =~= s.drop_last());
    } else {
        assert(t.drop_last() =~= s.drop_last().remove(j));
        assert(t.last() == s.last());
        lemma_sum_remove(s.drop_last(), j, f);
    }
}

proof fn lemma_sum_push<K, V>(s: Seq<(K, V)>, e: (K, V), f: spec_fn(K, V) -> int)
    ensures
        sum_of(s.push(e), f) == sum_of(s, f) + f(e.0, e.1),
{
    assert(s.push(e).drop_last() =~= s);
}

proof fn lemma_sum_congruent<K, V>(s: Seq<(K, V)>, f: spec_fn(K, V) -> int, g: spec_fn(K, V) -> int)
    requires
        forall|j: int| 0 <= j < s.len() ==> f(s[j].0, s[j].1) == g(s[j].0, s[j].1),
    ensures
        sum_of(s, f) == sum_of(s, g),
    decreases s.len(),
{
    if s.len() > 0 {
        let t = s.drop_last();
        assert forall|j: int| 0 <= j < t.len() implies f(t[j].0, t[j].1) == g(t[j].0, t[j].1) by {
            assert(t[j] == s[j]);
        }
        lemma_sum_congruent(t, f, g);
        assert(f(s[s.len() - 1].0, s[s.len() - 1].1) == g(s[s.len() - 1].0, s[s.len() - 1].1));
    }
}

proof fn lemma_sum_at_least<K, V>(s: Seq<(K, V)>, f: spec_fn(K, V) -> int, j: int)
    requires
        forall|x: int| 0 <= x < s.len() ==> f(s[x].0, s[x].1) >= 0,
        -1 <= j < s.len(),
    ensures
        sum_of(s, f) >= if j >= 0 {
            f(s[j].0, s[j].1)
        } else {
            0
        },
    decreases s.len(),
{
    if s.len() > 0 {
        let t = s.drop_last();
        assert forall|x: int| 0 <= x < t.len() implies f(t[x].0, t[x].1) >= 0 by {
            assert(t[x] == s[x]);
        }
        assert(f(s[s.len() - 1].0, s[s.len() - 1].1) >= 0);
        if j == s.len() - 1 {
            lemma_sum_at_least(t, f, -1);
        } else {
            lemma_sum_at_least(t, f, j);
            if j >= 0 {
                assert(t[j] == s[j]);
            }
        }
    }
}

/// A keyed storage table: a finite map from keys to values.
#[verifier::reject_recursive_types(K)]
pub struct Table<K, V> {
    entries: Vec<(K, V)>,
    model: Ghost<Map<K, V>>,
}

impl<K, V> View for Table<K, V> {
    type V = Map<K, V>;

    closed spec fn view(&self) -> Map<K, V> {
        self.model@
    }
}

impl<K: TableKey, V> Table<K, V> {
    /// The table holds each key once, and its entries are exactly its map.
    pub closed spec fn wf(&self) -> bool {
        &&& forall|j: int|
            0 <= j < self.entries@.len() ==> {
                &&& self.model@.contains_key(#[trigger] self.entries@[j].0)
                &&& self.model@[self.entries@[j].0] == self.entries@[j].1
            }
        &&& forall|k: K| #[trigger]
            self.model@.contains_key(k) ==> exists|j: int|
                0 <= j < self.entries@.len() && #[trigger] self.entries@[j].0 == k
        &&& forall|j1: int, j2: int|
            0 <= j1 < self.entries@.len() && 0 <= j2 < self.entries@.len() && j1 != j2
                ==> #[trigger] self.entries@[j1].0 != #[trigger] self.entries@[j2].0
    }

    /// The sum of `f` over the entries of the table.
    pub closed spec fn total(&self, f: spec_fn(K, V) -> int) -> int {
        sum_of(self.entries@, f)
    }

    /// The total depends only on what `f` gives to the entries of the table.
    pub proof fn lemma_total_congruent(&self, f: spec_fn(K, V) -> int, g: spec_fn(K, V) -> int)
        requires
            self.wf(),
            forall|k: K| #[trigger] self@.contains_key(k) ==> f(k, self@[k]) == g(k, self@[k]),
        ensures
            self.total(f) == self.total(g),
    {
        let s = self.entries@;
        assert forall|j: int| 0 <= j < s.len() implies f(s[j].0, s[j].1) == g(s[j].0, s[j].1) by {
            assert(self@.contains_key(s[j].0));
        }
        lemma_sum_congruent(s, f, g);
    }

    /// A total of `f`, never negative on the entries, is not negative and is at least what
    /// `f` gives to the entry of `k`, if there is one.
    pub proof fn lemma_total_at_least(&self, f: spec_fn(K, V) -> int, k: K)
        requires
            self.wf(),
            forall|k2: K| #[trigger] self@.contains_key(k2) ==> f(k2, self@[k2]) >= 0,
        ensures
            self.total(f) >= 0,
            self@.contains_key(k) ==> self.total(f) >= f(k, self@[k]),
    {
        let s = self.entries@;
        assert forall|x: int| 0 <= x < s.len() implies f(s[x].0, s[x].1) >= 0 by {
            assert(self@.contains_key(s[x].0));
        }
        lemma_sum_at_least(s, f, -1);
        if self@.contains_key(k) {
            let j = choose|j: int| 0 <= j < s.len() && #[trigger] s[j].0 == k;
            lemma_sum_at_least(s, f, j);
        }
    }

    /// A total of `f` that is zero on every entry is zero.
    pub proof fn lemma_total_zero(&self, f: spec_fn(K, V) -> int)
        requires
            self.wf(),
            forall|k: K| #[trigger] self@.contains_key(k) ==> f(k, self@[k]) == 0,
        ensures
            self.total(f) == 0,
    {
        let z = |k: K, v: V| 0int;
        self.lemma_total_congruent(f, z);
        lemma_sum_zero(self.entries@, z);
    }

    pub fn new() -> (t: Self)
        ensures
            t.wf(),
            t@ == Map::<K, V>::empty(),
            forall|f: spec_fn(K, V) -> int| #[trigger] t.total(f) == 0,
    {
        Table { entries: Vec::new(), model: Ghost(Map::empty()) }
    }

    fn find(&self, k: &K) -> (r: Option<usize>)
        requires
            self.wf(),
        ensures
            match r {
                Some(j) => j < self.entries@.len() && self.entries@[j as int].0 == *k,
                None => !self@.contains_key(*k),
            },
    {
        let mut j: usize = 0;
        while j < self.entries.len()
            invariant
                self.wf(),
                j <= self.entries@.len(),
                forall|x: int| 0 <= x < j ==> self.entries@[x].0 != *k,
            decreases self.entries@.len() - j,
        {
            if self.entries[j].0.same(k) {
                return Some(j);
            }
            j += 1;
        }
        None
    }

    pub fn contains_key(&self, k: &K) -> (r: bool)
        requires
            self.wf(),
        ensures
            r == self@.contains_key(*k),
    {
        match self.find(k) {
            Some(_) => true,
            None => false,
        }
    }

    pub fn get(&self, k: &K) -> (r: Option<&V>)
        requires
            self.wf(),
        ensures
            match r {
                Some(v) => self@.contains_key(*k) && *v == self@[*k],
                None => !self@.contains_key(*k),
            },
    {
        match self.find(k) {
            Some(j) => Some(&self.entries[j].1),
            None => None,
        }
    }

    pub fn insert(&mut self, k: K, v: V)
        requires
            old(self).wf(),
        ensures
            final(self).wf(),
            final(self)@ == old(self)@.insert(k, v),
            forall|f: spec_fn(K, V) -> int| #[trigger]
                final(self).total(f) == old(self).total(f) - (if old(self)@.contains_key(k) {
                    f(k, old(self)@[k])
                } else {
                    0
                }) + f(k, v),
    {
        let ghost s = self.entries@;
        let ghost m = self.model@;
        match self.find(&k) {
            Some(j) => {
                self.entries.set(j, (k, v));
                self.model = Ghost(m.insert(k, v));
                proof {
                    let t = self.entries@;
                    assert(t == s.update(j as int, (k, v)));
                    assert forall|k2: K| #[trigger] self.model@.contains_key(k2) implies exists|x: int|
                        0 <= x < t.len() && #[trigger] t[x].0 == k2 by {
                        if k2 == k {
                            assert(t[j as int].0 == k2);
                        } else {
                            let x = choose|x: int| 0 <= x < s.len() && #[trigger] s[x].0 == k2;
                            assert(t[x].0 == k2);
                        }
                    }
                    assert forall|f: spec_fn(K, V) -> int| #[trigger]
                        self.total(f) == sum_of(s, f) - f(k, m[k]) + f(k, v) by {
                        lemma_sum_update(s, j as int, (k, v), f);
                    }
                }
            },
            None => {
                self.entries.push((k, v));
                self.model = Ghost(m.insert(k, v));
                proof {
                    let t = self.entries@;
                    assert(t == s.push((k, v)));
                    assert forall|k2: K| #[trigger] self.model@.contains_key(k2) implies exists|x: int|
                        0 <= x < t.len() && #[trigger] t[x].0 == k2 by {
                        if k2 == k {
                            assert(t[s.len() as int].0 == k2);
                        } else {
                            let x = choose|x: int| 0 <= x < s.len() && #[trigger] s[x].0 == k2;
                            assert(t[x].0 == k2);
                        }
                    }
                    assert forall|j1: int, j2: int|
                        0 <= j1 < t.len() && 0 <= j2 < t.len() && j1 != j2 implies #[trigger] t[j1].0
                        != #[trigger] t[j2].0 by {
                        if j1 < s.len() {
                            assert(m.contains_key(s[j1].0));
                        }
                        if j2 < s.len() {
                            assert(m.contains_key(s[j2].0));
                        }
                    }
                    assert forall|f: spec_fn(K, V) -> int| #[trigger]
                        self.total(f) == sum_of(s, f) + f(k, v) by {
                        lemma_sum_push(s, (k, v), f);
                    }
                }
            },
        }
    }

    fn remove_at(&mut self, j: usize) -> (r: (K, V))
        requires
            old(self).wf(),
            j < old(self).entries@.len(),
        ensures
            final(self).wf(),
            r == old(self).entries@[j as int],
            old(self)@.contains_key(r.0),
            old(self)@[r.0] == r.1,
            final(self)@ == old(self)@.remove(r.0),
            final(self).entries@ == old(self).entries@.remove(j as int),
            forall|f: spec_fn(K, V) -> int| #[trigger]
                final(self).total(f) == old(self).total(f) - f(r.0, r.1),
    {
        let ghost s = self.entries@;
        let ghost m = self.model@;
        let r = self.entries.remove(j);
        self.model = Ghost(m.remove(r.0));
        proof {
            let t = self.entries@;
            assert(t == s.remove(j as int));
            assert forall|x: int| 0 <= x < t.len() implies {
                &&& self.model@.contains_key(#[trigger] t[x].0)
                &&& self.model@[t[x].0] == t[x].1
            } by {
                if x < j {
                    assert(t[x] == s[x]);
                } else {
                    assert(t[x] == s[x + 1]);
                }
            }
            assert forall|k2: K| #[trigger] self.model@.contains_key(k2) implies exists|x: int|
                0 <= x < t.len() && #[trigger] t[x].0 == k2 by {
                let x = choose|x: int| 0 <= x < s.len() && #[trigger] s[x].0 == k2;
                if x < j {
                    assert(t[x].0 == k2);
                } else {
                    assert(t[x - 1].0 == k2);
                }
            }
            assert forall|j1: int, j2: int|
                0 <= j1 < t.len() && 0 <= j2 < t.len() && j1 != j2 implies #[trigger] t[j1].0
                != #[trigger] t[j2].0 by {
                let a = if j1 < j { j1 } else { j1 + 1 };
                let b = if j2 < j { j2 } else { j2 + 1 };
                assert(t[j1] == s[a]);
                assert(t[j2] == s[b]);
            }
            assert forall|f: spec_fn(K, V) -> int| #[trigger]
                self.total(f) == sum_of(s, f) - f(r.0, r.1) by {
                lemma_sum_remove(s, j as int, f);
            }
        }
        r
    }

    pub fn remove(&mut self, k: &K) -> (r: Option<V>)
        requires
            old(self).wf(),
        ensures
            final(self).wf(),
            final(self)@ == old(self)@.remove(*k),
            r == old(self)@.get(*k),
            forall|f: spec_fn(K, V) -> int| #[trigger]
                final(self).total(f) == old(self).total(f) - (if old(self)@.contains_key(*k) {
                    f(*k, old(self)@[*k])
                } else {
                    0
                }),
    {
        match self.find(k) {
            Some(j) => {
                let e = self.remove_at(j);
                Some(e.1)
            },
            None => {
                proof {
                    assert(self@.remove(*k) =~= self@);
                }
                None
            },
        }
    }

    /// Removes every entry whose key belongs to class `c`.
    pub fn remove_class(&mut self, c: ClassId)
        requires
            old(self).wf(),
        ensures
            final(self).wf(),
            final(self)@ == old(self)@.restrict(
                old(self)@.dom().filter(|k: K| k.class_of() != c),
            ),
            forall|f: spec_fn(K, V) -> int|
                zero_on_class(f, c) ==> #[trigger] final(self).total(f) == old(self).total(f),
    {
        let ghost m0 = self.model@;
        let ghost s0 = self.entries@;
        let mut i: usize = 0;
        while i < self.entries.len()
            invariant
                self.wf(),
                i <= self.entries@.len(),
                forall|x: int| 0 <= x < i ==> (#[trigger] self.entries@[x].0).class_of() != c,
                forall|k: K| #[trigger]
                    self@.contains_key(k) ==> m0.contains_key(k) && self@[k] == m0[k],
                forall|k: K| #[trigger]
                    m0.contains_key(k) && k.class_of() != c ==> self@.contains_key(k),
                forall|f: spec_fn(K, V) -> int|
                    zero_on_class(f, c) ==> #[trigger] self.total(f) == sum_of(s0, f),
            decreases self.entries@.len() - i,
        {
            if self.entries[i].0.class() == c {
                let ghost before = self.entries@;
                let e = self.remove_at(i);
                proof {
                    assert forall|x: int| 0 <= x < i implies (#[trigger] self.entries@[x].0).class_of()
                        != c by {
                        assert(self.entries@[x] == before[x]);
                    }
                    assert forall|f: spec_fn(K, V) -> int|
                        zero_on_class(f, c) implies #[trigger] self.total(f) == sum_of(s0, f) by {
                        assert(f(e.0, e.1) == 0);
                    }
                }
            } else {
                i += 1;
            }
        }
        proof {
            let d = m0.dom().filter(|k: K| k.class_of() != c);
            assert forall|k: K| #[trigger] self@.contains_key(k) implies k.class_of() != c by {
                let x = choose|x: int|
                    0 <= x < self.entries@.len() && #[trigger] self.entries@[x].0 == k;
            }
            assert(self@ =~= m0.restrict(d));
        }
    }
}

proof fn lemma_sum_zero<K, V>(s: Seq<(K, V)>, z: spec_fn(K, V) -> int)
    requires
        forall|k: K, v: V| #[trigger] z(k, v) == 0,
    ensures
        sum_of(s, z) == 0,
    decreases s.len(),
{
    if s.len() > 0 {
        lemma_sum_zero(s.drop_last(), z);
    }
}

} // verus!
