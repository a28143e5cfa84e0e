//! A small map from string keys to values, kept as a vector of pairs.
//!
//! The records the desk keeps (installed apps, the environment handed to a
//! container, the answers a browser sent) are all keyed by a name that occurs
//! once, and are walked in key order. Each is a `Table`: its model is a `Map`
//! from the key's characters to the value, and its well-formedness is that no
//! key occurs twice and the entries are in the order a `BTreeMap` would walk
//! them, lexicographically by code point.

use vstd::prelude::*;

verus! {

/// No key occurs twice.
pub open spec fn keys_unique<V>(s: Seq<(String, V)>) -> bool {
    forall|i: int, j: int|
        0 <= i < s.len() && 0 <= j < s.len() && i != j ==> #[trigger] s[i].0@ != #[trigger] s[j].0@
}

/// Some entry carries this key.
pub open spec fn has_key<V>(s: Seq<(String, V)>, k: Seq<char>) -> bool {
    exists|i: int| 0 <= i < s.len() && #[trigger] s[i].0@ == k
}

/// The index of an entry carrying this key.
pub open spec fn index_of<V>(s: Seq<(String, V)>, k: Seq<char>) -> int {
    choose|i: int| 0 <= i < s.len() && #[trigger] s[i].0@ == k
}

/// The map a sequence of pairs stands for.
pub open spec fn map_of<V>(s: Seq<(String, V)>) -> Map<Seq<char>, V> {
    Map::new(|k: Seq<char>| has_key(s, k), |k: Seq<char>| s[index_of(s, k)].1)
}

/// With unique keys, the entry at `i` is what the map holds for its key.
pub proof fn lemma_entry<V>(s: Seq<(String, V)>, i: int)
    requires
        keys_unique(s),
        0 <= i < s.len(),
    ensures
        map_of(s).contains_key(s[i].0@),
        map_of(s)[s[i].0@] == s[i].1,
        index_of(s, s[i].0@) == i,
{
    assert(has_key(s, s[i].0@));
    let j = index_of(s, s[i].0@);
    assert(s[j].0@ == s[i].0@);
}

/// Every key of the map is carried by the entry `index_of` names.
pub proof fn lemma_key<V>(s: Seq<(String, V)>, k: Seq<char>)
    requires
        map_of(s).contains_key(k),
    ensures
        0 <= index_of(s, k) < s.len(),
        s[index_of(s, k)].0@ == k,
        map_of(s)[k] == s[index_of(s, k)].1,
{
}

/// The order a `BTreeMap` keeps string keys in: lexicographic by code point,
/// a proper prefix first.
pub open spec fn key_lt(a: Seq<char>, b: Seq<char>) -> bool
    decreases a.len(),
{
    if a.len() == 0 {
        b.len() > 0
    } else if b.len() == 0 {
        false
    } else if a[0] != b[0] {
        a[0] < b[0]
    } else {
        key_lt(a.drop_first(), b.drop_first())
    }
}

/// Keys in strictly increasing order.
pub open spec fn sorted<V>(s: Seq<(String, V)>) -> bool {
    forall|i: int, j: int| 0 <= i < j < s.len() ==> key_lt(#[trigger] s[i].0@, #[trigger] s[j].0@)
}

/// Nothing is before itself.
pub proof fn lemma_key_lt_irreflexive(a: Seq<char>)
    ensures
        !key_lt(a, a),
    decreases a.len(),
{
    if a.len() > 0 {
        lemma_key_lt_irreflexive(a.drop_first());
    }
}

/// The order is transitive.
pub proof fn lemma_key_lt_transitive(a: Seq<char>, b: Seq<char>, c: Seq<char>)
    requires
        key_lt(a, b),
        key_lt(b, c),
    ensures
        key_lt(a, c),
    decreases a.len(),
{
    if a.len() > 0 && b.len() > 0 && c.len() > 0 && a[0] == b[0] && b[0] == c[0] {
        lemma_key_lt_transitive(a.drop_first(), b.drop_first(), c.drop_first());
    }
}

/// Any two different keys are ordered one way or the other.
pub proof fn lemma_key_lt_total(a: Seq<char>, b: Seq<char>)
    ensures
        a == b || key_lt(a, b) || key_lt(b, a),
    decreases a.len(),
{
    if a.len() > 0 && b.len() > 0 && a[0] == b[0] {
        lemma_key_lt_total(a.drop_first(), b.drop_first());
        if a.drop_first() == b.drop_first() {
            assert(a =~= seq![a[0]] + a.drop_first());
            assert(b =~= seq![b[0]] + b.drop_first());
        }
    } else if a.len() == 0 && b.len() == 0 {
        assert(a =~= b);
    }
}

/// Strictly increasing keys are unique.
pub proof fn lemma_sorted_unique<V>(s: Seq<(String, V)>)
    requires
        sorted(s),
    ensures
        keys_unique(s),
{
    assert forall|i: int, j: int| 0 <= i < s.len() && 0 <= j < s.len() && i != j implies #[trigger] s[i].0@ != #[trigger] s[j].0@ by {
        if i < j {
            assert(key_lt(s[i].0@, s[j].0@));
            if s[i].0@ == s[j].0@ {
                lemma_key_lt_irreflexive(s[i].0@);
            }
        } else {
            assert(key_lt(s[j].0@, s[i].0@));
            if s[i].0@ == s[j].0@ {
                lemma_key_lt_irreflexive(s[i].0@);
            }
        }
    }
}

/// Whether `a` comes before `b`.
pub fn key_before(a: &str, b: &str) -> (r: bool)
    ensures
        r == key_lt(a@, b@),
{
    let x = crate::text::chars_of(a);
    let y = crate::text::chars_of(b);
    let mut i: usize = 0;
    assert(x@.skip(0) =~= x@);
    assert(y@.skip(0) =~= y@);
    while i < x.len() && i < y.len() && x[i] == y[i]
        invariant
            i <= x@.len(),
            i <= y@.len(),
            x@ == a@,
            y@ == b@,
            key_lt(a@, b@) == key_lt(x@.skip(i as int), y@.skip(i as int)),
        decreases x@.len() - i,
    {
        assert(x@.skip(i as int).drop_first() =~= x@.skip(i + 1));
        assert(y@.skip(i as int).drop_first() =~= y@.skip(i + 1));
        i = i + 1;
    }
    if i == x.len() {
        i < y.len()
    } else if i == y.len() {
        false
    } else {
        x[i] < y[i]
    }
}

/// A map from names to values.
pub struct Table<V> {
    pub entries: Vec<(String, V)>,
}

impl<V> View for Table<V> {
    type V = Map<Seq<char>, V>;

    open spec fn view(&self) -> Map<Seq<char>, V> {
        map_of(self.entries@)
    }
}

impl<V> Table<V> {
    /// Whether no key occurs twice, and the keys are in order.
    pub open spec fn wf(&self) -> bool {
        keys_unique(self.entries@) && sorted(self.entries@)
    }

    /// The empty table.
    pub fn new() -> (t: Self)
        ensures
            t.wf(),
            t@ == Map::<Seq<char>, V>::empty(),
            t.entries@.len() == 0,
    {
        let t = Table { entries: Vec::new() };
        assert(t@ =~= Map::<Seq<char>, V>::empty());
        t
    }

    /// How many entries there are.
    pub fn len(&self) -> (n: usize)
        ensures
            n == self.entries@.len(),
    {
        self.entries.len()
    }

    /// Where the entry with this key is, if there is one.
    pub fn position(&self, k: &str) -> (r: Option<usize>)
        ensures
            match r {
                Some(i) => i < self.entries@.len() && self.entries@[i as int].0@ == k@,
                None => !has_key(self.entries@, k@),
            },
    {
        let key = k.to_owned();
        let mut i: usize = 0;
        while i < self.entries.len()
            invariant
                i <= self.entries@.len(),
                key@ == k@,
                forall|j: int| 0 <= j < i ==> #[trigger] self.entries@[j].0@ != k@,
            decreases self.entries@.len() - i,
        {
            if self.entries[i].0 == key {
                return Some(i);
            }
            i = i + 1;
        }
        None
    }

    /// Whether some entry has this key.
    pub fn contains_key(&self, k: &str) -> (b: bool)
        ensures
            b == self@.contains_key(k@),
    {
        self.position(k).is_some()
    }

    /// The value stored under `k`.
    pub fn get(&self, k: &str) -> (r: Option<&V>)
        requires
            self.wf(),
        ensures
            match r {
                Some(v) => self@.contains_key(k@) && *v == self@[k@],
                None => !self@.contains_key(k@),
            },
    {
        match self.position(k) {
            Some(i) => {
                proof {
                    lemma_entry(self.entries@, i as int);
                }
                Some(&self.entries[i].1)
            },
            None => None,
        }
    }

    /// Where `k` belongs: the first entry whose key is not before it.
    fn slot(&self, k: &str) -> (p: usize)
        requires
            self.wf(),
        ensures
            p <= self.entries@.len(),
            forall|i: int| 0 <= i < p ==> key_lt(#[trigger] self.entries@[i].0@, k@),
            p < self.entries@.len() ==> !key_lt(self.entries@[p as int].0@, k@),
    {
        let mut p: usize = 0;
        while p < self.entries.len() && key_before(self.entries[p].0.as_str(), k)
            invariant
                p <= self.entries@.len(),
                forall|i: int| 0 <= i < p ==> key_lt(#[trigger] self.entries@[i].0@, k@),
            decreases self.entries@.len() - p,
        {
            p = p + 1;
        }
        p
    }

    /// Store `v` under `k`, replacing what was there.
    pub fn insert(&mut self, k: String, v: V)
        requires
            old(self).wf(),
        ensures
            final(self).wf(),
            final(self)@ == old(self)@.insert(k@, v),
    {
        let ghost before = self.entries@;
        let p = self.slot(k.as_str());
        let here = p < self.entries.len() && self.entries[p].0 == k;
        if here {
            self.entries.set(p, (k, v));
            proof {
                let i = p as int;
                let after = self.entries@;
                assert(after == before.update(i, (k, v)));
                assert forall|a: int, b: int|
                    0 <= a < after.len() && 0 <= b < after.len() && a != b implies #[trigger] after[a].0@
                    != #[trigger] after[b].0@ by {
                    if a != i && b != i {
                        assert(before[a].0@ != before[b].0@);
                    } else if a == i {
                        assert(before[b].0@ != before[i].0@);
                    } else {
                        assert(before[a].0@ != before[i].0@);
                    }
                }
                assert forall|a: int, b: int| 0 <= a < b < after.len() implies key_lt(#[trigger] after[a].0@, #[trigger] after[b].0@) by {
                    assert(key_lt(before[a].0@, before[b].0@));
                }
                assert forall|q: Seq<char>| #[trigger] map_of(after).contains_key(q)
                    == map_of(before).insert(k@, v).contains_key(q) by {
                    if has_key(before, q) {
                        let j = index_of(before, q);
                        assert(after[j].0@ == q);
                    }
                    if has_key(after, q) {
                        let j = index_of(after, q);
                        assert(before[j].0@ == q);
                    }
                }
                assert forall|q: Seq<char>| #[trigger] map_of(after).contains_key(q) implies map_of(
                    after,
                )[q] == map_of(before).insert(k@, v)[q] by {
                    let j = index_of(after, q);
                    lemma_entry(after, j);
                    if q != k@ {
                        assert(j != i);
                        lemma_entry(before, j);
                    }
                }
                assert(map_of(after) =~= map_of(before).insert(k@, v));
            }
        } else {
            proof {
                let i = p as int;
                if i < before.len() {
                    lemma_key_lt_total(before[i].0@, k@);
                    assert(key_lt(k@, before[i].0@));
                }
                assert forall|j: int| 0 <= j < before.len() implies #[trigger] before[j].0@ != k@ by {
                    if j < i {
                        assert(key_lt(before[j].0@, k@));
                        lemma_key_lt_irreflexive(k@);
                    } else {
                        if j > i {
                            assert(key_lt(before[i].0@, before[j].0@));
                            lemma_key_lt_transitive(k@, before[i].0@, before[j].0@);
                        }
                        assert(key_lt(k@, before[j].0@));
                        lemma_key_lt_irreflexive(k@);
                    }
                }
            }
            let ghost kk = k@;
            self.entries.insert(p, (k, v));
            proof {
                let i = p as int;
                let after = self.entries@;
                assert(after == before.insert(i, (after[i].0, after[i].1)));
                assert(after[i].0@ == kk);
                assert forall|a: int| 0 <= a < after.len() && a != i implies #[trigger] after[a] == before[if a
                    < i {
                    a
                } else {
                    a - 1
                }] by {}
                assert forall|a: int, b: int| 0 <= a < b < after.len() implies key_lt(#[trigger] after[a].0@, #[trigger] after[b].0@) by {
                    if b < i {
                        assert(key_lt(before[a].0@, before[b].0@));
                    } else if b == i {
                        assert(key_lt(before[a].0@, kk));
                    } else if a == i {
                        assert(key_lt(kk, before[i].0@));
                        if b - 1 > i {
                            assert(key_lt(before[i].0@, before[b - 1].0@));
                            lemma_key_lt_transitive(kk, before[i].0@, before[b - 1].0@);
                        }
                    } else if a < i {
                        assert(key_lt(before[a].0@, kk));
                        assert(key_lt(kk, before[i].0@));
                        lemma_key_lt_transitive(before[a].0@, kk, before[i].0@);
                        if b - 1 > i {
                            assert(key_lt(before[i].0@, before[b - 1].0@));
                            lemma_key_lt_transitive(before[a].0@, before[i].0@, before[b - 1].0@);
                        }
                    } else {
                        assert(key_lt(before[a - 1].0@, before[b - 1].0@));
                    }
                }
                lemma_sorted_unique(after);
                assert forall|q: Seq<char>| #[trigger] map_of(after).contains_key(q)
                    == map_of(before).insert(kk, v).contains_key(q) by {
                    if has_key(before, q) {
                        let j = index_of(before, q);
                        let j2 = if j < i {
                            j
                        } else {
                            j + 1
                        };
                        assert(after[j2] == before[j]);
                        assert(after[j2].0@ == q);
                    }
                    if q == kk {
                        assert(after[i].0@ == q);
                    }
                    if has_key(after, q) {
                        let j = index_of(after, q);
                        if j < i {
                            assert(before[j].0@ == q);
                        } else if j > i {
                            assert(before[j - 1].0@ == q);
                        }
                    }
                }
                assert forall|q: Seq<char>| #[trigger] map_of(after).contains_key(q) implies map_of(
                    after,
                )[q] == map_of(before).insert(kk, v)[q] by {
                    let j = index_of(after, q);
                    lemma_entry(after, j);
                    if q != kk {
                        assert(j != i);
                        let j2 = if j < i {
                            j
                        } else {
                            j - 1
                        };
                        assert(after[j] == before[j2]);
                        lemma_entry(before, j2);
                    }
                }
                assert(map_of(after) =~= map_of(before).insert(kk, v));
            }
        }
    }

    /// Take the entry for `k` out, if there is one.
    pub fn remove(&mut self, k: &str)
        requires
            old(self).wf(),
        ensures
            final(self).wf(),
            final(self)@ == old(self)@.remove(k@),
    {
        let ghost before = self.entries@;
        match self.position(k) {
            Some(i) => {
                let _ = self.entries.remove(i);
                proof {
                    let after = self.entries@;
                    assert(after == before.remove(i as int));
                    assert forall|a: int| 0 <= a < after.len() implies #[trigger] after[a] == before[if a
                        < i {
                        a
                    } else {
                        a + 1
                    }] by {}
                    assert forall|a: int, b: int|
                        0 <= a < after.len() && 0 <= b < after.len() && a != b implies #[trigger] after[a].0@
                        != #[trigger] after[b].0@ by {
                        let a2 = if a < i {
                            a
                        } else {
                            a + 1
                        };
                        let b2 = if b < i {
                            b
                        } else {
                            b + 1
                        };
                        assert(after[a] == before[a2]);
                        assert(after[b] == before[b2]);
                        assert(before[a2].0@ != before[b2].0@);
                    }
                    assert forall|q: Seq<char>| #[trigger] map_of(after).contains_key(q)
                        == map_of(before).remove(k@).contains_key(q) by {
                        if has_key(after, q) {
                            let j = index_of(after, q);
                            let j2 = if j < i {
                                j
                            } else {
                                j + 1
                            };
                            assert(after[j] == before[j2]);
                            assert(before[j2].0@ == q);
                            assert(j2 != i);
                            assert(before[j2].0@ != before[i as int].0@);
                        }
                        if has_key(before, q) && q != k@ {
                            let j = index_of(before, q);
                            assert(j != i);
                            let j2 = if j < i {
                                j
                            } else {
                                j - 1
                            };
                            assert(after[j2] == before[j]);
                            assert(after[j2].0@ == q);
                        }
                    }
                    assert forall|q: Seq<char>| #[trigger] map_of(after).contains_key(q) implies map_of(
                        after,
                    )[q] == map_of(before).remove(k@)[q] by {
                        let j = index_of(after, q);
                        lemma_entry(after, j);
                        let j2 = if j < i {
                            j
                        } else {
                            j + 1
                        };
                        assert(after[j] == before[j2]);
                        lemma_entry(before, j2);
                    }
                    assert(map_of(after) =~= map_of(before).remove(k@));
                }
            },
            None => {
                proof {
                    assert(map_of(before) =~= map_of(before).remove(k@));
                }
            },
        }
    }
}

} // verus!
