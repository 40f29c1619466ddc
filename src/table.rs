//! A small map from string keys to copyable values, kept as a list of
//! entries in which the last entry for a key decides.

use vstd::prelude::*;

verus! {

/// The value bound to `k` in `s`: that of the last entry for `k`, if any.
pub open spec fn lookup<V>(s: Seq<(String, V)>, k: Seq<char>) -> Option<V>
    decreases s.len(),
{
    if s.len() == 0 {
        None
    } else if s.last().0@ == k {
        Some(s.last().1)
    } else {
        lookup(s.drop_last(), k)
    }
}

/// The keys of `s` as a set.
pub open spec fn has_key<V>(s: Seq<(String, V)>, k: Seq<char>) -> bool {
    exists|i: int| 0 <= i < s.len() && s[i].0@ == k
}

/// No two entries share a key.
pub open spec fn keys_unique<V>(s: Seq<(String, V)>) -> bool {
    forall|i: int, j: int| 0 <= i < j < s.len() ==> s[i].0@ != s[j].0@
}

/// A value that carries the time, in seconds, at which it was recorded.
pub trait Stamped {
    spec fn stamp_of(&self) -> u64;

    fn stamp(&self) -> (r: u64)
        ensures
            r == self.stamp_of(),
    ;
}

impl Stamped for u64 {
    open spec fn stamp_of(&self) -> u64 {
        *self
    }

    fn stamp(&self) -> (r: u64) {
        *self
    }
}

/// Seconds from `then` to `now`, zero when `now` is not later.
pub open spec fn elapsed(now: u64, then: u64) -> u64 {
    if now >= then {
        (now - then) as u64
    } else {
        0
    }
}

/// A binding recorded at `then` is still inside a window of `window`
/// seconds at `now`.
pub open spec fn fresh(now: u64, then: u64, window: u64) -> bool {
    elapsed(now, then) < window
}

/// Entries for string keys; the last entry for a key decides, and the
/// table keeps one entry per key.
pub struct KeyedTable<V> {
    pub entries: Vec<(String, V)>,
}

impl<V> View for KeyedTable<V> {
    type V = Map<Seq<char>, V>;

    open spec fn view(&self) -> Map<Seq<char>, V> {
        Map::new(
            |k: Seq<char>| lookup(self.entries@, k) is Some,
            |k: Seq<char>| lookup(self.entries@, k)->0,
        )
    }
}

proof fn lemma_lookup_absent<V>(s: Seq<(String, V)>, k: Seq<char>)
    requires
        !has_key(s, k),
    ensures
        lookup(s, k) is None,
    decreases s.len(),
{
    if s.len() > 0 {
        assert(!has_key(s.drop_last(), k)) by {
            if has_key(s.drop_last(), k) {
                let i = choose|i: int| 0 <= i < s.drop_last().len() && s.drop_last()[i].0@ == k;
                assert(s[i].0@ == k);
            }
        }
        lemma_lookup_absent(s.drop_last(), k);
    }
}

proof fn lemma_lookup_update<V>(s: Seq<(String, V)>, j: int, v: V, k: Seq<char>)
    requires
        0 <= j < s.len(),
        forall|i: int| j < i < s.len() ==> s[i].0@ != s[j].0@,
    ensures
        lookup(s.update(j, (s[j].0, v)), k) == if k == s[j].0@ {
            Some(v)
        } else {
            lookup(s, k)
        },
    decreases s.len(),
{
    let t = s.update(j, (s[j].0, v));
    if j == s.len() - 1 {
        assert(t.drop_last() =~= s.drop_last());
    } else {
        assert(t.drop_last() =~= s.drop_last().update(j, (s[j].0, v)));
        lemma_lookup_update(s.drop_last(), j, v, k);
    }
}

/// With unique keys, the last entry for the key of entry `i` is entry `i`.
proof fn lemma_lookup_last_key<V>(s: Seq<(String, V)>, i: int)
    requires
        0 <= i < s.len(),
        keys_unique(s),
    ensures
        lookup(s, s[i].0@) == Some(s[i].1),
    decreases s.len(),
{
    if i < s.len() - 1 {
        lemma_lookup_last_key(s.drop_last(), i);
    }
}

proof fn lemma_not_in_prefix<V>(s: Seq<(String, V)>, i: int)
    requires
        0 <= i < s.len(),
        keys_unique(s),
    ensures
        !has_key(s.subrange(0, i), s[i].0@),
{
    if has_key(s.subrange(0, i), s[i].0@) {
        let m = choose|m: int| 0 <= m < i && s.subrange(0, i)[m].0@ == s[i].0@;
        assert(s[m].0@ == s[i].0@);
    }
}

proof fn lemma_push_keys<V>(kept: Seq<(String, V)>, e: (String, V), pre: Seq<(String, V)>)
    requires
        keys_unique(kept),
        pre.len() > 0,
        pre.last() == e,
        forall|k: Seq<char>| has_key(kept, k) ==> has_key(pre.drop_last(), k),
        !has_key(pre.drop_last(), e.0@),
    ensures
        keys_unique(kept.push(e)),
        forall|k: Seq<char>| has_key(kept.push(e), k) ==> has_key(pre, k),
{
    let t = kept.push(e);
    assert forall|i: int, j: int| 0 <= i < j < t.len() implies t[i].0@ != t[j].0@ by {
        if j == t.len() - 1 {
            assert(has_key(kept, t[i].0@));
        }
    }
    assert forall|k: Seq<char>| has_key(t, k) implies has_key(pre, k) by {
        let i = choose|i: int| 0 <= i < t.len() && t[i].0@ == k;
        if i == t.len() - 1 {
            assert(pre[pre.len() - 1].0@ == k);
        } else {
            assert(has_key(kept, k));
            let m = choose|m: int| 0 <= m < pre.drop_last().len() && pre.drop_last()[m].0@ == k;
            assert(pre[m].0@ == k);
        }
    }
}

proof fn lemma_lookup_push<V>(s: Seq<(String, V)>, e: (String, V), k: Seq<char>)
    ensures
        lookup(s.push(e), k) == if k == e.0@ {
            Some(e.1)
        } else {
            lookup(s, k)
        },
{
    assert(s.push(e).drop_last() =~= s);
}

impl<V> KeyedTable<V> {
    /// One entry per key.
    pub open spec fn wf(&self) -> bool {
        keys_unique(self.entries@)
    }
}

impl<V: Copy> KeyedTable<V> {
    /// The empty table.
    pub fn new() -> (r: KeyedTable<V>)
        ensures
            r@ == Map::<Seq<char>, V>::empty(),
            r.wf(),
    {
        let r = KeyedTable { entries: Vec::new() };
        assert(r@ =~= Map::<Seq<char>, V>::empty());
        r
    }

    /// Index of the last entry for `key`, if any.
    fn find_last(&self, key: &String) -> (r: Option<usize>)
        ensures
            match r {
                Some(j) => {
                    &&& j < self.entries@.len()
                    &&& self.entries@[j as int].0@ == key@
                    &&& lookup(self.entries@, key@) == Some(self.entries@[j as int].1)
                    &&& forall|i: int|
                        j < i < self.entries@.len() ==> self.entries@[i].0@ != key@
                },
                None => lookup(self.entries@, key@) is None,
            },
    {
        let mut i: usize = self.entries.len();
        assert(self.entries@.subrange(0, i as int) =~= self.entries@);
        while i > 0
            invariant
                i <= self.entries@.len(),
                forall|m: int| i <= m < self.entries@.len() ==> self.entries@[m].0@ != key@,
                lookup(self.entries@, key@) == lookup(self.entries@.subrange(0, i as int), key@),
            decreases i,
        {
            let ghost pre = self.entries@.subrange(0, i as int);
            assert(pre.drop_last() =~= self.entries@.subrange(0, i - 1));
            if self.entries[i - 1].0 == *key {
                return Some(i - 1);
            }
            i = i - 1;
        }
        assert(self.entries@.subrange(0, 0) =~= Seq::<(String, V)>::empty());
        None
    }

    /// The value bound to `key`.
    pub fn get(&self, key: &String) -> (r: Option<V>)
        ensures
            r == (if self@.contains_key(key@) {
                Some(self@[key@])
            } else {
                None::<V>
            }),
    {
        match self.find_last(key) {
            Some(j) => Some(self.entries[j].1),
            None => None,
        }
    }

    /// Binds `key` to `value`.
    pub fn insert(&mut self, key: &String, value: V)
        requires
            old(self).wf(),
        ensures
            final(self)@ == old(self)@.insert(key@, value),
            final(self).wf(),
    {
        let ghost s = self.entries@;
        match self.find_last(key) {
            Some(j) => {
                let k = self.entries[j].0.clone();
                self.entries.set(j, (k, value));
                proof {
                    assert(self.entries@ == s.update(j as int, (s[j as int].0, value)));
                    assert forall|k: Seq<char>| #[trigger] lookup(self.entries@, k) == (if k
                        == key@ {
                        Some(value)
                    } else {
                        lookup(s, k)
                    }) by {
                        lemma_lookup_update(s, j as int, value, k);
                    }
                }
            },
            None => {
                proof {
                    if has_key(s, key@) {
                        let i = choose|i: int| 0 <= i < s.len() && s[i].0@ == key@;
                        lemma_lookup_last_key(s, i);
                    }
                }
                self.entries.push((key.clone(), value));
                proof {
                    assert(self.entries@ =~= s.push(self.entries@.last()));
                    assert forall|k: Seq<char>| #[trigger] lookup(self.entries@, k) == (if k
                        == key@ {
                        Some(value)
                    } else {
                        lookup(s, k)
                    }) by {
                        lemma_lookup_push(s, self.entries@.last(), k);
                    }
                }
            },
        }
        assert(self@ =~= old(self)@.insert(key@, value));
    }

    /// Drops every binding of `key`.
    pub fn remove(&mut self, key: &String)
        requires
            old(self).wf(),
        ensures
            final(self)@ == old(self)@.remove(key@),
            final(self).wf(),
    {
        let mut kept: Vec<(String, V)> = Vec::new();
        let mut i: usize = 0;
        while i < self.entries.len()
            invariant
                i <= self.entries@.len(),
                keys_unique(self.entries@),
                keys_unique(kept@),
                forall|k: Seq<char>|
                    has_key(kept@, k) ==> has_key(self.entries@.subrange(0, i as int), k),
                forall|k: Seq<char>|
                    #[trigger] lookup(kept@, k) == if k == key@ {
                        None
                    } else {
                        lookup(self.entries@.subrange(0, i as int), k)
                    },
            decreases self.entries@.len() - i,
        {
            let ghost before = kept@;
            let ghost pre = self.entries@.subrange(0, i + 1);
            assert(pre.drop_last() =~= self.entries@.subrange(0, i as int));
            if self.entries[i].0 != *key {
                let e = (self.entries[i].0.clone(), self.entries[i].1);
                proof {
                    lemma_not_in_prefix(self.entries@, i as int);
                }
                kept.push(e);
                proof {
                    assert(kept@ =~= before.push(kept@.last()));
                    lemma_push_keys(before, kept@.last(), pre);
                    assert forall|k: Seq<char>| #[trigger] lookup(kept@, k) == (if k == key@ {
                        None
                    } else {
                        lookup(pre, k)
                    }) by {
                        lemma_lookup_push(before, kept@.last(), k);
                    }
                }
            }
            i = i + 1;
        }
        assert(self.entries@.subrange(0, self.entries@.len() as int) =~= self.entries@);
        self.entries = kept;
        assert(self@ =~= old(self)@.remove(key@));
    }
}

impl<V: Copy + Stamped> KeyedTable<V> {
    /// Drops every binding recorded `window` or more seconds before `now`.
    pub fn retain_fresh(&mut self, now: u64, window: u64)
        requires
            old(self).wf(),
        ensures
            final(self).wf(),
            final(self)@ == old(self)@.restrict(
                old(self)@.dom().filter(|k: Seq<char>| fresh(now, old(self)@[k].stamp_of(), window)),
            ),
    {
        let mut kept: Vec<(String, V)> = Vec::new();
        let mut i: usize = 0;
        while i < self.entries.len()
            invariant
                i <= self.entries@.len(),
                keys_unique(self.entries@),
                keys_unique(kept@),
                forall|k: Seq<char>|
                    has_key(kept@, k) ==> has_key(self.entries@.subrange(0, i as int), k),
                forall|k: Seq<char>|
                    #[trigger] lookup(kept@, k) == match lookup(
                        self.entries@.subrange(0, i as int),
                        k,
                    ) {
                        Some(v) => if fresh(now, v.stamp_of(), window) {
                            Some(v)
                        } else {
                            None
                        },
                        None => None,
                    },
            decreases self.entries@.len() - i,
        {
            let ghost before = kept@;
            let ghost pre = self.entries@.subrange(0, i + 1);
            assert(pre.drop_last() =~= self.entries@.subrange(0, i as int));
            proof {
                lemma_not_in_prefix(self.entries@, i as int);
            }
            let t = self.entries[i].1.stamp();
            let age = if now >= t { now - t } else { 0 };
            if age < window {
                let e = (self.entries[i].0.clone(), self.entries[i].1);
                kept.push(e);
                proof {
                    assert(kept@ =~= before.push(kept@.last()));
                    lemma_push_keys(before, kept@.last(), pre);
                    assert forall|k: Seq<char>| #[trigger] lookup(kept@, k) == match lookup(pre, k) {
                        Some(v) => if fresh(now, v.stamp_of(), window) {
                            Some(v)
                        } else {
                            None
                        },
                        None => None,
                    } by {
                        lemma_lookup_push(before, kept@.last(), k);
                        lemma_lookup_push(pre.drop_last(), pre.last(), k);
                        assert(pre.drop_last().push(pre.last()) =~= pre);
                    }
                }
            } else {
                proof {
                    assert forall|k: Seq<char>| #[trigger] lookup(kept@, k) == match lookup(pre, k) {
                        Some(v) => if fresh(now, v.stamp_of(), window) {
                            Some(v)
                        } else {
                            None
                        },
                        None => None,
                    } by {
                        lemma_lookup_push(pre.drop_last(), pre.last(), k);
                        assert(pre.drop_last().push(pre.last()) =~= pre);
                        if k == pre.last().0@ {
                            if has_key(before, k) {
                                assert(has_key(pre.drop_last(), k));
                            }
                            lemma_lookup_absent(before, k);
                        }
                    }
                }
            }
            i = i + 1;
        }
        assert(self.entries@.subrange(0, self.entries@.len() as int) =~= self.entries@);
        self.entries = kept;
        assert(self@ =~= old(self)@.restrict(
            old(self)@.dom().filter(|k: Seq<char>| fresh(now, old(self)@[k].stamp_of(), window)),
        ));
    }
}

} // verus!
