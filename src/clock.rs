//! Vector clocks: per-peer logical counters, missing peers counting as zero.

use vstd::prelude::*;

verus! {

/// The counter of peer `k` in a list of entries: the last entry for `k`
/// decides, and a peer without an entry counts as zero.
pub open spec fn counter_in(s: Seq<(String, u64)>, k: Seq<char>) -> u64
    decreases s.len(),
{
    if s.len() == 0 {
        0
    } else if s.last().0@ == k {
        s.last().1
    } else {
        counter_in(s.drop_last(), k)
    }
}

/// How two clocks relate under the componentwise order.
#[derive(Debug, Clone, Copy, PartialEq, Eq, Structural)]
pub enum ClockOrdering {
    Less,
    Greater,
    Equal,
    Concurrent,
}

/// The verdict from the two facts "some counter of the left side is smaller"
/// and "some counter of the right side is smaller".
pub open spec fn ordering_of(self_less: bool, other_less: bool) -> ClockOrdering {
    if !self_less && !other_less {
        ClockOrdering::Equal
    } else if self_less && !other_less {
        ClockOrdering::Less
    } else if !self_less && other_less {
        ClockOrdering::Greater
    } else {
        ClockOrdering::Concurrent
    }
}

/// A mapping from peer id to a monotonic counter.
#[derive(Debug, Clone)]
pub struct VectorClock {
    pub clock: Vec<(String, u64)>,
}

impl View for VectorClock {
    /// Every peer id to its counter; peers never seen map to zero.
    type V = Map<Seq<char>, u64>;

    open spec fn view(&self) -> Map<Seq<char>, u64> {
        Map::new(|k: Seq<char>| true, |k: Seq<char>| counter_in(self.clock@, k))
    }
}

/// Some peer has a smaller counter in `a` than in `b`.
pub open spec fn some_less(a: Map<Seq<char>, u64>, b: Map<Seq<char>, u64>) -> bool {
    exists|k: Seq<char>| a[k] < b[k]
}

/// The componentwise maximum of two clock views.
pub open spec fn join(a: Map<Seq<char>, u64>, b: Map<Seq<char>, u64>) -> Map<Seq<char>, u64> {
    Map::new(|k: Seq<char>| true, |k: Seq<char>| if a[k] >= b[k] { a[k] } else { b[k] })
}

/// The verdict of comparing two clock views.
pub open spec fn clock_order(a: Map<Seq<char>, u64>, b: Map<Seq<char>, u64>) -> ClockOrdering {
    ordering_of(some_less(a, b), some_less(b, a))
}

proof fn lemma_counter_update(s: Seq<(String, u64)>, j: int, v: u64, k: Seq<char>)
    requires
        0 <= j < s.len(),
        forall|i: int| j < i < s.len() ==> s[i].0@ != s[j].0@,
    ensures
        counter_in(s.update(j, (s[j].0, v)), k) == if k == s[j].0@ {
            v
        } else {
            counter_in(s, k)
        },
    decreases s.len(),
{
    let t = s.update(j, (s[j].0, v));
    if j == s.len() - 1 {
        assert(t.drop_last() =~= s.drop_last());
    } else {
        assert(t.drop_last() =~= s.drop_last().update(j, (s[j].0, v)));
        lemma_counter_update(s.drop_last(), j, v, k);
    }
}

proof fn lemma_counter_push(s: Seq<(String, u64)>, e: (String, u64), k: Seq<char>)
    ensures
        counter_in(s.push(e), k) == if k == e.0@ {
            e.1
        } else {
            counter_in(s, k)
        },
{
    assert(s.push(e).drop_last() =~= s);
}

proof fn lemma_counter_absent(s: Seq<(String, u64)>, k: Seq<char>)
    requires
        forall|i: int| 0 <= i < s.len() ==> s[i].0@ != k,
    ensures
        counter_in(s, k) == 0,
    decreases s.len(),
{
    if s.len() > 0 {
        lemma_counter_absent(s.drop_last(), k);
    }
}

proof fn lemma_counter_present(s: Seq<(String, u64)>, k: Seq<char>)
    requires
        counter_in(s, k) > 0,
    ensures
        exists|i: int| 0 <= i < s.len() && s[i].0@ == k,
{
    if forall|i: int| 0 <= i < s.len() ==> s[i].0@ != k {
        lemma_counter_absent(s, k);
    }
}

/// Index of the last entry for `key`, if any.
fn find_last(entries: &Vec<(String, u64)>, key: &String) -> (r: Option<usize>)
    ensures
        match r {
            Some(j) => {
                &&& j < entries@.len()
                &&& entries@[j as int].0@ == key@
                &&& counter_in(entries@, key@) == entries@[j as int].1
                &&& forall|i: int| j < i < entries@.len() ==> entries@[i].0@ != key@
            },
            None => forall|i: int| 0 <= i < entries@.len() ==> entries@[i].0@ != key@,
        },
{
    let mut i: usize = entries.len();
    assert(entries@.subrange(0, i as int) =~= entries@);
    while i > 0
        invariant
            i <= entries@.len(),
            forall|m: int| i <= m < entries@.len() ==> entries@[m].0@ != key@,
            counter_in(entries@, key@) == counter_in(entries@.subrange(0, i as int), key@),
        decreases i,
    {
        let ghost pre = entries@.subrange(0, i as int);
        assert(pre.drop_last() =~= entries@.subrange(0, i - 1));
        if entries[i - 1].0 == *key {
            return Some(i - 1);
        }
        i = i - 1;
    }
    None
}

impl VectorClock {
    /// The empty clock: every counter is zero.
    pub fn new() -> (r: VectorClock)
        ensures
            r@ == Map::new(|k: Seq<char>| true, |k: Seq<char>| 0u64),
    {
        let r = VectorClock { clock: Vec::new() };
        assert(r@ =~= Map::new(|k: Seq<char>| true, |k: Seq<char>| 0u64));
        r
    }

    /// The counter of `peer_id`, zero when the peer has no entry.
    pub fn get(&self, peer_id: &String) -> (r: u64)
        ensures
            r == self@[peer_id@],
    {
        match find_last(&self.clock, peer_id) {
            Some(j) => self.clock[j].1,
            None => {
                proof {
                    lemma_counter_absent(self.clock@, peer_id@);
                }
                0
            },
        }
    }

    /// Sets the counter of `peer_id` to `value`, leaving every other counter.
    fn set_counter(&mut self, peer_id: &String, value: u64)
        ensures
            final(self)@ == old(self)@.insert(peer_id@, value),
    {
        match find_last(&self.clock, peer_id) {
            Some(j) => {
                let ghost s = self.clock@;
                let key = self.clock[j].0.clone();
                self.clock.set(j, (key, value));
                proof {
                    assert(self.clock@ == s.update(j as int, (s[j as int].0, value)));
                    assert forall|k: Seq<char>| #[trigger] counter_in(self.clock@, k) == (if k
                        == peer_id@ {
                        value
                    } else {
                        counter_in(s, k)
                    }) by {
                        lemma_counter_update(s, j as int, value, k);
                    }
                }
            },
            None => {
                let ghost s = self.clock@;
                self.clock.push((peer_id.clone(), value));
                proof {
                    assert(self.clock@ =~= s.push(self.clock@.last()));
                    assert forall|k: Seq<char>| #[trigger] counter_in(self.clock@, k) == (if k
                        == peer_id@ {
                        value
                    } else {
                        counter_in(s, k)
                    }) by {
                        lemma_counter_push(s, self.clock@.last(), k);
                    }
                }
            },
        }
        assert(self@ =~= old(self)@.insert(peer_id@, value));
    }

    /// Bumps the counter of `peer_id` by one; the counter saturates at
    /// `u64::MAX`, a value no real clock reaches.
    pub fn increment(&mut self, peer_id: &str)
        ensures
            final(self)@ == old(self)@.insert(
                peer_id@,
                if old(self)@[peer_id@] < u64::MAX {
                    (old(self)@[peer_id@] + 1) as u64
                } else {
                    u64::MAX
                },
            ),
    {
        let key = String::from_str(peer_id);
        let current = self.get(&key);
        let next = current.saturating_add(1);
        self.set_counter(&key, next);
    }

    /// Raises each counter to the maximum of its own and `other`'s.
    pub fn update(&mut self, other: &VectorClock)
        ensures
            final(self)@ == join(old(self)@, other@),
    {
        let ghost start = self@;
        let n = other.clock.len();
        let mut i: usize = 0;
        while i < n
            invariant
                n == other.clock@.len(),
                i <= n,
                forall|k: Seq<char>|
                    #[trigger] self@[k] == if (exists|m: int|
                        0 <= m < i && other.clock@[m].0@ == k) {
                        if start[k] >= other@[k] {
                            start[k]
                        } else {
                            other@[k]
                        }
                    } else {
                        start[k]
                    },
            decreases n - i,
        {
            let key = &other.clock[i].0;
            let theirs = other.get(key);
            let mine = self.get(key);
            if theirs > mine {
                self.set_counter(key, theirs);
            }
            i = i + 1;
        }
        proof {
            assert forall|k: Seq<char>| #[trigger] self@[k] == join(start, other@)[k] by {
                if !(exists|m: int| 0 <= m < n && other.clock@[m].0@ == k) {
                    if other@[k] > 0 {
                        lemma_counter_present(other.clock@, k);
                    }
                }
            }
            assert(self@ =~= join(start, other@));
        }
    }
}


impl VectorClock {
    /// Compares two clocks by the componentwise order, missing peers counting
    /// as zero: `Equal` when no counter differs, `Less` when some counter of
    /// `self` is smaller and none larger, `Greater` in the mirror case, and
    /// `Concurrent` when both happen.
    pub fn compare(&self, other: &VectorClock) -> (r: ClockOrdering)
        ensures
            r == clock_order(self@, other@),
    {
        let mut self_less = false;
        let mut other_less = false;
        let n = self.clock.len();
        let mut i: usize = 0;
        while i < n
            invariant
                n == self.clock@.len(),
                i <= n,
                self_less == exists|m: int|
                    0 <= m < i && #[trigger] self@[self.clock@[m].0@] < other@[self.clock@[m].0@],
                other_less == exists|m: int|
                    0 <= m < i && #[trigger] self@[self.clock@[m].0@] > other@[self.clock@[m].0@],
            decreases n - i,
        {
            let key = &self.clock[i].0;
            let mine = self.get(key);
            let theirs = other.get(key);
            if mine < theirs {
                self_less = true;
            }
            if mine > theirs {
                other_less = true;
            }
            i = i + 1;
        }
        let ghost first_less = self_less;
        let ghost first_greater = other_less;
        let n2 = other.clock.len();
        let mut j: usize = 0;
        while j < n2
            invariant
                n2 == other.clock@.len(),
                j <= n2,
                self_less == (first_less || exists|m: int|
                    0 <= m < j && #[trigger] self@[other.clock@[m].0@] < other@[other.clock@[m].0@]),
                other_less == (first_greater || exists|m: int|
                    0 <= m < j && #[trigger] self@[other.clock@[m].0@] > other@[other.clock@[m].0@]),
                first_less == exists|m: int|
                    0 <= m < n && #[trigger] self@[self.clock@[m].0@] < other@[self.clock@[m].0@],
                first_greater == exists|m: int|
                    0 <= m < n && #[trigger] self@[self.clock@[m].0@] > other@[self.clock@[m].0@],
                n == self.clock@.len(),
            decreases n2 - j,
        {
            let key = &other.clock[j].0;
            let mine = self.get(key);
            let theirs = other.get(key);
            if mine < theirs {
                self_less = true;
            }
            if mine > theirs {
                other_less = true;
            }
            j = j + 1;
        }
        proof {
            if some_less(self@, other@) {
                let k = choose|k: Seq<char>| self@[k] < other@[k];
                lemma_counter_present(other.clock@, k);
                let m = choose|m: int| 0 <= m < other.clock@.len() && other.clock@[m].0@ == k;
                assert(self@[other.clock@[m].0@] < other@[other.clock@[m].0@]);
            }
            if some_less(other@, self@) {
                let k = choose|k: Seq<char>| other@[k] < self@[k];
                lemma_counter_present(self.clock@, k);
                let m = choose|m: int| 0 <= m < self.clock@.len() && self.clock@[m].0@ == k;
                assert(self@[self.clock@[m].0@] > other@[self.clock@[m].0@]);
            }
        }
        if !self_less && !other_less {
            ClockOrdering::Equal
        } else if self_less && !other_less {
            ClockOrdering::Less
        } else if !self_less && other_less {
            ClockOrdering::Greater
        } else {
            ClockOrdering::Concurrent
        }
    }

    /// A copy with the same counters.
    pub fn copy(&self) -> (r: VectorClock)
        ensures
            r@ == self@,
            r.clock@ == self.clock@,
    {
        let mut out: Vec<(String, u64)> = Vec::new();
        let mut i: usize = 0;
        while i < self.clock.len()
            invariant
                i <= self.clock@.len(),
                out@ == self.clock@.subrange(0, i as int),
            decreases self.clock@.len() - i,
        {
            let e = (self.clock[i].0.clone(), self.clock[i].1);
            out.push(e);
            i = i + 1;
            assert(out@ =~= self.clock@.subrange(0, i as int));
        }
        assert(out@ =~= self.clock@);
        VectorClock { clock: out }
    }
}

/// Raising a clock to another twice leaves it where raising it once did.
pub proof fn lemma_update_idempotent(a: VectorClock, c: VectorClock)
    ensures
        join(join(a@, c@), c@) == join(a@, c@),
{
    assert(join(join(a@, c@), c@) =~= join(a@, c@));
}

/// Raising a clock to another gives a clock that neither is above.
pub proof fn lemma_update_dominates(a: VectorClock, c: VectorClock)
    ensures
        !some_less(join(a@, c@), a@),
        !some_less(join(a@, c@), c@),
{
}

/// A clock compares `Equal` to itself.
pub proof fn lemma_compare_reflexive(a: VectorClock)
    ensures
        clock_order(a@, a@) == ClockOrdering::Equal,
{
}

} // verus!
