//! An in-memory store of signed memories, claim tokens and proxy records,
//! keyed by id.

use vstd::prelude::*;
use crate::codec::{ascii_lower, to_ascii_lower};
use crate::memory::{ClaimToken, ProxyMemory, SignedMemory};
use crate::text::{chars_of, concat};
use crate::validation::{replace_all, replace_char};

verus! {

/// The position of the first element of `s` whose key (as `key` reads it)
/// is `k`.
pub open spec fn first_with<T>(s: Seq<T>, key: spec_fn(T) -> Seq<char>, k: Seq<char>) -> Option<int>
    decreases s.len(),
{
    if s.len() == 0 {
        None
    } else {
        match first_with(s.drop_last(), key, k) {
            Some(i) => Some(i),
            None => if key(s.last()) == k {
                Some(s.len() - 1)
            } else {
                None
            },
        }
    }
}

/// What `first_with` finds has the key, and nothing before it does.
pub proof fn lemma_first_with_found<T>(s: Seq<T>, key: spec_fn(T) -> Seq<char>, k: Seq<char>)
    ensures
        first_with(s, key, k) matches Some(i) ==> 0 <= i < s.len() && key(s[i]) == k,
{
    lemma_first_with_bounds(s, key, k);
}

/// Where keys are unique, the key of element `i` is first found at `i`.
pub proof fn lemma_first_with_unique<T>(s: Seq<T>, key: spec_fn(T) -> Seq<char>, i: int)
    requires
        0 <= i < s.len(),
        forall|a: int, b: int| 0 <= a < b < s.len() ==> key(s[a]) != key(s[b]),
    ensures
        first_with(s, key, key(s[i])) == Some(i),
{
    lemma_first_with_bounds(s, key, key(s[i]));
}

pub proof fn lemma_first_with_bounds<T>(s: Seq<T>, key: spec_fn(T) -> Seq<char>, k: Seq<char>)
    ensures
        first_with(s, key, k) matches Some(i) ==> 0 <= i < s.len() && key(s[i]) == k && forall|
            j: int,
        | 0 <= j < i ==> key(s[j]) != k,
        first_with(s, key, k) is None ==> forall|j: int| 0 <= j < s.len() ==> key(s[j]) != k,
    decreases s.len(),
{
    if s.len() > 0 {
        let t = s.drop_last();
        lemma_first_with_bounds(t, key, k);
        assert forall|j: int| 0 <= j < t.len() implies s[j] == t[j] by {}
    }
}

pub proof fn lemma_first_with_prefix<T>(s: Seq<T>, key: spec_fn(T) -> Seq<char>, k: Seq<char>, n: int)
    requires
        0 <= n <= s.len(),
        first_with(s.subrange(0, n), key, k) is Some,
    ensures
        first_with(s, key, k) == first_with(s.subrange(0, n), key, k),
    decreases s.len(),
{
    if n < s.len() {
        assert(s.drop_last().subrange(0, n) =~= s.subrange(0, n));
        lemma_first_with_prefix(s.drop_last(), key, k, n);
    } else {
        assert(s.subrange(0, n) =~= s);
    }
}

pub proof fn lemma_first_with_step<T>(s: Seq<T>, key: spec_fn(T) -> Seq<char>, k: Seq<char>, i: int)
    requires
        0 <= i < s.len(),
        first_with(s.subrange(0, i), key, k) is None,
    ensures
        first_with(s.subrange(0, i + 1), key, k) == if key(s[i]) == k {
            Some(i)
        } else {
            None::<int>
        },
{
    assert(s.subrange(0, i + 1).drop_last() =~= s.subrange(0, i));
}

/// The prefix of `s` as long as `s` is `s`.
proof fn lemma_whole_prefix<T>(s: Seq<T>)
    ensures
        s.subrange(0, s.len() as int) == s,
{
    assert(s.subrange(0, s.len() as int) =~= s);
}

/// Every stored memory's payload matches its content hash.
pub open spec fn store_hashes_ok(s: Seq<SignedMemory>) -> bool {
    forall|i: int| 0 <= i < s.len() ==> (#[trigger] s[i]).hash_matches()
}

/// Why a write was refused.
#[derive(Debug, Clone, Copy, PartialEq, Eq, Structural)]
pub enum StoreError {
    AlreadyExists,
    NotFound,
}

/// Memories, tokens and proxy records; each table keeps its ids unique.
pub struct MemoryStore {
    pub memories: Vec<SignedMemory>,
    pub tokens: Vec<ClaimToken>,
    pub proxies: Vec<ProxyMemory>,
}

fn find_memory(s: &Vec<SignedMemory>, id: &str) -> (r: Option<usize>)
    ensures
        r matches Some(i) ==> first_with(s@, |m: SignedMemory| m.id@, id@) == Some(i as int),
        r is None ==> first_with(s@, |m: SignedMemory| m.id@, id@) is None,
{
    let ghost key = |m: SignedMemory| m.id@;
    let mut i: usize = 0;
    while i < s.len()
        invariant
            i <= s@.len(),
            key == (|m: SignedMemory| m.id@),
            first_with(s@.subrange(0, i as int), key, id@) is None,
        decreases s@.len() - i,
    {
        proof {
            lemma_first_with_step(s@, key, id@, i as int);
        }
        if crate::text::str_eq(s[i].id.as_str(), id) {
            proof {
                lemma_first_with_prefix(s@, key, id@, i + 1);
            }
            return Some(i);
        }
        i = i + 1;
    }
    proof {
        lemma_whole_prefix(s@);
    }
    None
}

fn find_token_by(s: &Vec<ClaimToken>, k: &str, by_code: bool) -> (r: Option<usize>)
    ensures
        by_code ==> (r matches Some(i) ==> first_with(s@, |t: ClaimToken| t.token@, k@) == Some(
            i as int,
        )),
        by_code ==> (r is None ==> first_with(s@, |t: ClaimToken| t.token@, k@) is None),
        !by_code ==> (r matches Some(i) ==> first_with(s@, |t: ClaimToken| t.id@, k@) == Some(
            i as int,
        )),
        !by_code ==> (r is None ==> first_with(s@, |t: ClaimToken| t.id@, k@) is None),
{
    let ghost key = if by_code {
        |t: ClaimToken| t.token@
    } else {
        |t: ClaimToken| t.id@
    };
    let mut i: usize = 0;
    while i < s.len()
        invariant
            i <= s@.len(),
            key == (if by_code {
                |t: ClaimToken| t.token@
            } else {
                |t: ClaimToken| t.id@
            }),
            first_with(s@.subrange(0, i as int), key, k@) is None,
        decreases s@.len() - i,
    {
        proof {
            lemma_first_with_step(s@, key, k@, i as int);
        }
        let field = if by_code {
            s[i].token.as_str()
        } else {
            s[i].id.as_str()
        };
        if crate::text::str_eq(field, k) {
            proof {
                lemma_first_with_prefix(s@, key, k@, i + 1);
            }
            return Some(i);
        }
        i = i + 1;
    }
    proof {
        lemma_whole_prefix(s@);
    }
    None
}

/// The LIKE pattern that matches names holding `name` literally: `\`, `%`
/// and `_` escaped with `\`, then wrapped in `%`.
pub open spec fn like_pattern_of(name: Seq<char>) -> Seq<char> {
    "%"@ + replace_char(replace_char(replace_char(name, '\\', "\\\\"@), '%', "\\%"@), '_', "\\_"@)
        + "%"@
}

/// Builds the escaped LIKE pattern for a substring search on `name`.
pub fn like_pattern(name: &str) -> (r: String)
    ensures
        r@ == like_pattern_of(name@),
{
    let a = replace_all(name, '\\', "\\\\");
    let b = replace_all(a.as_str(), '%', "\\%");
    let c = replace_all(b.as_str(), '_', "\\_");
    let mut r = concat("%", c.as_str());
    r.append("%");
    r
}

/// `needle` occurs in `hay` as a contiguous run.
pub open spec fn occurs_in(needle: Seq<char>, hay: Seq<char>) -> bool {
    exists|i: int|
        0 <= i <= hay.len() - needle.len() && #[trigger] hay.subrange(i, i + needle.len()) == needle
}

fn occurs(needle: &Vec<char>, hay: &Vec<char>) -> (r: bool)
    ensures
        r == occurs_in(needle@, hay@),
{
    if needle.len() > hay.len() {
        return false;
    }
    let last = hay.len() - needle.len();
    assert(hay@.len() <= usize::MAX);
    let mut i: usize = 0;
    while i <= last
        invariant
            last == hay@.len() - needle@.len(),
            needle@.len() <= hay@.len(),
            hay@.len() <= usize::MAX,
            forall|m: int| 0 <= m < i ==> #[trigger] hay@.subrange(m, m + needle@.len()) != needle@,
        decreases last + 1 - i,
    {
        let mut j: usize = 0;
        let mut same = true;
        while j < needle.len()
            invariant
                i <= last,
                needle@.len() <= hay@.len(),
                i + needle@.len() <= hay@.len(),
                hay@.len() <= usize::MAX,
                last == hay@.len() - needle@.len(),
                j <= needle@.len(),
                same == forall|m: int| 0 <= m < j ==> hay@[i + m] == needle@[m],
            decreases needle@.len() - j,
        {
            if hay[i + j] != needle[j] {
                same = false;
            }
            j = j + 1;
        }
        if same {
            assert(hay@.subrange(i as int, i + needle@.len()) =~= needle@);
            return true;
        }
        proof {
            let m = choose|m: int| 0 <= m < needle@.len() && hay@[i + m] != needle@[m];
            assert(hay@.subrange(i as int, i + needle@.len())[m] != needle@[m]);
        }
        if i == last {
            assert forall|m: int| 0 <= m <= last implies #[trigger] hay@.subrange(
                m,
                m + needle@.len(),
            ) != needle@ by {}
            return false;
        }
        i = i + 1;
    }
    false
}

/// A proxy's name holds `pattern`, ASCII letters compared without case.
pub open spec fn name_matches(name: Seq<char>, pattern: Seq<char>) -> bool {
    occurs_in(ascii_lower(pattern), ascii_lower(name))
}

impl MemoryStore {
    /// Ids are unique in each table.
    pub open spec fn wf(&self) -> bool {
        &&& forall|i: int, j: int|
            0 <= i < j < self.memories@.len() ==> self.memories@[i].id@ != self.memories@[j].id@
        &&& forall|i: int, j: int|
            0 <= i < j < self.tokens@.len() ==> self.tokens@[i].id@ != self.tokens@[j].id@
    }

    pub fn new() -> (r: MemoryStore)
        ensures
            r.wf(),
            r.memories@.len() == 0,
            r.tokens@.len() == 0,
            r.proxies@.len() == 0,
    {
        MemoryStore { memories: Vec::new(), tokens: Vec::new(), proxies: Vec::new() }
    }

    /// Adds a memory; refused when one with the same id is stored.
    pub fn put_memory(&mut self, memory: SignedMemory) -> (r: Result<(), StoreError>)
        requires
            old(self).wf(),
        ensures
            final(self).wf(),
            r is Ok <==> first_with(old(self).memories@, |m: SignedMemory| m.id@, memory.id@) is None,
            r is Ok ==> final(self).memories@ == old(self).memories@.push(memory),
            r is Err ==> final(self).memories@ == old(self).memories@,
            r is Err ==> r == Err::<(), StoreError>(StoreError::AlreadyExists),
            final(self).tokens@ == old(self).tokens@,
            final(self).proxies@ == old(self).proxies@,
    {
        proof {
            lemma_first_with_bounds(self.memories@, |m: SignedMemory| m.id@, memory.id@);
        }
        match find_memory(&self.memories, memory.id.as_str()) {
            Some(_) => Err(StoreError::AlreadyExists),
            None => {
                self.memories.push(memory);
                Ok(())
            },
        }
    }

    /// Stores `memory`, replacing the memory with the same id if there is one.
    pub fn save_memory(&mut self, memory: SignedMemory)
        requires
            old(self).wf(),
        ensures
            final(self).wf(),
            match first_with(old(self).memories@, |m: SignedMemory| m.id@, memory.id@) {
                Some(i) => final(self).memories@ == old(self).memories@.update(i, memory),
                None => final(self).memories@ == old(self).memories@.push(memory),
            },
            final(self).tokens@ == old(self).tokens@,
            final(self).proxies@ == old(self).proxies@,
    {
        proof {
            lemma_first_with_bounds(self.memories@, |m: SignedMemory| m.id@, memory.id@);
        }
        match find_memory(&self.memories, memory.id.as_str()) {
            Some(i) => {
                self.memories.set(i, memory);
                proof {
                    assert forall|a: int, b: int| 0 <= a < b < self.memories@.len() implies self.memories@[a].id@
                        != self.memories@[b].id@ by {
                        if a == i {
                            assert(old(self).memories@[a].id@ == self.memories@[a].id@);
                        }
                        if b == i {
                            assert(old(self).memories@[b].id@ == self.memories@[b].id@);
                        }
                    }
                }
            },
            None => {
                self.memories.push(memory);
            },
        }
    }

    /// The first memory with id `id`.
    pub fn get_memory(&self, id: &str) -> (r: Option<SignedMemory>)
        ensures
            r matches Some(m) ==> first_with(self.memories@, |m: SignedMemory| m.id@, id@) matches Some(
                i,
            ) && m == self.memories@[i],
            r is None ==> first_with(self.memories@, |m: SignedMemory| m.id@, id@) is None,
    {
        proof {
            lemma_first_with_bounds(self.memories@, |m: SignedMemory| m.id@, id@);
        }
        match find_memory(&self.memories, id) {
            Some(i) => Some(self.memories[i].copy()),
            None => None,
        }
    }

    /// The memories authored by `did`, newest timestamp first.
    pub fn list_memories_by_did(&self, did: &str) -> (r: Vec<SignedMemory>)
        ensures
            r@.len() == self.memories@.filter(|m: SignedMemory| m.did@ == did@).len(),
            r@.to_multiset() == self.memories@.filter(|m: SignedMemory| m.did@ == did@).to_multiset(),
            forall|k: int| 0 <= k < r@.len() ==> (#[trigger] r@[k]).did@ == did@,
            forall|k: int| 0 <= k < r@.len() - 1 ==> !crate::json::key_lt(r@[k].timestamp@, #[trigger] r@[k + 1].timestamp@),
    {
        let ghost f = |m: SignedMemory| m.did@ == did@;
        let mut out: Vec<SignedMemory> = Vec::new();
        proof {
            assert(self.memories@.subrange(0, 0).filter(f) =~= Seq::<SignedMemory>::empty()) by {
                reveal(Seq::filter);
            }
            assert(out@ =~= Seq::<SignedMemory>::empty());
        }
        let mut i: usize = 0;
        while i < self.memories.len()
            invariant
                i <= self.memories@.len(),
                f == (|m: SignedMemory| m.did@ == did@),
                out@.len() == self.memories@.subrange(0, i as int).filter(f).len(),
                out@.to_multiset() == self.memories@.subrange(0, i as int).filter(f).to_multiset(),
                forall|k: int| 0 <= k < out@.len() ==> (#[trigger] out@[k]).did@ == did@,
                forall|k: int| 0 <= k < out@.len() - 1 ==> !crate::json::key_lt(out@[k].timestamp@, #[trigger] out@[k + 1].timestamp@),
            decreases self.memories@.len() - i,
        {
            proof {
                self.memories@.subrange(0, i as int).lemma_filter_push(self.memories@[i as int], f);
                assert(self.memories@.subrange(0, i as int).push(self.memories@[i as int])
                    =~= self.memories@.subrange(0, i + 1));
            }
            let m = &self.memories[i];
            if crate::text::str_eq(m.did.as_str(), did) {
                let mut pos: usize = out.len();
                while pos > 0 && crate::json::key_less(out[pos - 1].timestamp.as_str(), m.timestamp.as_str())
                    invariant
                        pos <= out@.len(),
                        forall|k: int| pos <= k < out@.len() ==> crate::json::key_lt(#[trigger] out@[k].timestamp@, m.timestamp@),
                        forall|k: int| 0 <= k < out@.len() - 1 ==> !crate::json::key_lt(out@[k].timestamp@, #[trigger] out@[k + 1].timestamp@),
                    decreases pos,
                {
                    pos = pos - 1;
                }
                let ghost before = out@;
                assert(pos > 0 ==> !crate::json::key_lt(before[pos - 1].timestamp@, m.timestamp@));
                assert(pos < before.len() ==> crate::json::key_lt(before[pos as int].timestamp@, m.timestamp@));
                let c = m.copy();
                out.insert(pos, c);
                proof {
                    assert(out@ == before.insert(pos as int, c));
                    vstd::seq_lib::to_multiset_insert(before, pos as int, c);
                    vstd::seq_lib::to_multiset_build(self.memories@.subrange(0, i as int).filter(f), self.memories@[i as int]);
                    assert forall|k: int| 0 <= k < out@.len() implies (#[trigger] out@[k]).did@ == did@ by {
                        if k < pos {
                            assert(out@[k] == before[k]);
                        } else if k > pos {
                            assert(out@[k] == before[k - 1]);
                        }
                    }
                    assert forall|k: int| 0 <= k < out@.len() - 1 implies !crate::json::key_lt(out@[k].timestamp@, #[trigger] out@[k + 1].timestamp@) by {
                        if k + 1 < pos {
                            assert(out@[k] == before[k] && out@[k + 1] == before[k + 1]);
                        } else if k + 1 == pos {
                            assert(out@[k] == before[k]);
                        } else if k == pos {
                            assert(out@[k + 1] == before[k]);
                            crate::json::lemma_keys_pub(m.timestamp@, before[k].timestamp@, m.timestamp@);
                        } else {
                            let k0 = k - 1;
                            assert(out@[k] == before[k0] && out@[k + 1] == before[k0 + 1]);
                            assert(!crate::json::key_lt(before[k0].timestamp@, before[k0 + 1].timestamp@));
                        }
                    }
                }
            }
            i = i + 1;
        }
        assert(self.memories@.subrange(0, self.memories@.len() as int) =~= self.memories@);
        out
    }

    /// Adds a claim token; refused when one with the same id is stored.
    pub fn put_claim_token(&mut self, token: ClaimToken) -> (r: Result<(), StoreError>)
        requires
            old(self).wf(),
        ensures
            final(self).wf(),
            r is Ok <==> first_with(old(self).tokens@, |t: ClaimToken| t.id@, token.id@) is None,
            r is Ok ==> final(self).tokens@ == old(self).tokens@.push(token),
            r is Err ==> final(self).tokens@ == old(self).tokens@,
            final(self).memories@ == old(self).memories@,
            final(self).proxies@ == old(self).proxies@,
    {
        proof {
            lemma_first_with_bounds(self.tokens@, |t: ClaimToken| t.id@, token.id@);
        }
        match find_token_by(&self.tokens, token.id.as_str(), false) {
            Some(_) => Err(StoreError::AlreadyExists),
            None => {
                self.tokens.push(token);
                Ok(())
            },
        }
    }

    /// Whether a token with id `id` is stored.
    pub fn token_stored(&self, id: &str) -> (r: bool)
        ensures
            r == first_with(self.tokens@, |t: ClaimToken| t.id@, id@) is Some,
    {
        find_token_by(&self.tokens, id, false).is_some()
    }

    /// The index of the first token whose code is `code`.
    pub fn token_index(&self, code: &str) -> (r: Option<usize>)
        ensures
            r matches Some(i) ==> first_with(self.tokens@, |t: ClaimToken| t.token@, code@)
                == Some(i as int) && i < self.tokens@.len(),
            r is None ==> first_with(self.tokens@, |t: ClaimToken| t.token@, code@) is None,
    {
        proof {
            lemma_first_with_bounds(self.tokens@, |t: ClaimToken| t.token@, code@);
        }
        find_token_by(&self.tokens, code, true)
    }

    /// Replaces the stored token that has `token`'s id.
    pub fn update_claim_token(&mut self, token: ClaimToken) -> (r: Result<(), StoreError>)
        requires
            old(self).wf(),
        ensures
            final(self).wf(),
            match first_with(old(self).tokens@, |t: ClaimToken| t.id@, token.id@) {
                Some(i) => r is Ok && final(self).tokens@ == old(self).tokens@.update(i, token),
                None => r == Err::<(), StoreError>(StoreError::NotFound) && final(self).tokens@
                    == old(self).tokens@,
            },
            final(self).memories@ == old(self).memories@,
            final(self).proxies@ == old(self).proxies@,
    {
        proof {
            lemma_first_with_bounds(self.tokens@, |t: ClaimToken| t.id@, token.id@);
        }
        match find_token_by(&self.tokens, token.id.as_str(), false) {
            Some(i) => {
                self.tokens.set(i, token);
                proof {
                    assert forall|a: int, b: int|
                        0 <= a < b < self.tokens@.len() implies self.tokens@[a].id@
                        != self.tokens@[b].id@ by {
                        if a == i {
                            assert(old(self).tokens@[a].id@ == self.tokens@[a].id@);
                        }
                        if b == i {
                            assert(old(self).tokens@[b].id@ == self.tokens@[b].id@);
                        }
                    }
                }
                Ok(())
            },
            None => Err(StoreError::NotFound),
        }
    }

    /// Adds a proxy record.
    pub fn put_proxy(&mut self, proxy: ProxyMemory)
        requires
            old(self).wf(),
        ensures
            final(self).wf(),
            final(self).proxies@ == old(self).proxies@.push(proxy),
            final(self).memories@ == old(self).memories@,
            final(self).tokens@ == old(self).tokens@,
    {
        self.proxies.push(proxy);
    }

    /// The proxy records whose name holds `name_pattern`, ASCII letters
    /// compared without case, in the order they were stored.
    pub fn search_proxies_by_name(&self, name_pattern: &str) -> (r: Vec<ProxyMemory>)
        ensures
            r@ == self.proxies@.filter(
                |p: ProxyMemory| name_matches(p.proxy_for_name@, name_pattern@),
            ),
    {
        let lowered = to_ascii_lower(name_pattern);
        let needle = chars_of(lowered.as_str());
        let mut out: Vec<ProxyMemory> = Vec::new();
        let mut i: usize = 0;
        while i < self.proxies.len()
            invariant
                i <= self.proxies@.len(),
                needle@ == ascii_lower(name_pattern@),
                out@ == self.proxies@.subrange(0, i as int).filter(
                    |p: ProxyMemory| name_matches(p.proxy_for_name@, name_pattern@),
                ),
            decreases self.proxies@.len() - i,
        {
            let name = to_ascii_lower(self.proxies[i].proxy_for_name.as_str());
            let hay = chars_of(name.as_str());
            let hit = occurs(&needle, &hay);
            proof {
                let f = |p: ProxyMemory| name_matches(p.proxy_for_name@, name_pattern@);
                assert(self.proxies@.subrange(0, i + 1).drop_last() =~= self.proxies@.subrange(
                    0,
                    i as int,
                ));
                self.proxies@.subrange(0, i as int).lemma_filter_push(self.proxies@[i as int], f);
                assert(self.proxies@.subrange(0, i as int).push(self.proxies@[i as int])
                    =~= self.proxies@.subrange(0, i + 1));
            }
            if hit {
                out.push(self.proxies[i].copy());
            }
            i = i + 1;
        }
        assert(self.proxies@.subrange(0, self.proxies@.len() as int) =~= self.proxies@);
        out
    }
}

} // verus!
