//! A bounded least-recently-used cache of serialized response bodies.
//!
//! The cache is modelled as a sequence of `(key, body)` entries ordered from
//! the least recently used (index 0) to the most recently used (last).

use lru_cache::LruCache;
use std::collections::hash_map::RandomState;
use std::hash::{BuildHasher, Hash};
use vstd::prelude::*;

verus! {

/// One cache entry as the model sees it: a key and a body.
pub type Entry = (Seq<char>, Seq<char>);

#[verifier::external_type_specification]
#[verifier::external_body]
#[verifier::reject_recursive_types(K)]
#[verifier::reject_recursive_types(V)]
#[verifier::reject_recursive_types(S)]
pub struct ExLruCache<K: Eq + Hash, V, S: BuildHasher = RandomState>(LruCache<K, V, S>);

/// What an `LruCache` holds, from least to most recently used.
pub uninterp spec fn lru_entries(c: LruCache<String, String>) -> Seq<Entry>;

/// The bound that an `LruCache` was created with.
pub uninterp spec fn lru_capacity(c: LruCache<String, String>) -> nat;

/// The keys of a sequence of entries, in the same order.
pub open spec fn keys_of(s: Seq<Entry>) -> Seq<Seq<char>> {
    s.map_values(|e: Entry| e.0)
}

/// The entries of `s` whose key is not `k`, in the same order.
pub open spec fn without_key(s: Seq<Entry>, k: Seq<char>) -> Seq<Entry>
    decreases s.len(),
{
    if s.len() == 0 {
        s
    } else {
        let rest = without_key(s.drop_last(), k);
        if s.last().0 == k {
            rest
        } else {
            rest.push(s.last())
        }
    }
}

/// The elements of `ks` other than `k`, in the same order.
pub open spec fn without(ks: Seq<Seq<char>>, k: Seq<char>) -> Seq<Seq<char>>
    decreases ks.len(),
{
    if ks.len() == 0 {
        ks
    } else {
        let rest = without(ks.drop_last(), k);
        if ks.last() == k {
            rest
        } else {
            rest.push(ks.last())
        }
    }
}

/// Drops the oldest element when `s` holds more than `cap` elements.
pub open spec fn trimmed<A>(s: Seq<A>, cap: nat) -> Seq<A> {
    if s.len() > cap {
        s.drop_first()
    } else {
        s
    }
}

/// The last `n` elements of `s` (all of them when there are fewer).
pub open spec fn last_n<A>(s: Seq<A>, n: nat) -> Seq<A> {
    if s.len() <= n {
        s
    } else {
        s.subrange(s.len() - n, s.len() as int)
    }
}

/// Whether some entry of `s` has key `k`.
pub open spec fn has_key(s: Seq<Entry>, k: Seq<char>) -> bool {
    exists|i: int| 0 <= i < s.len() && #[trigger] s[i].0 == k
}

/// The body stored under `k` (meaningful when `has_key(s, k)`).
pub open spec fn value_of(s: Seq<Entry>, k: Seq<char>) -> Seq<char> {
    s[choose|i: int| 0 <= i < s.len() && #[trigger] s[i].0 == k].1
}

/// What a lookup of `k` yields.
pub open spec fn lookup(s: Seq<Entry>, k: Seq<char>) -> Option<Seq<char>> {
    if has_key(s, k) {
        Some(value_of(s, k))
    } else {
        None
    }
}

/// The entries after a lookup of `k`: a present key becomes the most recently used.
pub open spec fn after_get(s: Seq<Entry>, k: Seq<char>) -> Seq<Entry> {
    if has_key(s, k) {
        without_key(s, k).push((k, value_of(s, k)))
    } else {
        s
    }
}

/// The entries after storing `v` under `k` in a cache bounded by `cap`:
/// any old entry of `k` goes, `(k, v)` becomes the most recently used, and
/// the least recently used entry is evicted when the bound is exceeded.
pub open spec fn after_put(s: Seq<Entry>, k: Seq<char>, v: Seq<char>, cap: nat) -> Seq<Entry> {
    trimmed(without_key(s, k).push((k, v)), cap)
}

/// A well-formed cache content: distinct keys, within the bound.
pub open spec fn entries_wf(s: Seq<Entry>, cap: nat) -> bool {
    keys_of(s).no_duplicates() && s.len() <= cap
}

/// Relies on `LruCache::new`: an empty cache bounded by `capacity`.
#[verifier::external_body]
fn lru_new(capacity: usize) -> (r: LruCache<String, String>)
    ensures
        lru_entries(r) == Seq::<Entry>::empty(),
        lru_capacity(r) == capacity,
{
    LruCache::new(capacity)
}

/// Relies on `LruCache::get_mut`: returns (a copy of) the value of `k` and
/// moves a present `k` to the most recently used end.
#[verifier::external_body]
fn lru_get(c: &mut LruCache<String, String>, k: &String) -> (r: Option<String>)
    requires
        keys_of(lru_entries(*old(c))).no_duplicates(),
    ensures
        lru_entries(*final(c)) == after_get(lru_entries(*old(c)), k@),
        lru_capacity(*final(c)) == lru_capacity(*old(c)),
        r.is_some() == has_key(lru_entries(*old(c)), k@),
        r matches Some(v) ==> v@ == value_of(lru_entries(*old(c)), k@),
{
    c.get_mut(k).map(|v| v.clone())
}

/// Relies on `LruCache::insert`: replaces any entry of `k`, puts `(k, v)` at
/// the most recently used end, then pops the least recently used entry while
/// the length exceeds the capacity.
#[verifier::external_body]
fn lru_insert(c: &mut LruCache<String, String>, k: String, v: String)
    requires
        keys_of(lru_entries(*old(c))).no_duplicates(),
        lru_entries(*old(c)).len() <= lru_capacity(*old(c)),
    ensures
        lru_entries(*final(c)) == after_put(
            lru_entries(*old(c)),
            k@,
            v@,
            lru_capacity(*old(c)),
        ),
        lru_capacity(*final(c)) == lru_capacity(*old(c)),
{
    c.insert(k, v);
}


/// `keys_of` commutes with removing a key.
proof fn lemma_keys_without(s: Seq<Entry>, k: Seq<char>)
    ensures
        keys_of(without_key(s, k)) == without(keys_of(s), k),
    decreases s.len(),
{
    if s.len() > 0 {
        lemma_keys_without(s.drop_last(), k);
        assert(keys_of(s.drop_last()) =~= keys_of(s).drop_last());
        let rest = without_key(s.drop_last(), k);
        assert(keys_of(rest.push(s.last())) =~= keys_of(rest).push(s.last().0));
    } else {
        assert(keys_of(s) =~= Seq::<Seq<char>>::empty());
    }
}

/// Removing a key distributes over concatenation.
proof fn lemma_without_add(a: Seq<Seq<char>>, b: Seq<Seq<char>>, k: Seq<char>)
    ensures
        without(a + b, k) == without(a, k) + without(b, k),
    decreases b.len(),
{
    if b.len() == 0 {
        assert(a + b =~= a);
        assert(without(a, k) + without(b, k) =~= without(a, k));
    } else {
        lemma_without_add(a, b.drop_last(), k);
        assert((a + b).drop_last() =~= a + b.drop_last());
        assert((a + b).last() == b.last());
        assert(without(a, k) + without(b.drop_last(), k).push(b.last())
            =~= (without(a, k) + without(b.drop_last(), k)).push(b.last()));
    }
}

/// Which elements survive the removal of a key.
proof fn lemma_without_contents(ks: Seq<Seq<char>>, k: Seq<char>)
    ensures
        without(ks, k).len() <= ks.len(),
        forall|x: Seq<char>| #[trigger] without(ks, k).contains(x) <==> (ks.contains(x) && x != k),
        ks.no_duplicates() ==> without(ks, k).no_duplicates(),
        !ks.contains(k) ==> without(ks, k) == ks,
        ks.no_duplicates() && ks.contains(k) ==> without(ks, k).len() == ks.len() - 1,
    decreases ks.len(),
{
    if ks.len() > 0 {
        let d = ks.drop_last();
        lemma_without_contents(d, k);
        assert(ks =~= d.push(ks.last()));
        assert forall|x: Seq<char>| #[trigger] ks.contains(x) <==> (d.contains(x) || x == ks.last()) by {
            if ks.contains(x) {
                let i = choose|i: int| 0 <= i < ks.len() && ks[i] == x;
                if i < d.len() {
                    assert(d[i] == x);
                }
            }
            if d.contains(x) {
                let i = choose|i: int| 0 <= i < d.len() && d[i] == x;
                assert(ks[i] == x);
            }
            if x == ks.last() {
                assert(ks[ks.len() - 1] == x);
            }
        }
        if ks.no_duplicates() {
            assert(!d.contains(ks.last())) by {
                if d.contains(ks.last()) {
                    let i = choose|i: int| 0 <= i < d.len() && d[i] == ks.last();
                    assert(ks[i] == ks[ks.len() - 1]);
                }
            }
        }
        let rest = without(d, k);
        assert forall|x: Seq<char>| #[trigger] rest.push(ks.last()).contains(x) <==> (
        rest.contains(x) || x == ks.last()) by {
            if rest.push(ks.last()).contains(x) {
                let i = choose|i: int| 0 <= i < rest.len() + 1 && rest.push(ks.last())[i] == x;
                if i < rest.len() {
                    assert(rest[i] == x);
                }
            }
            if rest.contains(x) {
                let i = choose|i: int| 0 <= i < rest.len() && rest[i] == x;
                assert(rest.push(ks.last())[i] == x);
            }
            if x == ks.last() {
                assert(rest.push(ks.last())[rest.len() as int] == x);
            }
        }
        if !ks.contains(k) {
            assert(ks.last() != k);
        }
        if ks.no_duplicates() && ks.last() != k {
            let q = rest.push(ks.last());
            assert(q.no_duplicates()) by {
                assert forall|i: int, j: int| 0 <= i < q.len() && 0 <= j < q.len() && i != j
                    implies q[i] != q[j] by {
                    if i < rest.len() && j == rest.len() {
                        assert(rest.contains(rest[i]));
                    }
                    if j < rest.len() && i == rest.len() {
                        assert(rest.contains(rest[j]));
                    }
                }
            }
        }
    } else {
        assert(without(ks, k) =~= ks);
    }
}

/// The keys of `ks` in order of their last occurrence, each once, the most
/// recently used last.
pub open spec fn recency(ks: Seq<Seq<char>>) -> Seq<Seq<char>>
    decreases ks.len(),
{
    if ks.len() == 0 {
        ks
    } else {
        without(recency(ks.drop_last()), ks.last()).push(ks.last())
    }
}

/// The entries after storing each of `ps` in turn, starting from `s`.
pub open spec fn after_puts(s: Seq<Entry>, ps: Seq<Entry>, cap: nat) -> Seq<Entry>
    decreases ps.len(),
{
    if ps.len() == 0 {
        s
    } else {
        after_put(after_puts(s, ps.drop_last(), cap), ps.last().0, ps.last().1, cap)
    }
}

/// A recency order holds each key once; on distinct keys it is the identity.
proof fn lemma_recency(ks: Seq<Seq<char>>)
    ensures
        recency(ks).no_duplicates(),
        ks.no_duplicates() ==> recency(ks) == ks,
    decreases ks.len(),
{
    if ks.len() > 0 {
        let d = ks.drop_last();
        let k = ks.last();
        lemma_recency(d);
        lemma_without_contents(recency(d), k);
        let w = without(recency(d), k);
        assert(w.push(k).no_duplicates()) by {
            assert forall|i: int, j: int|
                0 <= i < w.push(k).len() && 0 <= j < w.push(k).len() && i != j
                implies w.push(k)[i] != w.push(k)[j] by {
                if i < w.len() && j == w.len() {
                    assert(w.contains(w[i]));
                }
                if j < w.len() && i == w.len() {
                    assert(w.contains(w[j]));
                }
            }
        }
        if ks.no_duplicates() {
            assert(d.no_duplicates());
            assert(!d.contains(k)) by {
                if d.contains(k) {
                    let i = choose|i: int| 0 <= i < d.len() && d[i] == k;
                    assert(ks[i] == ks[ks.len() - 1]);
                }
            }
            lemma_without_contents(d, k);
            assert(ks =~= d.push(k));
        }
    }
}

/// Keeping the last `cap` keys and then storing `k` keeps the last `cap` keys
/// of the recency order extended by `k`.
proof fn lemma_put_on_suffix(m: Seq<Seq<char>>, k: Seq<char>, cap: nat)
    requires
        m.no_duplicates(),
    ensures
        trimmed(without(last_n(m, cap), k).push(k), cap) == last_n(without(m, k).push(k), cap),
{
    if m.len() <= cap {
        lemma_without_contents(m, k);
        let w = without(m, k);
        if w.push(k).len() > cap {
            assert(w.push(k).drop_first() =~= w.push(k).subrange(1, w.push(k).len() as int));
        }
    } else {
        let split = m.len() - cap;
        let p = m.subrange(0, split);
        let l = m.subrange(split, m.len() as int);
        assert(m =~= p + l);
        assert(last_n(m, cap) == l);
        lemma_without_add(p, l, k);
        lemma_without_contents(l, k);
        lemma_without_contents(p, k);
        assert(l.no_duplicates());
        let wm = without(m, k);
        if l.contains(k) {
            assert(!p.contains(k)) by {
                if p.contains(k) {
                    let i = choose|i: int| 0 <= i < p.len() && p[i] == k;
                    let j = choose|j: int| 0 <= j < l.len() && l[j] == k;
                    assert(m[i] == m[split + j]);
                }
            }
            let wl = without(l, k);
            assert(wm.push(k) =~= p + wl.push(k));
            assert(last_n(wm.push(k), cap) =~= wl.push(k));
        } else {
            assert(wm.push(k) =~= without(p, k) + l.push(k));
            assert(last_n(wm.push(k), cap) =~= l.push(k).drop_first());
        }
    }
}

/// Storing preserves well-formedness and changes the keys as the key model says.
proof fn lemma_put_keys(s: Seq<Entry>, k: Seq<char>, v: Seq<char>, cap: nat)
    requires
        entries_wf(s, cap),
    ensures
        entries_wf(after_put(s, k, v, cap), cap),
        keys_of(after_put(s, k, v, cap)) == trimmed(without(keys_of(s), k).push(k), cap),
{
    lemma_keys_without(s, k);
    lemma_without_contents(keys_of(s), k);
    let w = without_key(s, k);
    let t = w.push((k, v));
    assert(keys_of(t) =~= keys_of(w).push(k));
    if t.len() > cap {
        assert(keys_of(t.drop_first()) =~= keys_of(t).drop_first());
    }
    let wk = keys_of(w);
    assert(keys_of(t).no_duplicates()) by {
        assert forall|i: int, j: int|
            0 <= i < wk.push(k).len() && 0 <= j < wk.push(k).len() && i != j
            implies wk.push(k)[i] != wk.push(k)[j] by {
            if i < wk.len() && j == wk.len() {
                assert(wk.contains(wk[i]));
            }
            if j < wk.len() && i == wk.len() {
                assert(wk.contains(wk[j]));
            }
        }
    }
}

/// After any sequence of stores, the cache holds exactly the `cap` most
/// recently used distinct keys: the last `cap` keys of the recency order of
/// the keys it held followed by the keys stored.
pub proof fn lemma_puts_keep_most_recent(s: Seq<Entry>, ps: Seq<Entry>, cap: nat)
    requires
        entries_wf(s, cap),
    ensures
        entries_wf(after_puts(s, ps, cap), cap),
        keys_of(after_puts(s, ps, cap)) == last_n(recency(keys_of(s) + keys_of(ps)), cap),
    decreases ps.len(),
{
    if ps.len() == 0 {
        assert(keys_of(s) + keys_of(ps) =~= keys_of(s));
        lemma_recency(keys_of(s));
    } else {
        let d = ps.drop_last();
        let p = ps.last();
        lemma_puts_keep_most_recent(s, d, cap);
        let all = keys_of(s) + keys_of(ps);
        assert(all.drop_last() =~= keys_of(s) + keys_of(d));
        assert(all.last() == p.0);
        lemma_recency(all.drop_last());
        lemma_put_keys(after_puts(s, d, cap), p.0, p.1, cap);
        lemma_put_on_suffix(recency(all.drop_last()), p.0, cap);
    }
}

/// A lookup right after storing `v` under `k` finds `v`, unless the bound is
/// zero and the store evicted it at once.
pub proof fn lemma_get_after_put(s: Seq<Entry>, k: Seq<char>, v: Seq<char>, cap: nat)
    requires
        entries_wf(s, cap),
    ensures
        lookup(after_put(s, k, v, cap), k) == (if cap > 0 {
            Some(v)
        } else {
            None::<Seq<char>>
        }),
{
    lemma_put_keys(s, k, v, cap);
    lemma_keys_without(s, k);
    lemma_without_contents(keys_of(s), k);
    let r = after_put(s, k, v, cap);
    let w = without_key(s, k);
    let t = w.push((k, v));
    if cap > 0 {
        assert(r.len() > 0);
        assert(r.last() == (k, v));
        let last = r.len() - 1;
        assert(r[last].0 == k);
        assert(has_key(r, k));
        assert forall|i: int| 0 <= i < r.len() && #[trigger] r[i].0 == k implies r[i].1 == v by {
            assert(keys_of(r)[i] == keys_of(r)[last]);
        }
    } else {
        assert(s.len() == 0);
        assert(r.len() == 0);
    }
}

/// A lookup keeps the content well-formed.
proof fn lemma_get_wf(s: Seq<Entry>, k: Seq<char>, cap: nat)
    requires
        entries_wf(s, cap),
    ensures
        entries_wf(after_get(s, k), cap),
{
    if has_key(s, k) {
        let i = choose|i: int| 0 <= i < s.len() && #[trigger] s[i].0 == k;
        assert(keys_of(s)[i] == k);
        lemma_put_keys(s, k, value_of(s, k), s.len());
        lemma_without_contents(keys_of(s), k);
        lemma_keys_without(s, k);
    }
}

/// The number of entries the shared response cache holds at most.
pub const CACHE_CAPACITY: usize = 100;

/// A bounded LRU cache from keys to serialized response bodies.
pub struct ResponseCache {
    entries: LruCache<String, String>,
}

impl View for ResponseCache {
    type V = Seq<Entry>;

    closed spec fn view(&self) -> Seq<Entry> {
        lru_entries(self.entries)
    }
}

impl ResponseCache {
    /// The bound on the number of entries.
    pub closed spec fn capacity(&self) -> nat {
        lru_capacity(self.entries)
    }

    pub open spec fn wf(&self) -> bool {
        entries_wf(self@, self.capacity())
    }

    /// An empty cache that holds at most `capacity` entries.
    pub fn new(capacity: usize) -> (r: ResponseCache)
        ensures
            r.wf(),
            r@ == Seq::<Entry>::empty(),
            r.capacity() == capacity,
    {
        ResponseCache { entries: lru_new(capacity) }
    }

    /// Returns a copy of the body stored under `key`, if any, and makes a
    /// present key the most recently used.
    pub fn get(&mut self, key: &String) -> (r: Option<String>)
        requires
            old(self).wf(),
        ensures
            final(self).wf(),
            final(self).capacity() == old(self).capacity(),
            final(self)@ == after_get(old(self)@, key@),
            match r {
                Some(body) => lookup(old(self)@, key@) == Some(body@),
                None => lookup(old(self)@, key@) == None::<Seq<char>>,
            },
    {
        proof {
            lemma_get_wf(self@, key@, self.capacity());
        }
        lru_get(&mut self.entries, key)
    }

    /// Stores `body` under `key` as the most recently used entry, evicting the
    /// least recently used one when the bound would be exceeded.
    pub fn put(&mut self, key: String, body: String)
        requires
            old(self).wf(),
        ensures
            final(self).wf(),
            final(self).capacity() == old(self).capacity(),
            final(self)@ == after_put(old(self)@, key@, body@, old(self).capacity()),
    {
        proof {
            lemma_put_keys(self@, key@, body@, self.capacity());
        }
        lru_insert(&mut self.entries, key, body);
    }
}

} // verus!
