//! A small map from 64-bit keys to values, kept as a vector of entries in
//! insertion order. The record store keys blocks and certificates by their
//! hashes and per-round votes and timeouts by their author, and needs both
//! lookup by key and iteration in a deterministic order.

use vstd::prelude::*;

verus! {

/// First value stored under `k`, or `None`.
pub open spec fn spec_lookup<V>(s: Seq<(u64, V)>, k: u64) -> Option<V>
    decreases s.len(),
{
    if s.len() == 0 {
        None
    } else if s[0].0 == k {
        Some(s[0].1)
    } else {
        spec_lookup(s.skip(1), k)
    }
}

/// Whether some entry stores `k`.
pub open spec fn spec_has_key<V>(s: Seq<(u64, V)>, k: u64) -> bool {
    exists|i: int| 0 <= i < s.len() && (#[trigger] s[i]).0 == k
}

/// Looking a key up succeeds exactly when an entry stores it.
pub proof fn lemma_lookup_has_key<V>(s: Seq<(u64, V)>, k: u64)
    ensures
        spec_lookup(s, k) is Some <==> spec_has_key(s, k),
    decreases s.len(),
{
    if s.len() > 0 {
        lemma_lookup_has_key(s.skip(1), k);
        if s[0].0 == k {
        } else {
            assert(spec_has_key(s, k) ==> spec_has_key(s.skip(1), k)) by {
                if spec_has_key(s, k) {
                    let i = choose|i: int| 0 <= i < s.len() && (#[trigger] s[i]).0 == k;
                    assert(s.skip(1)[i - 1] == s[i]);
                }
            }
            assert(spec_has_key(s.skip(1), k) ==> spec_has_key(s, k)) by {
                if spec_has_key(s.skip(1), k) {
                    let i = choose|i: int|
                        0 <= i < s.skip(1).len() && (#[trigger] s.skip(1)[i]).0 == k;
                    assert(s[i + 1] == s.skip(1)[i]);
                }
            }
        }
    }
}

/// With distinct keys, an entry's value is what lookup of its key returns.
pub proof fn lemma_lookup_at<V>(s: Seq<(u64, V)>, i: int)
    requires
        forall|a: int, b: int| 0 <= a < b < s.len() ==> (#[trigger] s[a]).0 != (#[trigger] s[b]).0,
        0 <= i < s.len(),
    ensures
        spec_lookup(s, s[i].0) == Some(s[i].1),
    decreases s.len(),
{
    if i == 0 {
    } else {
        assert(s[0].0 != s[i].0);
        assert(forall|a: int, b: int|
            0 <= a < b < s.skip(1).len() ==> (#[trigger] s.skip(1)[a]).0 != (
            #[trigger] s.skip(1)[b]).0) by {
            assert(forall|a: int|
                0 <= a < s.skip(1).len() ==> #[trigger] s.skip(1)[a] == s[a + 1]);
        }
        lemma_lookup_at(s.skip(1), i - 1);
        assert(s.skip(1)[i - 1] == s[i]);
    }
}

/// Appending an entry with a fresh key leaves other lookups unchanged and
/// makes the new key found.
pub proof fn lemma_lookup_push<V>(s: Seq<(u64, V)>, k: u64, v: V, q: u64)
    ensures
        q == k && !spec_has_key(s, k) ==> spec_lookup(s.push((k, v)), q) == Some(v),
        q != k ==> spec_lookup(s.push((k, v)), q) == spec_lookup(s, q),
    decreases s.len(),
{
    lemma_lookup_has_key(s, q);
    if s.len() == 0 {
        let p = s.push((k, v));
        assert(p[0] == (k, v));
        assert(p.skip(1) =~= Seq::<(u64, V)>::empty());
        assert(spec_lookup(p, k) == Some(v));
        if q != k {
            assert(spec_lookup(p, q) == spec_lookup(p.skip(1), q));
            assert(spec_lookup(p.skip(1), q) == None::<V>);
            assert(spec_lookup(s, q) == None::<V>);
        }
    } else {
        assert(s.push((k, v))[0] == s[0]);
        assert(s.push((k, v)).skip(1) =~= s.skip(1).push((k, v)));
        assert(!spec_has_key(s, k) ==> !spec_has_key(s.skip(1), k)) by {
            if spec_has_key(s.skip(1), k) {
                let i = choose|i: int| 0 <= i < s.skip(1).len() && (#[trigger] s.skip(1)[i]).0 == k;
                assert(s[i + 1] == s.skip(1)[i]);
            }
        }
        lemma_lookup_push(s.skip(1), k, v, q);
        let p = s.push((k, v));
        if q != k {
            if s[0].0 == q {
                assert(spec_lookup(p, q) == Some(s[0].1));
                assert(spec_lookup(s, q) == Some(s[0].1));
            } else {
                assert(p.skip(1) == s.skip(1).push((k, v)));
                assert(spec_lookup(p, q) == spec_lookup(s.skip(1).push((k, v)), q));
                assert(spec_lookup(s, q) == spec_lookup(s.skip(1), q));
            }
        }
    }
}

/// A map from `u64` keys to values, iterable in insertion order.
pub struct KeyedVec<V> {
    entries: Vec<(u64, V)>,
}

impl<V> KeyedVec<V> {
    /// The entries, in insertion order.
    pub closed spec fn entries_seq(self) -> Seq<(u64, V)> {
        self.entries@
    }

    /// No two entries share a key.
    pub open spec fn wf(self) -> bool {
        forall|a: int, b: int|
            0 <= a < b < self.entries_seq().len() ==> (#[trigger] self.entries_seq()[a]).0 != (
            #[trigger] self.entries_seq()[b]).0
    }

    /// Whether `k` is present.
    pub open spec fn spec_contains(self, k: u64) -> bool {
        spec_has_key(self.entries_seq(), k)
    }

    /// The value stored under `k`, if any.
    pub open spec fn spec_get(self, k: u64) -> Option<V> {
        spec_lookup(self.entries_seq(), k)
    }

    /// The empty map.
    pub fn new() -> (r: KeyedVec<V>)
        ensures
            r.entries_seq() == Seq::<(u64, V)>::empty(),
            r.wf(),
    {
        KeyedVec { entries: Vec::new() }
    }

    /// Number of entries.
    pub fn len(&self) -> (r: usize)
        ensures
            r == self.entries_seq().len(),
    {
        self.entries.len()
    }

    /// Whether `k` is present.
    pub fn contains_key(&self, k: u64) -> (r: bool)
        ensures
            r == self.spec_contains(k),
    {
        proof {
            lemma_lookup_has_key(self.entries@, k);
        }
        match self.get(k) {
            Some(_) => true,
            None => false,
        }
    }

    /// Borrow the value stored under `k`, if any.
    pub fn get(&self, k: u64) -> (r: Option<&V>)
        ensures
            match r {
                Some(v) => self.spec_get(k) == Some(*v),
                None => self.spec_get(k) is None,
            },
    {
        proof {
            assert(self.entries@.skip(0) =~= self.entries@);
        }
        let n = self.entries.len();
        let mut i: usize = 0;
        loop
            invariant
                i <= n,
                n == self.entries@.len(),
                spec_lookup(self.entries@, k) == spec_lookup(self.entries@.skip(i as int), k),
            decreases n - i,
        {
            if i == n {
                proof {
                    assert(self.entries@.skip(i as int).len() == 0);
                }
                return None;
            }
            let ghost s = self.entries@.skip(i as int);
            proof {
                assert(s[0] == self.entries@[i as int]);
            }
            if self.entries[i].0 == k {
                return Some(&self.entries[i].1);
            }
            i = i + 1;
            proof {
                assert(s.skip(1) =~= self.entries@.skip(i as int));
            }
        }
    }

    /// Add an entry under a key not yet present.
    pub fn insert_new(&mut self, k: u64, v: V)
        requires
            old(self).wf(),
            !old(self).spec_contains(k),
        ensures
            final(self).entries_seq() == old(self).entries_seq().push((k, v)),
            final(self).wf(),
            final(self).spec_get(k) == Some(v),
            forall|q: u64| q != k ==> final(self).spec_get(q) == old(self).spec_get(q),
            forall|q: u64|
                #[trigger] final(self).spec_contains(q) <==> old(self).spec_contains(q) || q == k,
            forall|q: u64|
                q != k ==> #[trigger] spec_lookup(final(self).entries_seq(), q) == spec_lookup(
                    old(self).entries_seq(),
                    q,
                ),
            forall|q: u64|
                q != k ==> (#[trigger] spec_has_key(final(self).entries_seq(), q) == spec_has_key(
                    old(self).entries_seq(),
                    q,
                )),
    {
        self.entries.push((k, v));
        proof {
            let s = self.entries@;
            let s0 = old(self).entries@;
            lemma_lookup_push(s0, k, v, k);
            assert(final(self).spec_get(k) == Some(v));
            assert forall|q: u64| q != k implies final(self).spec_get(q) == old(self).spec_get(
                q,
            ) by {
                lemma_lookup_push(s0, k, v, q);
            }
            assert forall|q: u64| q != k implies #[trigger] spec_lookup(
                final(self).entries_seq(),
                q,
            ) == spec_lookup(old(self).entries_seq(), q) by {
                lemma_lookup_push(s0, k, v, q);
            }
            assert forall|q: u64| q != k implies (#[trigger] spec_has_key(
                final(self).entries_seq(),
                q,
            ) == spec_has_key(old(self).entries_seq(), q)) by {
                lemma_lookup_push(s0, k, v, q);
                lemma_lookup_has_key(s, q);
                lemma_lookup_has_key(s0, q);
            }
            assert(final(self).wf()) by {
                assert forall|a: int, b: int| 0 <= a < b < s.len() implies (#[trigger] s[a]).0 != (
                #[trigger] s[b]).0 by {
                    if b < s.len() - 1 {
                        assert(s[a] == s0[a] && s[b] == s0[b]);
                    } else {
                        assert(s[b] == (k, v));
                        assert(s[a] == s0[a]);
                        if s0[a].0 == k {
                            assert(spec_has_key(s0, k));
                            lemma_lookup_has_key(s0, k);
                        }
                    }
                }
            }
            assert forall|q: u64| true implies (#[trigger] final(self).spec_contains(q) <==> old(
                self,
            ).spec_contains(q) || q == k) by {
                lemma_lookup_has_key(s, q);
                lemma_lookup_has_key(s0, q);
                lemma_lookup_push(s0, k, v, q);
                if q == k {
                    assert(spec_lookup(s, q) == Some(v));
                }
            }
        }
    }

    /// Append an entry without any key discipline; lookups keep answering
    /// from the first entry with a key.
    pub fn push_entry(&mut self, k: u64, v: V)
        ensures
            final(self).entries_seq() == old(self).entries_seq().push((k, v)),
    {
        self.entries.push((k, v));
    }

    /// Borrow the entry at position `i`.
    pub fn entry_at(&self, i: usize) -> (r: &(u64, V))
        requires
            i < self.entries_seq().len(),
        ensures
            *r == self.entries_seq()[i as int],
    {
        &self.entries[i]
    }
}

} // verus!
