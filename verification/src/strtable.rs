//! A string-keyed lookup table: each distinct key keeps the value it was
//! first inserted with. Keys are bucketed by a 64-bit FNV-1a hash of their
//! characters, so lookups compare only the keys that share a hash.

use std::collections::HashMap;

use vstd::prelude::*;

verus! {

broadcast use vstd::std_specs::hash::group_hash_axioms;

/// FNV-1a over the code points of `s`.
pub open spec fn str_hash(s: Seq<char>) -> u64
    decreases s.len(),
{
    if s.len() == 0 {
        0xcbf2_9ce4_8422_2325u64
    } else {
        (str_hash(s.drop_last()) ^ (s.last() as u32 as u64)).wrapping_mul(0x0000_0100_0000_01b3u64)
    }
}

/// The value of the first entry whose key is `k`.
pub open spec fn seq_lookup(e: Seq<(Seq<char>, u32)>, k: Seq<char>) -> Option<u32>
    decreases e.len(),
{
    if e.len() == 0 {
        None
    } else {
        match seq_lookup(e.drop_last(), k) {
            Some(v) => Some(v),
            None => if e.last().0 == k { Some(e.last().1) } else { None },
        }
    }
}

/// `e` with `(k, v)` appended unless `k` is already a key of `e`.
pub open spec fn insert_absent(e: Seq<(Seq<char>, u32)>, k: Seq<char>, v: u32) -> Seq<(Seq<char>, u32)> {
    if seq_lookup(e, k) is Some { e } else { e.push((k, v)) }
}

/// Whether no two entries of `e` share a key.
pub open spec fn distinct_keys(e: Seq<(Seq<char>, u32)>) -> bool {
    forall|i: int, j: int| 0 <= i < j < e.len() ==> e[i].0 != e[j].0
}

/// With distinct keys, the lookup of the key of entry `i` is that entry's value.
pub proof fn lemma_lookup_hit(e: Seq<(Seq<char>, u32)>, i: int)
    requires
        distinct_keys(e),
        0 <= i < e.len(),
    ensures
        seq_lookup(e, e[i].0) == Some(e[i].1),
    decreases e.len(),
{
    let p = e.drop_last();
    if i < e.len() - 1 {
        assert(p[i] == e[i]);
        lemma_lookup_hit(p, i);
    } else {
        lemma_lookup_miss(p, e[i].0);
    }
}

/// A key that no entry holds is not found.
pub proof fn lemma_lookup_miss(e: Seq<(Seq<char>, u32)>, k: Seq<char>)
    requires
        forall|i: int| 0 <= i < e.len() ==> e[i].0 != k,
    ensures
        seq_lookup(e, k) is None,
    decreases e.len(),
{
    if e.len() > 0 {
        let p = e.drop_last();
        assert forall|i: int| 0 <= i < p.len() implies p[i].0 != k by {
            assert(p[i] == e[i]);
        }
        lemma_lookup_miss(p, k);
    }
}

/// A found key is held by some entry.
pub proof fn lemma_lookup_found(e: Seq<(Seq<char>, u32)>, k: Seq<char>)
    requires
        seq_lookup(e, k) is Some,
    ensures
        exists|i: int| 0 <= i < e.len() && e[i].0 == k && e[i].1 == seq_lookup(e, k)->0,
    decreases e.len(),
{
    let p = e.drop_last();
    if seq_lookup(p, k) is Some {
        lemma_lookup_found(p, k);
        let i = choose|i: int| 0 <= i < p.len() && p[i].0 == k && p[i].1 == seq_lookup(p, k)->0;
        assert(e[i] == p[i]);
    } else {
        assert(e[e.len() - 1].0 == k);
    }
}

/// First-insertion-wins table from strings to `u32` values.
pub struct StrTable {
    keys: Vec<String>,
    vals: Vec<u32>,
    buckets: HashMap<u64, Vec<usize>>,
}

impl StrTable {
    /// The entries in insertion order.
    pub closed spec fn entries(&self) -> Seq<(Seq<char>, u32)> {
        Seq::new(self.keys.len() as nat, |i: int| (self.keys[i]@, self.vals[i]))
    }

    /// Internal consistency of keys, values and hash buckets.
    pub closed spec fn wf(&self) -> bool {
        &&& self.keys.len() == self.vals.len()
        &&& distinct_keys(self.entries())
        &&& forall|i: int| 0 <= i < self.keys.len() ==> {
            let h = str_hash(#[trigger] self.keys[i]@);
            &&& self.buckets@.contains_key(h)
            &&& self.buckets@[h]@.contains(i as usize)
        }
        &&& forall|h: u64, j: int| #![trigger self.buckets@[h]@[j]]
            self.buckets@.contains_key(h) && 0 <= j < self.buckets@[h]@.len() ==> {
                &&& self.buckets@[h]@[j] < self.keys.len()
                &&& str_hash(self.keys[self.buckets@[h]@[j] as int]@) == h
            }
    }

    /// A well-formed table never holds one key twice.
    pub proof fn lemma_distinct(&self)
        requires
            self.wf(),
        ensures
            distinct_keys(self.entries()),
    {
    }

    /// The value for `k`, if any.
    pub open spec fn spec_get(&self, k: Seq<char>) -> Option<u32> {
        seq_lookup(self.entries(), k)
    }

    /// An empty table.
    pub fn new() -> (t: StrTable)
        ensures
            t.wf(),
            t.entries() == Seq::<(Seq<char>, u32)>::empty(),
    {
        let t = StrTable { keys: Vec::new(), vals: Vec::new(), buckets: HashMap::new() };
        assert(t.entries() =~= Seq::<(Seq<char>, u32)>::empty());
        t
    }

    /// Number of distinct keys.
    pub fn len(&self) -> (n: usize)
        requires
            self.wf(),
        ensures
            n == self.entries().len(),
    {
        self.keys.len()
    }

    /// Key and value of entry `i`.
    pub fn entry(&self, i: usize) -> (r: (&String, u32))
        requires
            self.wf(),
            i < self.entries().len(),
        ensures
            r.0@ == self.entries()[i as int].0,
            r.1 == self.entries()[i as int].1,
    {
        (&self.keys[i], self.vals[i])
    }

    /// The value first inserted for `key`, if any.
    pub fn get(&self, key: &String) -> (r: Option<u32>)
        requires
            self.wf(),
        ensures
            r == self.spec_get(key@),
    {
        let h = hash_str(key.as_str());
        match self.buckets.get(&h) {
            None => {
                proof {
                    assert forall|i: int| 0 <= i < self.entries().len() implies self.entries()[i].0 != key@ by {
                        assert(self.keys[i]@ == self.entries()[i].0);
                    }
                    lemma_lookup_miss(self.entries(), key@);
                }
                None
            },
            Some(b) => {
                let mut t: usize = 0;
                while t < b.len()
                    invariant
                        self.wf(),
                        h == str_hash(key@),
                        self.buckets@.contains_key(h),
                        b@ == self.buckets@[h]@,
                        t <= b.len(),
                        forall|s: int| 0 <= s < t ==> self.keys[b@[s] as int]@ != key@,
                    decreases b.len() - t,
                {
                    let j = b[t];
                    assert(self.buckets@[h]@[t as int] == j);
                    if self.keys[j] == *key {
                        proof {
                            assert(self.entries()[j as int].0 == key@);
                            lemma_lookup_hit(self.entries(), j as int);
                        }
                        return Some(self.vals[j]);
                    }
                    t += 1;
                }
                proof {
                    assert forall|i: int| 0 <= i < self.entries().len() implies self.entries()[i].0 != key@ by {
                        if self.keys[i]@ == key@ {
                            assert(self.buckets@[h]@.contains(i as usize));
                            let s = choose|s: int| 0 <= s < b@.len() && b@[s] == i as usize;
                            assert(self.keys[b@[s] as int]@ != key@);
                        }
                    }
                    lemma_lookup_miss(self.entries(), key@);
                }
                None
            },
        }
    }

    /// Adds `key` with `val` unless `key` is already present.
    pub fn insert_if_absent(&mut self, key: &String, val: u32)
        requires
            old(self).wf(),
            old(self).entries().len() < usize::MAX,
        ensures
            final(self).wf(),
            final(self).entries() == insert_absent(old(self).entries(), key@, val),
    {
        if self.get(key).is_some() {
            return;
        }
        let ghost old_e = self.entries();
        proof {
            assert forall|i: int| 0 <= i < old_e.len() implies old_e[i].0 != key@ by {
                if old_e[i].0 == key@ {
                    lemma_lookup_hit(old_e, i);
                }
            }
        }
        let h = hash_str(key.as_str());
        let i = self.keys.len();
        self.keys.push(key.clone());
        self.vals.push(val);
        let ghost old_buckets = self.buckets@;
        match self.buckets.remove(&h) {
            Some(mut b) => {
                b.push(i);
                self.buckets.insert(h, b);
            },
            None => {
                let mut b: Vec<usize> = Vec::new();
                b.push(i);
                self.buckets.insert(h, b);
            },
        }
        proof {
            assert(self.entries() =~= old_e.push((key@, val)));
            assert forall|h2: u64, j: int| #![trigger self.buckets@[h2]@[j]]
                self.buckets@.contains_key(h2) && 0 <= j < self.buckets@[h2]@.len() implies {
                    &&& self.buckets@[h2]@[j] < self.keys.len()
                    &&& str_hash(self.keys[self.buckets@[h2]@[j] as int]@) == h2
                } by {
                if h2 != h {
                    assert(old_buckets.contains_key(h2));
                    assert(self.buckets@[h2] == old_buckets[h2]);
                } else if j < self.buckets@[h2]@.len() - 1 {
                    assert(old_buckets.contains_key(h2));
                    assert(self.buckets@[h2]@[j] == old_buckets[h2]@[j]);
                }
            }
            assert forall|k: int| 0 <= k < self.keys.len() implies {
                let hk = str_hash(#[trigger] self.keys[k]@);
                &&& self.buckets@.contains_key(hk)
                &&& self.buckets@[hk]@.contains(k as usize)
            } by {
                let hk = str_hash(self.keys[k]@);
                if k < i {
                    assert(old_buckets.contains_key(hk));
                    let s = choose|s: int| 0 <= s < old_buckets[hk]@.len() && old_buckets[hk]@[s] == k as usize;
                    if hk == h {
                        assert(self.buckets@[hk]@[s] == k as usize);
                    } else {
                        assert(self.buckets@[hk] == old_buckets[hk]);
                    }
                } else {
                    let n = self.buckets@[h]@.len() - 1;
                    assert(self.buckets@[h]@[n] == i);
                }
            }
        }
    }
}

/// FNV-1a of the characters of `s`.
pub fn hash_str(s: &str) -> (h: u64)
    ensures
        h == str_hash(s@),
{
    let mut h: u64 = 0xcbf2_9ce4_8422_2325u64;
    for c in it: s.chars()
        invariant
            it.seq() == s@,
            h == str_hash(it.seq().take(it.index() as int)),
    {
        let ghost pre = it.seq().take(it.index() as int);
        assert(it.seq().take(it.index() + 1).drop_last() == pre);
        h = (h ^ (c as u32 as u64)).wrapping_mul(0x0000_0100_0000_01b3u64);
    }
    assert(s@.take(s@.len() as int) == s@);
    h
}

} // verus!
