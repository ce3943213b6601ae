//! The persistent entries table: a byte-keyed key/value store.
//!
//! The host's storage engine is reached only through a narrow get/set
//! contract, so the table is modelled here as an association list with
//! distinct keys, viewed as a `Map` from key bytes to value bytes.

use vstd::prelude::*;
use vstd::pervasive::VecAdditionalExecFns;

verus! {

/// The map described by an association list; a later entry for the same key
/// would win, but well-formed stores keep their keys distinct.
pub open spec fn map_of(s: Seq<(Vec<u8>, Vec<u8>)>) -> Map<Seq<u8>, Seq<u8>>
    decreases s.len(),
{
    if s.len() == 0 {
        Map::empty()
    } else {
        map_of(s.drop_last()).insert(s.last().0@, s.last().1@)
    }
}

/// No two entries share a key.
pub open spec fn distinct_keys(s: Seq<(Vec<u8>, Vec<u8>)>) -> bool {
    forall|i: int, j: int| 0 <= i < j < s.len() ==> s[i].0@ != s[j].0@
}

proof fn lemma_map_of_contains(s: Seq<(Vec<u8>, Vec<u8>)>, k: Seq<u8>)
    ensures
        map_of(s).contains_key(k) <==> exists|i: int| 0 <= i < s.len() && s[i].0@ == k,
    decreases s.len(),
{
    if s.len() > 0 {
        lemma_map_of_contains(s.drop_last(), k);
        if map_of(s).contains_key(k) {
            if s.last().0@ == k {
                assert(s[s.len() - 1].0@ == k);
            } else {
                let i = choose|i: int| 0 <= i < s.drop_last().len() && s.drop_last()[i].0@ == k;
                assert(s[i].0@ == k);
            }
        }
        if exists|i: int| 0 <= i < s.len() && s[i].0@ == k {
            let i = choose|i: int| 0 <= i < s.len() && s[i].0@ == k;
            if i < s.len() - 1 {
                assert(s.drop_last()[i].0@ == k);
            }
        }
    }
}

proof fn lemma_map_of_index(s: Seq<(Vec<u8>, Vec<u8>)>, i: int)
    requires
        distinct_keys(s),
        0 <= i < s.len(),
    ensures
        map_of(s).contains_key(s[i].0@),
        map_of(s)[s[i].0@] == s[i].1@,
    decreases s.len(),
{
    lemma_map_of_contains(s, s[i].0@);
    if i < s.len() - 1 {
        assert(s.last().0@ != s[i].0@);
        assert(s.drop_last()[i] == s[i]);
        lemma_map_of_index(s.drop_last(), i);
    }
}

/// The entries table.
pub struct Store {
    entries: Vec<(Vec<u8>, Vec<u8>)>,
}

impl View for Store {
    type V = Map<Seq<u8>, Seq<u8>>;

    closed spec fn view(&self) -> Map<Seq<u8>, Seq<u8>> {
        map_of(self.entries@)
    }
}

impl Store {
    /// The store keeps its keys distinct.
    pub closed spec fn wf(&self) -> bool {
        distinct_keys(self.entries@)
    }

    /// A fresh, empty table.
    pub fn new() -> (r: Store)
        ensures
            r.wf(),
            r@ == Map::<Seq<u8>, Seq<u8>>::empty(),
    {
        Store { entries: Vec::new() }
    }

    /// Read the value stored under `key`, if any.
    pub fn get(&self, key: &Vec<u8>) -> (r: Option<Vec<u8>>)
        requires
            self.wf(),
        ensures
            match r {
                Some(v) => self@.contains_key(key@) && v@ == self@[key@],
                None => !self@.contains_key(key@),
            },
    {
        let n = self.entries.len();
        let mut i: usize = 0;
        while i < n
            invariant
                self.wf(),
                n == self.entries.len(),
                i <= n,
                forall|j: int| 0 <= j < i ==> self.entries@[j].0@ != key@,
            decreases n - i,
        {
            if bytes_match(&self.entries[i].0, key) {
                let out = clone_bytes(&self.entries[i].1);
                proof {
                    lemma_map_of_index(self.entries@, i as int);
                }
                return Some(out);
            }
            i = i + 1;
        }
        proof {
            lemma_map_of_contains(self.entries@, key@);
        }
        None
    }

    /// Store `value` under `key`, replacing any earlier value.
    pub fn set(&mut self, key: Vec<u8>, value: Vec<u8>)
        requires
            old(self).wf(),
        ensures
            final(self).wf(),
            final(self)@ == old(self)@.insert(key@, value@),
    {
        let n = self.entries.len();
        let mut i: usize = 0;
        while i < n
            invariant
                self.wf(),
                self == old(self),
                n == self.entries.len(),
                i <= n,
                forall|j: int| 0 <= j < i ==> self.entries@[j].0@ != key@,
            decreases n - i,
        {
            if bytes_match(&self.entries[i].0, &key) {
                let ghost s0 = self.entries@;
                self.entries.set(i, (key, value));
                proof {
                    lemma_set_existing(s0, i as int, self.entries@[i as int]);
                }
                return;
            }
            i = i + 1;
        }
        proof {
            lemma_map_of_contains(self.entries@, key@);
            assert(self.entries@.push((key, value)).drop_last() =~= self.entries@);
            assert(distinct_keys(self.entries@.push((key, value)))) by {
                let p = self.entries@.push((key, value));
                assert forall|a: int, b: int| 0 <= a < b < p.len() implies p[a].0@ != p[b].0@ by {
                    if b < p.len() - 1 {
                        assert(p[a] == self.entries@[a] && p[b] == self.entries@[b]);
                    } else {
                        assert(p[a] == self.entries@[a]);
                    }
                }
            }
        }
        self.entries.push((key, value));
    }
}

proof fn lemma_set_existing(s: Seq<(Vec<u8>, Vec<u8>)>, i: int, kv: (Vec<u8>, Vec<u8>))
    requires
        distinct_keys(s),
        0 <= i < s.len(),
        s[i].0@ == kv.0@,
    ensures
        distinct_keys(s.update(i, kv)),
        map_of(s.update(i, kv)) == map_of(s).insert(kv.0@, kv.1@),
    decreases s.len(),
{
    let k = kv.0@;
    let v = kv.1@;
    let t = s.update(i, kv);
    assert(distinct_keys(t)) by {
        assert forall|a: int, b: int| 0 <= a < b < t.len() implies t[a].0@ != t[b].0@ by {
            assert(s[a].0@ != s[b].0@);
        }
    }
    if i == s.len() - 1 {
        assert(t.drop_last() =~= s.drop_last());
        assert(map_of(t) == map_of(s.drop_last()).insert(k, v));
        assert(map_of(s).insert(k, v) =~= map_of(s.drop_last()).insert(k, v));
    } else {
        assert(t.drop_last() =~= s.drop_last().update(i, kv));
        lemma_set_existing(s.drop_last(), i, kv);
        assert(map_of(t) == map_of(s.drop_last()).insert(k, v).insert(s.last().0@, s.last().1@));
        assert(s.last().0@ != k);
        assert(map_of(s.drop_last()).insert(k, v).insert(s.last().0@, s.last().1@)
            =~= map_of(s.drop_last()).insert(s.last().0@, s.last().1@).insert(k, v));
        assert(map_of(s).insert(k, v) == map_of(s.drop_last()).insert(s.last().0@, s.last().1@)
            .insert(k, v));
    }
}

/// Compare an entry key with a lookup key.
fn bytes_match(a: &Vec<u8>, b: &Vec<u8>) -> (r: bool)
    ensures
        r == (a@ == b@),
{
    crate::field::bytes_eq(a, b)
}

/// Copy a stored value out of the table.
fn clone_bytes(v: &Vec<u8>) -> (r: Vec<u8>)
    ensures
        r@ == v@,
{
    let r = crate::field::copy_range(v, 0, v.len());
    proof {
        assert(v@.subrange(0, v@.len() as int) =~= v@);
    }
    r
}

} // verus!
