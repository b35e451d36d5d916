//! ID-keyed maps for persisted documents.
//!
//! A persisted document addresses every entity by a dense, non-negative
//! integer ID. `IdMap` is the map type those documents use: a sequence of
//! key-value entries with unique keys, kept in insertion order (which, for
//! documents built by the save path, is ascending ID order).

use vstd::prelude::*;

verus! {

/// A map from persisted IDs to entries, kept in insertion order.
pub struct IdMap<T> {
    entries: Vec<(u32, T)>,
}

impl<T> View for IdMap<T> {
    type V = Seq<(u32, T)>;

    closed spec fn view(&self) -> Seq<(u32, T)> {
        self.entries@
    }
}

/// Whether an entry sequence holds each key at most once.
pub open spec fn unique_keys<T>(s: Seq<(u32, T)>) -> bool {
    forall|i: int, j: int|
        0 <= i < s.len() && 0 <= j < s.len() && i != j ==> s[i].0 != s[j].0
}

/// Whether an entry sequence holds the key `k`.
pub open spec fn has_key<T>(s: Seq<(u32, T)>, k: u32) -> bool {
    exists|i: int| 0 <= i < s.len() && s[i].0 == k
}

/// The value stored under key `k`, if any.
pub open spec fn get_of<T>(s: Seq<(u32, T)>, k: u32) -> Option<T>
    decreases s.len(),
{
    if s.len() == 0 {
        None
    } else if s[0].0 == k {
        Some(s[0].1)
    } else {
        get_of(s.drop_first(), k)
    }
}

/// `get_of` returns a value exactly when the key is present, and that value
/// stands in the entry sequence.
pub proof fn lemma_get_of_has_key<T>(s: Seq<(u32, T)>, k: u32)
    ensures
        get_of(s, k) is Some <==> has_key(s, k),
        get_of(s, k) matches Some(v) ==> exists|i: int|
            0 <= i < s.len() && s[i].0 == k && s[i].1 == v,
    decreases s.len(),
{
    if s.len() > 0 {
        if s[0].0 == k {
        } else {
            lemma_get_of_has_key(s.drop_first(), k);
            if has_key(s.drop_first(), k) {
                let i = choose|i: int| 0 <= i < s.drop_first().len() && s.drop_first()[i].0 == k;
                assert(s[i + 1].0 == k);
            }
            if has_key(s, k) {
                let i = choose|i: int| 0 <= i < s.len() && s[i].0 == k;
                assert(s.drop_first()[i - 1].0 == k);
            }
        }
    }
}

impl<T> IdMap<T> {
    /// An empty map.
    pub fn new() -> (r: Self)
        ensures
            r@ == Seq::<(u32, T)>::empty(),
    {
        IdMap { entries: Vec::new() }
    }

    pub fn len(&self) -> (r: usize)
        ensures
            r == self@.len(),
    {
        self.entries.len()
    }

    /// Insert an entry under a key not yet present.
    pub fn insert(&mut self, key: u32, value: T)
        requires
            !has_key(old(self)@, key),
        ensures
            final(self)@ == old(self)@.push((key, value)),
    {
        self.entries.push((key, value));
    }

    /// Whether the map holds the key.
    pub fn contains_key(&self, key: u32) -> (r: bool)
        ensures
            r == has_key(self@, key),
    {
        let mut i: usize = 0;
        while i < self.entries.len()
            invariant
                0 <= i <= self@.len(),
                forall|j: int| 0 <= j < i ==> self@[j].0 != key,
            decreases self@.len() - i,
        {
            if self.entries[i].0 == key {
                return true;
            }
            i += 1;
        }
        false
    }

    /// Look a key up; `None` when it is absent.
    pub fn get(&self, key: u32) -> (r: Option<&T>)
        ensures
            match r {
                Some(v) => get_of(self@, key) == Some(*v),
                None => get_of(self@, key) is None,
            },
    {
        let mut i: usize = 0;
        proof {
            assert(self@.skip(0) =~= self@);
        }
        while i < self.entries.len()
            invariant
                0 <= i <= self@.len(),
                get_of(self@, key) == get_of(self@.skip(i as int), key),
            decreases self@.len() - i,
        {
            proof {
                assert(self@.skip(i as int)[0] == self@[i as int]);
                assert(self@.skip(i as int).drop_first() =~= self@.skip(i + 1));
            }
            if self.entries[i].0 == key {
                return Some(&self.entries[i].1);
            }
            i += 1;
        }
        proof {
            assert(self@.skip(self@.len() as int) =~= Seq::<(u32, T)>::empty());
        }
        None
    }

    /// The entries, in insertion order.
    pub fn entries(&self) -> (r: &Vec<(u32, T)>)
        ensures
            r@ == self@,
    {
        &self.entries
    }
}

} // verus!
