//! The key-value store behind `get` and `set`.

use vstd::prelude::*;
use crate::bytes::{bytes_equal, copy_bytes};
use crate::memcached::types::{Key, opt_bytes_view};

verus! {

/// A map from keys to the bytes stored under them; each key occurs at most once.
pub struct Store {
    values: Vec<(Key, Vec<u8>)>,
}

/// What a `get` of `k` answers on a store holding `m`.
pub open spec fn store_get(m: Map<Seq<u8>, Seq<u8>>, k: Seq<u8>) -> Option<Seq<u8>> {
    if m.contains_key(k) {
        Some(m[k])
    } else {
        None
    }
}

/// What a store holding `m` holds after a `set` of `k` to `v`.
pub open spec fn store_set(m: Map<Seq<u8>, Seq<u8>>, k: Seq<u8>, v: Seq<u8>) -> Map<Seq<u8>, Seq<u8>> {
    m.insert(k, v)
}

impl Store {
    spec fn holds_key_at(self, k: Seq<u8>, i: int) -> bool {
        0 <= i < self.values@.len() && self.values@[i].0@ == k
    }

    #[verifier::type_invariant]
    spec fn keys_distinct(self) -> bool {
        forall|i: int, j: int|
            0 <= i < self.values@.len() && 0 <= j < self.values@.len() && i != j
                ==> #[trigger] self.values@[i].0@ != #[trigger] self.values@[j].0@
    }
}

impl View for Store {
    type V = Map<Seq<u8>, Seq<u8>>;

    closed spec fn view(&self) -> Map<Seq<u8>, Seq<u8>> {
        Map::new(
            |k: Seq<u8>| exists|i: int| self.holds_key_at(k, i),
            |k: Seq<u8>| self.values@[choose|i: int| self.holds_key_at(k, i)].1@,
        )
    }
}

impl Store {
    proof fn lemma_entry_in_view(self, i: int)
        requires
            self.keys_distinct(),
            0 <= i < self.values@.len(),
        ensures
            self@.contains_key(self.values@[i].0@),
            self@[self.values@[i].0@] == self.values@[i].1@,
    {
        let k = self.values@[i].0@;
        assert(self.holds_key_at(k, i));
        let j = choose|j: int| self.holds_key_at(k, j);
        assert(self.holds_key_at(k, j));
    }

    /// The index of the entry for `key`, if there is one.
    fn find(&self, key: &Key) -> (r: Option<usize>)
        ensures
            match r {
                Some(i) => self.holds_key_at(key@, i as int),
                None => forall|i: int| !self.holds_key_at(key@, i),
            },
    {
        let mut i: usize = 0;
        while i < self.values.len()
            invariant
                i <= self.values@.len(),
                forall|j: int| 0 <= j < i ==> !self.holds_key_at(key@, j),
            decreases self.values.len() - i,
        {
            if bytes_equal(self.values[i].0.0.as_slice(), key.0.as_slice()) {
                return Some(i);
            }
            i = i + 1;
        }
        None
    }

    /// An empty store.
    pub fn new() -> (r: Self)
        ensures
            r@ == Map::<Seq<u8>, Seq<u8>>::empty(),
    {
        let r = Store { values: Vec::new() };
        assert(r@ =~= Map::<Seq<u8>, Seq<u8>>::empty());
        r
    }

    /// A copy of the bytes stored under `key`, if any.
    pub fn get(&self, key: &Key) -> (r: Option<Vec<u8>>)
        ensures
            opt_bytes_view(r) == store_get(self@, key@),
    {
        proof {
            use_type_invariant(self);
        }
        match self.find(key) {
            Some(i) => {
                proof {
                    self.lemma_entry_in_view(i as int);
                }
                Some(copy_bytes(self.values[i].1.as_slice()))
            },
            None => {
                assert(!self@.contains_key(key@));
                None
            },
        }
    }

    /// Stores `value` under `key`, replacing what was there.
    pub fn set(&mut self, key: Key, value: Vec<u8>)
        ensures
            final(self)@ == store_set(old(self)@, key@, value@),
    {
        proof {
            use_type_invariant(&*self);
        }
        let ghost k = key@;
        let ghost v = value@;
        let ghost before = *self;
        let found = self.find(&key);
        let mut values: Vec<(Key, Vec<u8>)> = Vec::new();
        std::mem::swap(&mut values, &mut self.values);
        match found {
            Some(i) => {
                values.set(i, (key, value));
            },
            None => {
                values.push((key, value));
            },
        }
        let ghost after = Store { values };
        let ghost idx: int = match found {
            Some(i) => i as int,
            None => before.values@.len() as int,
        };
        assert(after.holds_key_at(k, idx));
        assert(after.values@[idx].1@ == v);
        assert forall|j: int| 0 <= j < after.values@.len() && j != idx implies
            #[trigger] after.values@[j] == before.values@[j] by {}
        assert(after.keys_distinct()) by {
            assert forall|a: int, b: int|
                0 <= a < after.values@.len() && 0 <= b < after.values@.len() && a != b
                implies #[trigger] after.values@[a].0@ != #[trigger] after.values@[b].0@ by {
                if a == idx {
                    assert(!before.holds_key_at(k, b) || found is Some);
                } else if b == idx {
                    assert(!before.holds_key_at(k, a) || found is Some);
                }
            }
        }
        assert forall|kk: Seq<u8>| #[trigger] after@.contains_key(kk) == store_set(before@, k, v).contains_key(kk) by {
            if kk != k {
                if after@.contains_key(kk) {
                    let j = choose|j: int| after.holds_key_at(kk, j);
                    assert(before.holds_key_at(kk, j));
                }
                if before@.contains_key(kk) {
                    let j = choose|j: int| before.holds_key_at(kk, j);
                    assert(after.holds_key_at(kk, j));
                }
            }
        }
        assert forall|kk: Seq<u8>| #[trigger] after@.contains_key(kk) implies after@[kk] == store_set(before@, k, v)[kk] by {
            let j = choose|j: int| after.holds_key_at(kk, j);
            after.lemma_entry_in_view(j);
            if kk != k {
                assert(before.holds_key_at(kk, j));
                before.lemma_entry_in_view(j);
            } else {
                assert(j == idx);
            }
        }
        assert(after@ =~= store_set(before@, k, v));
        self.values = values;
    }
}

/// A `get` answers what the last `set` of the same key stored, and a `set` leaves what
/// every other key answers unchanged.
pub proof fn law_get_after_set(m: Map<Seq<u8>, Seq<u8>>, k: Seq<u8>, v: Seq<u8>, other: Seq<u8>)
    ensures
        store_get(store_set(m, k, v), k) == Some(v),
        other != k ==> store_get(store_set(m, k, v), other) == store_get(m, other),
{
}

/// A later `set` of a key overrides an earlier one.
pub proof fn law_set_overrides(m: Map<Seq<u8>, Seq<u8>>, k: Seq<u8>, v1: Seq<u8>, v2: Seq<u8>)
    ensures
        store_set(store_set(m, k, v1), k, v2) == store_set(m, k, v2),
{
    assert(store_set(store_set(m, k, v1), k, v2) =~= store_set(m, k, v2));
}

/// A new store answers nothing to every key.
pub proof fn law_new_store_is_empty(k: Seq<u8>)
    ensures
        store_get(Map::<Seq<u8>, Seq<u8>>::empty(), k) is None,
{
}

/// A store holding `m` after the `set`s of `writes`, in order.
pub open spec fn store_set_all(m: Map<Seq<u8>, Seq<u8>>, writes: Seq<(Seq<u8>, Seq<u8>)>) -> Map<
    Seq<u8>,
    Seq<u8>,
>
    decreases writes.len(),
{
    if writes.len() == 0 {
        m
    } else {
        store_set(store_set_all(m, writes.drop_last()), writes.last().0, writes.last().1)
    }
}

/// After a `set` of a key, a `get` of it answers what was set, however many `set`s of
/// other keys come in between.
pub proof fn law_get_after_set_and_other_sets(
    m: Map<Seq<u8>, Seq<u8>>,
    k: Seq<u8>,
    v: Seq<u8>,
    later: Seq<(Seq<u8>, Seq<u8>)>,
)
    requires
        forall|i: int| 0 <= i < later.len() ==> (#[trigger] later[i]).0 != k,
    ensures
        store_get(store_set_all(store_set(m, k, v), later), k) == Some(v),
    decreases later.len(),
{
    if later.len() > 0 {
        let earlier = later.drop_last();
        assert forall|i: int| 0 <= i < earlier.len() implies (#[trigger] earlier[i]).0 != k by {
            assert(earlier[i] == later[i]);
        }
        law_get_after_set_and_other_sets(m, k, v, earlier);
        assert(later.last().0 != k);
    }
}

} // verus!
