//! Tallying how often each distinct item occurs in a collection.

use std::collections::HashMap;
use std::hash::Hash;

use vstd::prelude::*;
use vstd::std_specs::hash::obeys_key_model;

verus! {

broadcast use
    vstd::std_specs::hash::group_hash_axioms,
    vstd::seq_lib::group_to_multiset_ensures,
    vstd::multiset::group_multiset_axioms,
;

/// The per-item tallies of a sequence: each item that occurs at all maps to
/// how often it occurs.
pub open spec fn tally_of<T>(s: Seq<T>) -> Map<T, u64> {
    Map::new(|x: T| s.to_multiset().count(x) > 0, |x: T| s.to_multiset().count(x) as u64)
}

/// Appending one item raises its tally by one and leaves every other tally
/// unchanged.
pub proof fn lemma_tally_push<T>(s: Seq<T>, x: T)
    requires
        s.to_multiset().count(x) < u64::MAX,
    ensures
        tally_of(s.push(x)) == tally_of(s).insert(x, (s.to_multiset().count(x) + 1) as u64),
{
    assert(s.push(x).to_multiset() =~= s.to_multiset().insert(x));
    assert(tally_of(s.push(x)) =~= tally_of(s).insert(x, (s.to_multiset().count(x) + 1) as u64));
}

/// A tally in a sequence never exceeds the sequence's length.
pub proof fn lemma_tally_le_len<T>(s: Seq<T>, x: T)
    ensures
        s.to_multiset().count(x) <= s.len(),
{
    s.to_multiset_ensures();
}

/// Counting each distinct item of a collection.
///
/// The hash-map contracts hold when the key type hashes deterministically,
/// which `vstd` expresses as `obeys_key_model`; for other key types the
/// functions still run but promise only what the standard library does.
pub trait EachCount<T: Eq + Hash>: Sized {
    /// The items the collection holds, in order.
    spec fn items(self) -> Seq<T>;

    /// A tally of each distinct item that exists.
    fn each_count(self) -> (counts: HashMap<T, u64>)
        ensures
            obeys_key_model::<T>() ==> counts@ == tally_of(self.items()),
    ;

    /// A tally of each distinct key the selector derives from the items;
    /// essentially map followed by `each_count`.
    fn each_count_by<K: Eq + Hash, F: Fn(T) -> K>(self, selector: F) -> (counts: HashMap<K, u64>)
        requires
            forall|i: int|
                0 <= i < self.items().len() ==> call_requires(selector, (self.items()[i],)),
        ensures
            exists|keys: Seq<K>|
                {
                    &&& keys.len() == self.items().len()
                    &&& (forall|i: int|
                        0 <= i < keys.len() ==> call_ensures(
                            selector,
                            (self.items()[i],),
                            #[trigger] keys[i],
                        ))
                    &&& (obeys_key_model::<K>() ==> counts@ == tally_of(keys))
                },
    ;
}

impl<T: Eq + Hash> EachCount<T> for Vec<T> {
    open spec fn items(self) -> Seq<T> {
        self@
    }

    fn each_count(self) -> (counts: HashMap<T, u64>) {
        let ghost all = self@;
        let mut rest = self;
        // pins all.len() within usize, which bounds every tally below
        let _total: usize = rest.len();
        let mut counts: HashMap<T, u64> = HashMap::new();
        let ghost mut done: Seq<T> = Seq::empty();
        loop
            invariant
                all =~= done + rest@,
                done.len() + rest@.len() == all.len(),
                all.len() <= usize::MAX,
                obeys_key_model::<T>() ==> counts@ == tally_of(done),
            ensures
                obeys_key_model::<T>() ==> counts@ == tally_of(all),
            decreases rest@.len(),
        {
            if rest.len() == 0 {
                proof {
                    assert(done =~= all);
                }
                break;
            }
            let ghost before = rest@;
            let x = rest.remove(0);
            let current: u64 = match counts.get(&x) {
                Some(c) => *c,
                None => 0,
            };
            let next_count: u64 = if current < u64::MAX {
                current + 1
            } else {
                u64::MAX
            };
            proof {
                if obeys_key_model::<T>() {
                    lemma_tally_le_len(done, x);
                    assert(done.to_multiset().count(x) <= done.len() < all.len() <= usize::MAX);
                    assert(current == done.to_multiset().count(x));
                    lemma_tally_push(done, x);
                }
            }
            counts.insert(x, next_count);
            proof {
                assert(before.drop_first() =~= rest@);
                assert(done + before =~= done.push(before[0]) + rest@);
                done = done.push(before[0]);
            }
        }
        counts
    }

    fn each_count_by<K: Eq + Hash, F: Fn(T) -> K>(self, selector: F) -> (counts: HashMap<K, u64>) {
        let ghost all = self.items();
        proof {
            assert forall|i: int| 0 <= i < all.len() implies call_requires(
                selector,
                (all[i],),
            ) by {
                assert(all[i] == self.items()[i]);
            }
        }
        let mut rest = self;
        let mut keys: Vec<K> = Vec::new();
        loop
            invariant
                all =~= all.take(keys@.len() as int) + rest@,
                keys@.len() + rest@.len() == all.len(),
                forall|i: int| 0 <= i < all.len() ==> call_requires(selector, (all[i],)),
                forall|i: int|
                    0 <= i < keys@.len() ==> call_ensures(selector, (all[i],), #[trigger] keys@[i]),
            ensures
                keys@.len() == all.len(),
                forall|i: int|
                    0 <= i < keys@.len() ==> call_ensures(selector, (all[i],), #[trigger] keys@[i]),
            decreases rest@.len(),
        {
            if rest.len() == 0 {
                break;
            }
            let ghost before = rest@;
            let ghost m = keys@.len() as int;
            let x = rest.remove(0);
            proof {
                assert(all.take(m) + before =~= all);
                assert(before[0] == all[m]);
            }
            let k = selector(x);
            keys.push(k);
            proof {
                assert(before.drop_first() =~= rest@);
                assert(all.take(m + 1) =~= all.take(m) + seq![all[m]]);
                assert(all =~= all.take(m + 1) + rest@);
            }
        }
        let counts = keys.each_count();
        proof {
            let ks = keys@;
            assert(ks.len() == all.len() && (forall|i: int|
                0 <= i < ks.len() ==> call_ensures(selector, (all[i],), #[trigger] ks[i])) && (
            obeys_key_model::<K>() ==> counts@ == tally_of(ks)));
        }
        counts
    }
}

} // verus!
