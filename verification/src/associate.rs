//! Building a hash map by associating the items of a collection with keys
//! or values.

use std::collections::HashMap;
use std::hash::Hash;

use vstd::prelude::*;
use vstd::std_specs::hash::obeys_key_model;

verus! {

broadcast use vstd::std_specs::hash::group_hash_axioms;

/// The map that inserting the pairs in order builds: a key that occurs in
/// more than one pair keeps the value of its last one.
pub open spec fn assoc_of<K, V>(pairs: Seq<(K, V)>) -> Map<K, V>
    decreases pairs.len(),
{
    if pairs.len() == 0 {
        Map::empty()
    } else {
        assoc_of(pairs.drop_last()).insert(pairs.last().0, pairs.last().1)
    }
}

/// Turning a collection into a hash map, one entry per item.
///
/// The hash-map contracts hold when the key type hashes deterministically,
/// which `vstd` expresses as `obeys_key_model`; for other key types the
/// functions still run but promise only what the standard library does.
pub trait MapUtils<T: Eq + Hash + Clone>: Sized {
    /// The items the collection holds, in order.
    spec fn items(self) -> Seq<T>;

    /// Builds a map from the key-value pair the transform derives from each
    /// item.
    fn associate_to_map<K: Eq + Hash, V, F: Fn(T) -> (K, V)>(self, transform: F) -> (result:
        HashMap<K, V>)
        requires
            forall|i: int|
                0 <= i < self.items().len() ==> call_requires(transform, (self.items()[i],)),
        ensures
            exists|pairs: Seq<(K, V)>|
                {
                    &&& pairs.len() == self.items().len()
                    &&& (forall|i: int|
                        0 <= i < pairs.len() ==> call_ensures(
                            transform,
                            (self.items()[i],),
                            #[trigger] pairs[i],
                        ))
                    &&& (obeys_key_model::<K>() ==> result@ == assoc_of(pairs))
                },
    ;

    /// Builds a map keyed by a copy of each item, holding the value the
    /// transform derives from it.
    fn associate_with_to_map<B, F: Fn(T) -> B>(self, transform: F) -> (result: HashMap<T, B>)
        requires
            forall|i: int|
                0 <= i < self.items().len() ==> call_requires(transform, (self.items()[i],)),
        ensures
            exists|pairs: Seq<(T, B)>|
                {
                    &&& pairs.len() == self.items().len()
                    &&& (forall|i: int|
                        #![trigger pairs[i]]
                        0 <= i < pairs.len() ==> cloned::<T>(self.items()[i], pairs[i].0)
                            && call_ensures(transform, (self.items()[i],), pairs[i].1))
                    &&& (obeys_key_model::<T>() ==> result@ == assoc_of(pairs))
                },
    ;
}

impl<T: Eq + Hash + Clone> MapUtils<T> for Vec<T> {
    open spec fn items(self) -> Seq<T> {
        self@
    }

    fn associate_to_map<K: Eq + Hash, V, F: Fn(T) -> (K, V)>(self, transform: F) -> (result:
        HashMap<K, V>) {
        let ghost all = self.items();
        proof {
            assert forall|i: int| 0 <= i < all.len() implies call_requires(
                transform,
                (all[i],),
            ) by {
                assert(all[i] == self.items()[i]);
            }
        }
        let mut rest = self;
        let mut result: HashMap<K, V> = HashMap::new();
        let ghost mut pairs: Seq<(K, V)> = Seq::empty();
        loop
            invariant
                all =~= all.take(pairs.len() as int) + rest@,
                pairs.len() + rest@.len() == all.len(),
                forall|i: int| 0 <= i < all.len() ==> call_requires(transform, (all[i],)),
                forall|i: int|
                    0 <= i < pairs.len() ==> call_ensures(transform, (all[i],), #[trigger] pairs[i]),
                obeys_key_model::<K>() ==> result@ == assoc_of(pairs),
            ensures
                pairs.len() == all.len(),
                forall|i: int|
                    0 <= i < pairs.len() ==> call_ensures(transform, (all[i],), #[trigger] pairs[i]),
                obeys_key_model::<K>() ==> result@ == assoc_of(pairs),
            decreases rest@.len(),
        {
            if rest.len() == 0 {
                break;
            }
            let ghost before = rest@;
            let ghost m = pairs.len() as int;
            let x = rest.remove(0);
            proof {
                assert(all.take(m) + before =~= all);
                assert(before[0] == all[m]);
            }
            let pair = transform(x);
            proof {
                let prev = pairs;
                pairs = pairs.push(pair);
                assert(pairs.drop_last() =~= prev);
                assert(pairs.last() == pair);
            }
            result.insert(pair.0, pair.1);
            proof {
                assert(before.drop_first() =~= rest@);
                assert(all.take(m + 1) =~= all.take(m) + seq![all[m]]);
                assert(all =~= all.take(m + 1) + rest@);
            }
        }
        proof {
            let ps = pairs;
            assert(ps.len() == all.len() && (forall|i: int|
                0 <= i < ps.len() ==> call_ensures(transform, (all[i],), #[trigger] ps[i])) && (
            obeys_key_model::<K>() ==> result@ == assoc_of(ps)));
        }
        result
    }

    fn associate_with_to_map<B, F: Fn(T) -> B>(self, transform: F) -> (result: HashMap<T, B>) {
        let ghost all = self.items();
        proof {
            assert forall|i: int| 0 <= i < all.len() implies call_requires(
                transform,
                (all[i],),
            ) by {
                assert(all[i] == self.items()[i]);
            }
        }
        let mut rest = self;
        let mut result: HashMap<T, B> = HashMap::new();
        let ghost mut pairs: Seq<(T, B)> = Seq::empty();
        loop
            invariant
                all =~= all.take(pairs.len() as int) + rest@,
                pairs.len() + rest@.len() == all.len(),
                forall|i: int| 0 <= i < all.len() ==> call_requires(transform, (all[i],)),
                forall|i: int|
                    #![trigger pairs[i]]
                    0 <= i < pairs.len() ==> cloned::<T>(all[i], pairs[i].0) && call_ensures(
                        transform,
                        (all[i],),
                        pairs[i].1,
                    ),
                obeys_key_model::<T>() ==> result@ == assoc_of(pairs),
            ensures
                pairs.len() == all.len(),
                forall|i: int|
                    #![trigger pairs[i]]
                    0 <= i < pairs.len() ==> cloned::<T>(all[i], pairs[i].0) && call_ensures(
                        transform,
                        (all[i],),
                        pairs[i].1,
                    ),
                obeys_key_model::<T>() ==> result@ == assoc_of(pairs),
            decreases rest@.len(),
        {
            if rest.len() == 0 {
                break;
            }
            let ghost before = rest@;
            let ghost m = pairs.len() as int;
            let x = rest.remove(0);
            proof {
                assert(all.take(m) + before =~= all);
                assert(before[0] == all[m]);
            }
            let key = x.clone();
            let value = transform(x);
            proof {
                let prev = pairs;
                pairs = pairs.push((key, value));
                assert(pairs.drop_last() =~= prev);
                assert(pairs.last() == (key, value));
            }
            result.insert(key, value);
            proof {
                assert(before.drop_first() =~= rest@);
                assert(all.take(m + 1) =~= all.take(m) + seq![all[m]]);
                assert(all =~= all.take(m + 1) + rest@);
            }
        }
        proof {
            let ps = pairs;
            assert(ps.len() == all.len() && (forall|i: int|
                #![trigger ps[i]]
                0 <= i < ps.len() ==> cloned::<T>(all[i], ps[i].0) && call_ensures(
                    transform,
                    (all[i],),
                    ps[i].1,
                )) && (obeys_key_model::<T>() ==> result@ == assoc_of(ps)));
        }
        result
    }
}

} // verus!
