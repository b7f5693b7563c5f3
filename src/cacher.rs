use std::collections::hash_map::RandomState;
use std::collections::HashMap;
use std::hash::Hash;
use vstd::prelude::*;
use vstd::std_specs::hash::{builds_valid_hashers, obeys_key_model};

verus! {

broadcast use vstd::std_specs::hash::group_hash_axioms;

/// Memoizes a calculation: each argument is computed at most once, and later
/// requests for it are answered from the cache.
#[verifier::reject_recursive_types(T)]
#[verifier::reject_recursive_types(V)]
#[verifier::reject_recursive_types(Y)]
pub struct Cacher<T, V, Y> where T: Fn(V) -> Y, V: Eq + Copy + Hash, Y: Eq + Copy {
    calculation: T,
    value: HashMap<V, Y>,
}

impl<T, V, Y> Cacher<T, V, Y> where T: Fn(V) -> Y, V: Eq + Copy + Hash, Y: Eq + Copy {
    /// The calculation being memoized.
    pub closed spec fn calculation(&self) -> T {
        self.calculation
    }

    /// The results computed so far, by argument.
    pub closed spec fn cache(&self) -> Map<V, Y> {
        self.value@
    }

    /// Every cached result is one the calculation can give for its argument.
    pub open spec fn wf(&self) -> bool {
        forall|k: V| #[trigger]
            self.cache().contains_key(k) ==> call_ensures(self.calculation(), (k,), self.cache()[k])
    }

    /// A cacher for `calculation` with nothing computed yet.
    pub fn new(calculation: T) -> (r: Cacher<T, V, Y>)
        ensures
            r.calculation() == calculation,
            r.cache() == Map::<V, Y>::empty(),
            r.wf(),
    {
        Cacher { calculation, value: HashMap::new() }
    }

    /// The calculation's result for `arg`: the cached one if `arg` was asked
    /// for before, else a fresh one, which is then cached.
    pub fn value(&mut self, arg: V) -> (r: Y)
        requires
            old(self).wf(),
            call_requires(old(self).calculation(), (arg,)),
            obeys_key_model::<V>(),
            builds_valid_hashers::<RandomState>(),
        ensures
            final(self).wf(),
            final(self).calculation() == old(self).calculation(),
            call_ensures(old(self).calculation(), (arg,), r),
            old(self).cache().contains_key(arg) ==> {
                &&& r == old(self).cache()[arg]
                &&& final(self).cache() == old(self).cache()
            },
            !old(self).cache().contains_key(arg) ==> final(self).cache() == old(self).cache().insert(
                arg,
                r,
            ),
    {
        match self.value.get(&arg) {
            Some(v) => {
                assert(self.cache().contains_key(arg) && self.cache()[arg] == *v);
                *v
            },
            None => {
                let ghost m0 = self.cache();
                let v: Y = (self.calculation)(arg);
                self.value.insert(arg, v);
                assert forall|k: V| #[trigger]
                    self.cache().contains_key(k) implies call_ensures(self.calculation(), (k,), self.cache()[k]) by {
                    if k != arg {
                        assert(m0.contains_key(k));
                    }
                }
                v
            },
        }
    }
}

} // verus!
