//! A cache keyed by argument: it remembers one result of its callable for
//! every argument it has been asked about.

use std::collections::HashMap;
use std::hash::Hash;
use vstd::prelude::*;
use vstd::std_specs::hash::obeys_key_model;

verus! {

/// The record of applications of the callable after one more lookup of `arg`:
/// only a lookup of an argument that is not on record applies the callable.
pub open spec fn record_call<U>(calls: Seq<U>, arg: U) -> Seq<U> {
    if calls.contains(arg) {
        calls
    } else {
        calls.push(arg)
    }
}

/// The record of applications of the callable after the lookups `args`, made
/// in order on a cache whose record was `calls`.
pub open spec fn record_calls<U>(calls: Seq<U>, args: Seq<U>) -> Seq<U>
    decreases args.len(),
{
    if args.len() == 0 {
        calls
    } else {
        record_call(record_calls(calls, args.drop_last()), args.last())
    }
}

/// Caches one result of `calculation` per argument.
///
/// A lookup of a new argument applies the callable and stores the result
/// under that argument; a lookup of a known argument returns a duplicate of
/// the stored result. Nothing is ever removed.
#[verifier::reject_recursive_types(U)]
#[verifier::reject_recursive_types(V)]
pub struct CacheDynamic<T, U, V> where T: Fn(U) -> V, U: Eq + Hash + Copy, V: Clone {
    calculation: T,
    value: HashMap<U, V>,
    calls: Ghost<Seq<U>>,
}

impl<T, U, V> View for CacheDynamic<T, U, V> where T: Fn(U) -> V, U: Eq + Hash + Copy, V: Clone {
    type V = Map<U, V>;

    /// The stored results, by argument.
    closed spec fn view(&self) -> Map<U, V> {
        self.value@
    }
}

impl<T, U, V> CacheDynamic<T, U, V> where T: Fn(U) -> V, U: Eq + Hash + Copy, V: Clone {
    /// The callable that this cache owns.
    pub closed spec fn calculation(&self) -> T {
        self.calculation
    }

    /// The arguments to which the callable has been applied since the cache
    /// was made, oldest first. Only [`CacheDynamic::value`] applies the
    /// callable, and it extends this record wherever it does.
    pub closed spec fn calls(&self) -> Seq<U> {
        self.calls@
    }

    /// The keys are usable as keys of a hash map, the callable has been
    /// applied once to each stored argument and to nothing else, and every
    /// stored result is a result of the callable for its argument.
    pub open spec fn wf(&self) -> bool {
        &&& obeys_key_model::<U>()
        &&& self.calls().no_duplicates()
        &&& forall|k: U| self@.contains_key(k) <==> self.calls().contains(k)
        &&& forall|k: U| #[trigger]
            self@.contains_key(k) ==> call_ensures(self.calculation(), (k,), self@[k])
    }

    /// What one call of [`CacheDynamic::value`] with `arg` does: it takes the
    /// cache from `self` to `post` and returns `v`, a duplicate of the result
    /// that `post` stores for `arg`. That result is the one that `self` stored
    /// already, if any, and a result of the callable for `arg` in any case.
    pub open spec fn value_step(&self, arg: U, post: &Self, v: V) -> bool {
        &&& post.calculation() == self.calculation()
        &&& post.calls() == record_call(self.calls(), arg)
        &&& exists|stored: V|
            {
                &&& #[trigger] call_ensures(self.calculation(), (arg,), stored)
                &&& cloned(stored, v)
                &&& self@.contains_key(arg) ==> stored == self@[arg]
                &&& post@ == self@.insert(arg, stored)
            }
    }

    /// Makes a cache that holds no result. The callable is stored, not
    /// applied.
    pub fn new(calculation: T) -> (cache: CacheDynamic<T, U, V>)
        requires
            obeys_key_model::<U>(),
        ensures
            cache.wf(),
            cache.calculation() == calculation,
            cache@ == Map::<U, V>::empty(),
            cache.calls() == Seq::<U>::empty(),
    {
        CacheDynamic { calculation, value: HashMap::new(), calls: Ghost(Seq::empty()) }
    }

    /// Returns a duplicate of the result stored for `arg`; if there is none
    /// yet, first applies the callable to `arg` and stores what it returns.
    pub fn value(&mut self, arg: U) -> (v: V)
        requires
            old(self).wf(),
            !old(self)@.contains_key(arg) ==> call_requires(old(self).calculation(), (arg,)),
        ensures
            final(self).wf(),
            old(self).value_step(arg, final(self), v),
    {
        match self.value.get(&arg) {
            Some(stored) => {
                proof {
                    assert(self@ =~= self@.insert(arg, *stored));
                }
                stored.clone()
            },
            None => {
                let computed = (self.calculation)(arg);
                let v = computed.clone();
                self.value.insert(arg, computed);
                self.calls = Ghost(self.calls@.push(arg));
                proof {
                    let before = old(self).calls();
                    let after = self.calls();
                    assert(after.len() == before.len() + 1);
                    assert(after[before.len() as int] == arg);
                    assert forall|k: U| after.contains(k) <==> before.contains(k) || k == arg by {
                        if before.contains(k) {
                            let i = choose|i: int| 0 <= i < before.len() && before[i] == k;
                            assert(after[i] == k);
                        }
                    }
                    assert forall|i: int, j: int|
                        0 <= i < after.len() && 0 <= j < after.len() && i != j implies after[i]
                        != after[j] by {
                        if i < before.len() {
                            assert(before.contains(before[i]));
                        }
                        if j < before.len() {
                            assert(before.contains(before[j]));
                        }
                    }
                    assert forall|k: U| #[trigger] self@.contains_key(k) implies call_ensures(
                        self.calculation(),
                        (k,),
                        self@[k],
                    ) by {
                        if k != arg {
                            assert(old(self)@.contains_key(k));
                        }
                    }
                }
                v
            },
        }
    }
}

/// The callable has at most one result for `arg`.
pub open spec fn single_valued<T: Fn(U) -> V, U, V>(calculation: T, arg: U) -> bool {
    forall|r1: V, r2: V|
        call_ensures(calculation, (arg,), r1) && call_ensures(calculation, (arg,), r2) ==> r1
            == r2
}

/// Every duplicate of a `V` equals the value it was made from.
pub open spec fn duplicates_are_equal<V: Clone>() -> bool {
    forall|a: V, b: V| cloned(a, b) ==> a == b
}

/// Where the callable has one result per argument and a duplicate equals what
/// it was made from, every lookup, whether it finds a stored result or not,
/// returns what a fresh application of the callable to the same argument
/// returns.
pub proof fn lemma_value_is_fresh_result<T, U, V>(
    pre: CacheDynamic<T, U, V>,
    arg: U,
    post: CacheDynamic<T, U, V>,
    v: V,
    fresh: V,
) where T: Fn(U) -> V, U: Eq + Hash + Copy, V: Clone
    requires
        pre.value_step(arg, &post, v),
        single_valued(pre.calculation(), arg),
        duplicates_are_equal::<V>(),
        call_ensures(pre.calculation(), (arg,), fresh),
    ensures
        v == fresh,
{
}

/// A lookup never removes or changes a stored result, and after it a result
/// is stored for its argument.
pub proof fn lemma_store_only_grows<T, U, V>(
    pre: CacheDynamic<T, U, V>,
    arg: U,
    post: CacheDynamic<T, U, V>,
    v: V,
) where T: Fn(U) -> V, U: Eq + Hash + Copy, V: Clone
    requires
        pre.value_step(arg, &post, v),
    ensures
        post@.dom() == pre@.dom().insert(arg),
        forall|k: U| pre@.contains_key(k) ==> post@.contains_key(k) && post@[k] == pre@[k],
{
    assert(post@.dom() =~= pre@.dom().insert(arg));
}

/// Lookups add to a record without repeats only arguments that are new to it.
proof fn lemma_record_calls<U>(calls: Seq<U>, args: Seq<U>)
    requires
        calls.no_duplicates(),
    ensures
        record_calls(calls, args).no_duplicates(),
        forall|a: U|
            record_calls(calls, args).contains(a) <==> calls.contains(a) || args.contains(a),
    decreases args.len(),
{
    if args.len() > 0 {
        let front = args.drop_last();
        let prev = record_calls(calls, front);
        let log = record_calls(calls, args);
        lemma_record_calls(calls, front);
        assert forall|a: U| args.contains(a) <==> front.contains(a) || a == args.last() by {
            if front.contains(a) {
                let i = choose|i: int| 0 <= i < front.len() && front[i] == a;
                assert(args[i] == a);
            }
            if a == args.last() {
                assert(args[args.len() - 1] == a);
            }
            if args.contains(a) {
                let i = choose|i: int| 0 <= i < args.len() && args[i] == a;
                if i < front.len() {
                    assert(front[i] == a);
                }
            }
        }
        if !prev.contains(args.last()) {
            assert forall|a: U| log.contains(a) <==> prev.contains(a) || a == args.last() by {
                if prev.contains(a) {
                    let i = choose|i: int| 0 <= i < prev.len() && prev[i] == a;
                    assert(log[i] == a);
                }
                if a == args.last() {
                    assert(log[prev.len() as int] == a);
                }
            }
            assert forall|i: int, j: int|
                0 <= i < log.len() && 0 <= j < log.len() && i != j implies log[i] != log[j] by {
                if i < prev.len() {
                    assert(prev.contains(prev[i]));
                }
                if j < prev.len() {
                    assert(prev.contains(prev[j]));
                }
            }
        }
    }
}

/// `a` occurs in `args` before position `q`.
pub open spec fn occurs_before<U>(args: Seq<U>, a: U, q: int) -> bool {
    exists|p: int| 0 <= p < q && p < args.len() && #[trigger] args[p] == a
}

/// Wherever `b` occurs in `args`, `a` has occurred earlier.
pub open spec fn precedes<U>(args: Seq<U>, a: U, b: U) -> bool {
    forall|q: int| 0 <= q < args.len() && #[trigger] args[q] == b ==> occurs_before(args, a, q)
}

/// A record that starts empty lists the arguments in the order in which they
/// first appear.
proof fn lemma_record_in_order<U>(args: Seq<U>)
    ensures
        forall|i: int, j: int|
            #![trigger record_calls(Seq::empty(), args)[i], record_calls(Seq::empty(), args)[j]]
            0 <= i < j < record_calls(Seq::empty(), args).len() ==> precedes(
                args,
                record_calls(Seq::empty(), args)[i],
                record_calls(Seq::empty(), args)[j],
            ),
    decreases args.len(),
{
    let log = record_calls(Seq::<U>::empty(), args);
    if args.len() > 0 {
        let front = args.drop_last();
        let prev = record_calls(Seq::<U>::empty(), front);
        let last = args.last();
        lemma_record_in_order(front);
        lemma_record_calls(Seq::<U>::empty(), front);
        assert forall|i: int, j: int|
            #![trigger log[i], log[j]]
            0 <= i < j < log.len() implies precedes(args, log[i], log[j]) by {
            assert forall|q: int|
                0 <= q < args.len() && #[trigger] args[q] == log[j] implies occurs_before(
                args,
                log[i],
                q,
            ) by {
                assert(log == record_call(prev, last));
                assert(log[i] == prev[i]);
                assert(prev.contains(prev[i]));
                assert(front.contains(prev[i]));
                if j < prev.len() {
                    assert(log[j] == prev[j]);
                    assert(prev.contains(prev[j]));
                    assert(front.contains(prev[j]));
                    assert(precedes(front, prev[i], prev[j]));
                    // The last lookup may repeat an argument on record, which
                    // then has an earlier occurrence.
                    let e = if q < front.len() {
                        q
                    } else {
                        choose|e: int| 0 <= e < front.len() && front[e] == prev[j]
                    };
                    assert(front[e] == prev[j]);
                    assert(occurs_before(front, prev[i], e));
                    let p = choose|p: int|
                        0 <= p < e && p < front.len() && #[trigger] front[p] == prev[i];
                    assert(args[p] == log[i]);
                } else {
                    // The last lookup is of a new argument, which occurs
                    // nowhere before the end.
                    if q < front.len() {
                        assert(front[q] == last);
                        assert(front.contains(last));
                    }
                    let p = choose|p: int| 0 <= p < front.len() && front[p] == prev[i];
                    assert(args[p] == log[i]);
                }
            }
        }
    }
}

/// `states` are the states of one cache before, between and after the
/// lookups of `args` in order, and `results` is what the lookups returned.
pub open spec fn lookups<T, U, V>(
    states: Seq<CacheDynamic<T, U, V>>,
    args: Seq<U>,
    results: Seq<V>,
) -> bool where T: Fn(U) -> V, U: Eq + Hash + Copy, V: Clone {
    &&& states.len() == args.len() + 1
    &&& results.len() == args.len()
    &&& forall|i: int|
        #![trigger args[i]]
        0 <= i < args.len() ==> states[i].value_step(args[i], &states[i + 1], results[i])
}

/// A run of lookups leaves the record that [`record_calls`] describes.
proof fn lemma_lookups_recorded<T, U, V>(
    states: Seq<CacheDynamic<T, U, V>>,
    args: Seq<U>,
    results: Seq<V>,
) where T: Fn(U) -> V, U: Eq + Hash + Copy, V: Clone
    requires
        lookups(states, args, results),
    ensures
        states.last().calls() == record_calls(states[0].calls(), args),
    decreases args.len(),
{
    if args.len() > 0 {
        let n = args.len() - 1;
        let front = states.drop_last();
        assert(states[n].value_step(args[n], &states[n + 1], results[n]));
        assert forall|i: int|
            #![trigger args.drop_last()[i]]
            0 <= i < n implies front[i].value_step(
            args.drop_last()[i],
            &front[i + 1],
            results.drop_last()[i],
        ) by {
            assert(states[i].value_step(args[i], &states[i + 1], results[i]));
        }
        lemma_lookups_recorded(front, args.drop_last(), results.drop_last());
        assert(front.last() == states[n]);
    }
}

/// Whatever arguments are looked up on a new cache, however often and in
/// whatever order, the callable is applied exactly once to each distinct
/// argument among them, and to nothing else.
pub proof fn lemma_one_call_per_key<T, U, V>(
    states: Seq<CacheDynamic<T, U, V>>,
    args: Seq<U>,
    results: Seq<V>,
) where T: Fn(U) -> V, U: Eq + Hash + Copy, V: Clone
    requires
        lookups(states, args, results),
        states[0].calls() == Seq::<U>::empty(),
    ensures
        states.last().calls() == record_calls(Seq::empty(), args),
        states.last().calls().no_duplicates(),
        forall|a: U| states.last().calls().contains(a) <==> args.contains(a),
        forall|a: U| #[trigger]
            states.last().calls().to_multiset().count(a) == if args.contains(a) {
                1nat
            } else {
                0nat
            },
{
    let log = states.last().calls();
    lemma_lookups_recorded(states, args, results);
    lemma_record_calls(Seq::<U>::empty(), args);
    log.lemma_multiset_has_no_duplicates();
    log.to_multiset_ensures();
}

/// On a new cache the callable is applied to the distinct arguments in the
/// order in which they first appear among the lookups: wherever an argument
/// occurs in `args`, every argument recorded before it has occurred earlier.
pub proof fn lemma_calls_in_order_of_first_appearance<T, U, V>(
    states: Seq<CacheDynamic<T, U, V>>,
    args: Seq<U>,
    results: Seq<V>,
) where T: Fn(U) -> V, U: Eq + Hash + Copy, V: Clone
    requires
        lookups(states, args, results),
        states[0].calls() == Seq::<U>::empty(),
    ensures
        forall|i: int, j: int|
            #![trigger states.last().calls()[i], states.last().calls()[j]]
            0 <= i < j < states.last().calls().len() ==> precedes(
                args,
                states.last().calls()[i],
                states.last().calls()[j],
            ),
{
    lemma_lookups_recorded(states, args, results);
    lemma_record_in_order(args);
}

} // verus!
