//! A cache with a single slot: it remembers the first result of its callable
//! and hands that result out ever after, whatever the argument.

use vstd::prelude::*;

verus! {

/// The record of applications of the callable after one more lookup of `arg`:
/// only a lookup that finds the record empty applies the callable.
pub open spec fn record_first(calls: Seq<u32>, arg: u32) -> Seq<u32> {
    if calls.len() == 0 {
        seq![arg]
    } else {
        calls
    }
}

/// Caches the result of the first application of `calculation`.
///
/// The slot is filled by the first call of [`CacheNonDynamic::value`] and
/// never changes afterwards: later calls return the stored result even when
/// their argument differs from the first one.
pub struct CacheNonDynamic<T> where T: Fn(u32) -> u32 {
    calculation: T,
    value: Option<u32>,
    calls: Ghost<Seq<u32>>,
}

impl<T> View for CacheNonDynamic<T> where T: Fn(u32) -> u32 {
    type V = Option<u32>;

    /// The slot: `None` until the first lookup, the stored result afterwards.
    closed spec fn view(&self) -> Option<u32> {
        self.value
    }
}

impl<T> CacheNonDynamic<T> where T: Fn(u32) -> u32 {
    /// The callable that this cache owns.
    pub closed spec fn calculation(&self) -> T {
        self.calculation
    }

    /// The arguments to which the callable has been applied since the cache
    /// was made, oldest first. Only [`CacheNonDynamic::value`] applies the
    /// callable, and it extends this record wherever it does.
    pub closed spec fn calls(&self) -> Seq<u32> {
        self.calls@
    }

    /// The slot is empty exactly as long as the callable has not been applied;
    /// once filled, it holds a result of the one application on record.
    pub open spec fn wf(&self) -> bool {
        match self@ {
            None => self.calls().len() == 0,
            Some(v) => self.calls().len() == 1 && call_ensures(
                self.calculation(),
                (self.calls()[0],),
                v,
            ),
        }
    }

    /// What one call of [`CacheNonDynamic::value`] with `arg` does: it takes
    /// the cache from `self` to `post` and returns `v`.
    pub open spec fn value_step(&self, arg: u32, post: &Self, v: u32) -> bool {
        &&& post.calculation() == self.calculation()
        &&& post@ == Some(v)
        &&& post.calls() == record_first(self.calls(), arg)
        &&& match self@ {
            Some(stored) => v == stored,
            None => call_ensures(self.calculation(), (arg,), v),
        }
    }

    /// Makes a cache with an empty slot. The callable is stored, not applied.
    pub fn new(calculation: T) -> (cache: CacheNonDynamic<T>)
        ensures
            cache.wf(),
            cache.calculation() == calculation,
            cache@ == None::<u32>,
            cache.calls() == Seq::<u32>::empty(),
    {
        CacheNonDynamic { calculation, value: None, calls: Ghost(Seq::empty()) }
    }

    /// Returns the stored result if there is one, ignoring `arg`; otherwise
    /// applies the callable to `arg`, stores the result and returns it.
    pub fn value(&mut self, arg: u32) -> (v: u32)
        requires
            old(self).wf(),
            old(self)@ is None ==> call_requires(old(self).calculation(), (arg,)),
        ensures
            final(self).wf(),
            old(self).value_step(arg, final(self), v),
    {
        match self.value {
            Some(v) => v,
            None => {
                let v = (self.calculation)(arg);
                self.value = Some(v);
                self.calls = Ghost(record_first(self.calls@, arg));
                v
            },
        }
    }
}

/// `states` are the states of one cache before, between and after the
/// lookups of `args` in order, and `results` is what the lookups returned.
pub open spec fn lookups<T: Fn(u32) -> u32>(
    states: Seq<CacheNonDynamic<T>>,
    args: Seq<u32>,
    results: Seq<u32>,
) -> bool {
    &&& states.len() == args.len() + 1
    &&& results.len() == args.len()
    &&& forall|i: int|
        #![trigger args[i]]
        0 <= i < args.len() ==> states[i].value_step(args[i], &states[i + 1], results[i])
}

/// A lookup on a filled slot changes nothing and returns what the lookup
/// before it returned, whatever the two arguments are: the second argument
/// has no part in the second result.
pub proof fn lemma_stale_value<T: Fn(u32) -> u32>(
    before: CacheNonDynamic<T>,
    a: u32,
    between: CacheNonDynamic<T>,
    r: u32,
    b: u32,
    after: CacheNonDynamic<T>,
    s: u32,
)
    requires
        before.value_step(a, &between, r),
        between.value_step(b, &after, s),
    ensures
        s == r,
        after@ == between@,
        after.calls() == between.calls(),
{
}

/// However many lookups are made on a new cache and whatever their
/// arguments, the callable is applied at most once: to the first argument,
/// if there is one. Every lookup returns what the first one returned, a
/// result of the callable for the first argument.
pub proof fn lemma_single_call_ever<T: Fn(u32) -> u32>(
    states: Seq<CacheNonDynamic<T>>,
    args: Seq<u32>,
    results: Seq<u32>,
)
    requires
        lookups(states, args, results),
        states[0]@ == None::<u32>,
        states[0].calls() == Seq::<u32>::empty(),
    ensures
        states.last().calls().len() <= 1,
        states.last().calls() == if args.len() == 0 {
            Seq::<u32>::empty()
        } else {
            seq![args[0]]
        },
        forall|i: int| 0 <= i < results.len() ==> #[trigger] results[i] == results[0],
        args.len() > 0 ==> states.last()@ == Some(results[0]),
        args.len() > 0 ==> call_ensures(states[0].calculation(), (args[0],), results[0]),
    decreases args.len(),
{
    if args.len() > 0 {
        let n = args.len() - 1;
        let front = states.drop_last();
        assert(states[n].value_step(args[n], &states[n + 1], results[n]));
        assert(states[0].value_step(args[0], &states[1], results[0]));
        if n > 0 {
            assert forall|i: int|
                #![trigger args.drop_last()[i]]
                0 <= i < n implies front[i].value_step(
                args.drop_last()[i],
                &front[i + 1],
                results.drop_last()[i],
            ) by {
                assert(states[i].value_step(args[i], &states[i + 1], results[i]));
            }
            lemma_single_call_ever(front, args.drop_last(), results.drop_last());
            assert(front.last() == states[n]);
            assert forall|i: int| 0 <= i < results.len() implies #[trigger] results[i]
                == results[0] by {
                if i < n {
                    assert(results.drop_last()[i] == results.drop_last()[0]);
                }
            }
        }
    }
}

} // verus!
