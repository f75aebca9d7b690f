//! What passes between the entry block and the blocks that run alongside
//! it: the values such a block hands back, and how they are taken in at an
//! await.
use vstd::prelude::*;
use crate::runtime::{
    contains_name, merge_consumer_results, merge_spec, names_view, yielded_items, ConsumerResult, MergeError,
};
use crate::state::{decl_for_spec, slot_views, RuntimeState, StateError};
use crate::tensor::TensorValue;

verus! {

/// Why the values of concurrently run blocks cannot be taken in.
#[derive(Clone, Copy, Debug, PartialEq, Eq, Structural)]
pub enum ApplyError {
    Merge(MergeError),
    State(StateError),
}

/// What a block run beside the entry block hands back: of the yielded
/// `vars`, each one that has a value handed in, with that value, once; and
/// which of those it wrote.
pub fn collect_yields(state: &RuntimeState, block_name: &str, vars: &[String]) -> (r: ConsumerResult)
    requires
        state.wf(),
    ensures
        r.block_name@ == block_name@,
        forall|j: int|
            0 <= j < r.yielded@.len() ==> names_view(vars@).contains((#[trigger] r.yielded@[j]).0@)
                && state.dynamic@.contains_key(r.yielded@[j].0@) && r.yielded@[j].1@ == state.slots@[state.dynamic@[r.yielded@[j].0@] as int]@
                && r.yielded@[j].1.wf(),
        forall|i: int, j: int|
            0 <= i < j < r.yielded@.len() ==> (#[trigger] r.yielded@[i]).0@ != (#[trigger] r.yielded@[j]).0@,
        forall|j: int|
            0 <= j < vars@.len() && state.dynamic@.contains_key((#[trigger] vars@[j])@) ==> exists|i: int|
                0 <= i < r.yielded@.len() && (#[trigger] r.yielded@[i]).0@ == vars@[j]@,
        forall|m: Seq<char>|
            names_view(r.mutated@).contains(m) <==> (exists|i: int|
                0 <= i < r.yielded@.len() && (#[trigger] r.yielded@[i]).0@ == m) && state.mutated@.contains(m),
{
    let mut yielded: Vec<(String, TensorValue)> = Vec::new();
    let mut names: Vec<String> = Vec::new();
    let mut mutated: Vec<String> = Vec::new();
    let mut k: usize = 0;
    while k < vars.len()
        invariant
            state.wf(),
            k <= vars@.len(),
            names@.len() == yielded@.len(),
            forall|j: int| 0 <= j < yielded@.len() ==> (#[trigger] names@[j]) == yielded@[j].0,
            forall|j: int|
                0 <= j < yielded@.len() ==> names_view(vars@).contains((#[trigger] yielded@[j]).0@)
                    && state.dynamic@.contains_key(yielded@[j].0@) && yielded@[j].1@ == state.slots@[state.dynamic@[yielded@[j].0@] as int]@
                    && yielded@[j].1.wf(),
            forall|i: int, j: int|
                0 <= i < j < yielded@.len() ==> (#[trigger] yielded@[i]).0@ != (#[trigger] yielded@[j]).0@,
            forall|j: int|
                0 <= j < k && state.dynamic@.contains_key((#[trigger] vars@[j])@) ==> exists|i: int|
                    0 <= i < yielded@.len() && (#[trigger] yielded@[i]).0@ == vars@[j]@,
            forall|m: Seq<char>|
                names_view(mutated@).contains(m) <==> (exists|i: int|
                    0 <= i < yielded@.len() && (#[trigger] yielded@[i]).0@ == m) && state.mutated@.contains(m),
        decreases vars@.len() - k,
    {
        let v = &vars[k];
        let ghost start_y = yielded@;
        let seen = contains_name(names.as_slice(), v);
        proof {
            if seen {
                let i = choose|i: int| 0 <= i < names@.len() && names_view(names@)[i] == v@;
                assert(names@[i] == yielded@[i].0);
            }
        }
        if !seen {
            if let Some(i) = state.dynamic_shared(v.as_str()) {
                let value = state.slots[i].clone_value();
                let ghost before_y = yielded@;
                let ghost before_m = mutated@;
                proof {
                    assert(names_view(vars@)[k as int] == v@);
                    assert forall|j: int| 0 <= j < before_y.len() implies before_y[j].0@ != v@ by {
                        assert(names_view(names@)[j] == names@[j]@);
                    }
                }
                yielded.push((v.clone(), value));
                names.push(v.clone());
                if state.was_mutated(v.as_str()) {
                    mutated.push(v.clone());
                }
                proof {
                    assert forall|m: Seq<char>|
                        names_view(mutated@).contains(m) <==> (exists|i: int|
                            0 <= i < yielded@.len() && (#[trigger] yielded@[i]).0@ == m) && state.mutated@.contains(m) by {
                        if names_view(mutated@).contains(m) {
                            let t = choose|t: int| 0 <= t < mutated@.len() && names_view(mutated@)[t] == m;
                            if t < before_m.len() {
                                assert(names_view(before_m)[t] == m);
                                assert(names_view(before_m).contains(m));
                                let i = choose|i: int| 0 <= i < before_y.len() && (#[trigger] before_y[i]).0@ == m;
                                assert(yielded@[i] == before_y[i]);
                            } else {
                                assert(yielded@[before_y.len() as int].0@ == m);
                            }
                        }
                        if (exists|i: int| 0 <= i < yielded@.len() && (#[trigger] yielded@[i]).0@ == m) && state.mutated@.contains(m) {
                            let i = choose|i: int| 0 <= i < yielded@.len() && (#[trigger] yielded@[i]).0@ == m;
                            if i < before_y.len() {
                                assert(before_y[i].0@ == m);
                                assert(names_view(before_m).contains(m));
                                let t = choose|t: int| 0 <= t < before_m.len() && names_view(before_m)[t] == m;
                                assert(names_view(mutated@)[t] == m);
                            } else {
                                assert(names_view(mutated@)[mutated@.len() - 1] == m);
                            }
                        }
                    }
                }
            }
        }
        proof {
            assert forall|j: int|
                0 <= j < k + 1 && state.dynamic@.contains_key((#[trigger] vars@[j])@) implies exists|i: int|
                    0 <= i < yielded@.len() && (#[trigger] yielded@[i]).0@ == vars@[j]@ by {
                if j < k {
                    let i = choose|i: int| 0 <= i < start_y.len() && (#[trigger] start_y[i]).0@ == vars@[j]@;
                    assert(yielded@[i] == start_y[i]);
                } else if seen {
                    let i = choose|i: int| 0 <= i < names@.len() && names_view(names@)[i] == v@;
                    assert(names_view(names@)[i] == names@[i]@);
                    assert(names@[i] == yielded@[i].0);
                    assert(yielded@[i].0@ == vars@[j]@);
                } else {
                    assert(yielded@[yielded@.len() - 1].0@ == vars@[j]@);
                }
            }
        }
        k = k + 1;
    }
    let r = ConsumerResult { block_name: block_name.to_string(), yielded, mutated };
    proof {
        assert forall|j: int|
            0 <= j < vars@.len() && state.dynamic@.contains_key((#[trigger] vars@[j])@) implies exists|i: int|
                0 <= i < r.yielded@.len() && (#[trigger] r.yielded@[i]).0@ == vars@[j]@ by {
            let i = choose|i: int| 0 <= i < yielded@.len() && (#[trigger] yielded@[i]).0@ == vars@[j]@;
            assert(r.yielded@[i] == yielded@[i]);
        }
        assert forall|m: Seq<char>|
            names_view(r.mutated@).contains(m) <==> (exists|i: int|
                0 <= i < r.yielded@.len() && (#[trigger] r.yielded@[i]).0@ == m) && state.mutated@.contains(m) by {
            assert(r.mutated@ == mutated@);
            assert(r.yielded@ == yielded@);
            if names_view(mutated@).contains(m) {
                let i = choose|i: int| 0 <= i < yielded@.len() && (#[trigger] yielded@[i]).0@ == m;
                assert(r.yielded@[i].0@ == m);
            }
        }
    }
    r
}

/// Item `k` of consumer `c` is the one whose value stands for its name in
/// the merge `m`.
pub open spec fn chosen(results: Seq<ConsumerResult>, m: Map<Seq<char>, (int, int, bool)>, c: int, k: int) -> bool {
    &&& 0 <= c < results.len()
    &&& 0 <= k < results[c].yielded@.len()
    &&& m.contains_key(results[c].yielded@[k].0@)
    &&& m[results[c].yielded@[k].0@].0 == c
    &&& m[results[c].yielded@[k].0@].1 == k
}

/// Item `k2` of consumer `c2` comes before item `k` of consumer `c`.
pub open spec fn done(c2: int, k2: int, c: int, k: int) -> bool {
    c2 < c || (c2 == c && k2 < k)
}

/// Some chosen item before item `k` of consumer `c` has the name `n`.
pub open spec fn touched(results: Seq<ConsumerResult>, m: Map<Seq<char>, (int, int, bool)>, c: int, k: int, n: Seq<char>) -> bool {
    exists|c2: int, k2: int| #[trigger] chosen(results, m, c2, k2) && done(c2, k2, c, k) && item_name(results, c2, k2) == n
}

/// The name of item `k` of consumer `c`.
pub open spec fn item_name(results: Seq<ConsumerResult>, c: int, k: int) -> Seq<char> {
    results[c].yielded@[k].0@
}

/// Some chosen value has a name that is not declared.
pub open spec fn some_undeclared(results: Seq<ConsumerResult>, m: Map<Seq<char>, (int, int, bool)>, vars: Map<Seq<char>, crate::graph::VarDecl>) -> bool {
    exists|c: int, k: int| #[trigger] chosen(results, m, c, k) && decl_for_spec(vars, item_name(results, c, k)) is None
}

/// What `apply_consumer_results` gives and leaves.
pub open spec fn apply_post(before: RuntimeState, after: RuntimeState, results: Seq<ConsumerResult>, r: Result<(), ApplyError>) -> bool {
    match merge_spec(results, yielded_items(results), yielded_items(results).len()) {
        Err(e) => r == Err::<(), ApplyError>(ApplyError::Merge(e)) && after == before,
        Ok(m) => {
            &&& r is Err <==> some_undeclared(results, m, before.vars@)
            &&& r is Err ==> r == Err::<(), ApplyError>(ApplyError::State(StateError::UnknownVariable))
            &&& r is Ok ==> forall|c: int, k: int|
                #[trigger] chosen(results, m, c, k) ==> after.dynamic@.contains_key(
                    item_name(results, c, k),
                ) && after.slots@[after.dynamic@[item_name(results, c, k)] as int]@
                    == results[c].yielded@[k].1@
            &&& r is Ok ==> forall|n: Seq<char>|
                !#[trigger] touched(results, m, results.len() as int, 0, n) ==> (after.dynamic@.contains_key(n)
                    == before.dynamic@.contains_key(n) && (before.dynamic@.contains_key(n)
                    ==> after.dynamic@[n] == before.dynamic@[n]))
            &&& after.locals@ == before.locals@
            &&& after.cache == before.cache
            &&& after.vars@ == before.vars@
            &&& after.model == before.model
            &&& after.loop_vars@ == before.loop_vars@
            &&& after.mutated@ == before.mutated@
        },
    }
}

/// Take in at an await what the blocks run beside the entry block handed
/// back: the values are merged (see `merge_spec`), and each one that stands
/// is handed in under its name, consumer by consumer, in order; a name that
/// is not declared stops it.
#[verifier::spinoff_prover]
#[verifier::rlimit(60)]
pub fn apply_consumer_results(state: &mut RuntimeState, results: &[ConsumerResult]) -> (r: Result<(), ApplyError>)
    requires
        old(state).wf(),
        forall|c: int, k: int|
            0 <= c < results@.len() && 0 <= k < results@[c].yielded@.len() ==> (
            #[trigger] results@[c].yielded@[k]).1.wf(),
    ensures
        final(state).wf(),
        apply_post(*old(state), *final(state), results@, r),
{
    let merged = match merge_consumer_results(results) {
        Ok(m) => m,
        Err(e) => return Err(ApplyError::Merge(e)),
    };
    let ghost m = merge_spec(results@, yielded_items(results@), yielded_items(results@).len())->Ok_0;
    proof {
        assert forall|n: Seq<char>| merged@.contains_key(n) <==> m.contains_key(n) by {
            assert(merged@.dom().contains(n) == m.dom().contains(n));
        }
    }
    let ghost s0 = *state;
    let mut c: usize = 0;
    while c < results.len()
        invariant
            state.wf(),
            c <= results@.len(),
            forall|c2: int, k2: int|
                0 <= c2 < results@.len() && 0 <= k2 < results@[c2].yielded@.len() ==> (
                #[trigger] results@[c2].yielded@[k2]).1.wf(),
            merge_spec(results@, yielded_items(results@), yielded_items(results@).len()) == Ok::<
                Map<Seq<char>, (int, int, bool)>,
                MergeError,
            >(m),
            forall|n: Seq<char>| #[trigger] merged@.contains_key(n) <==> m.contains_key(n),
            forall|n: Seq<char>|
                #[trigger] merged@.contains_key(n) ==> (merged@[n].0 as int, merged@[n].1 as int, merged@[n].2) == m[n],
            s0 == *old(state),
            forall|c2: int, k2: int| #[trigger] chosen(results@, m, c2, k2) && done(c2, k2, c as int, 0) ==> decl_for_spec(s0.vars@, item_name(results@, c2, k2)) is Some,
            forall|c2: int, k2: int|
                #[trigger] chosen(results@, m, c2, k2) && done(c2, k2, c as int, 0) ==> state.dynamic@.contains_key(item_name(results@, c2, k2))
                    && state.slots@[state.dynamic@[item_name(results@, c2, k2)] as int]@ == results@[c2].yielded@[k2].1@,
            forall|n: Seq<char>|
                !#[trigger] touched(results@, m, c as int, 0, n) ==> (state.dynamic@.contains_key(n) == s0.dynamic@.contains_key(n)
                    && (s0.dynamic@.contains_key(n) ==> state.dynamic@[n] == s0.dynamic@[n])),
            state.locals@ == s0.locals@,
            state.cache == s0.cache,
            state.vars@ == s0.vars@,
            state.model == s0.model,
            state.loop_vars@ == s0.loop_vars@,
            state.mutated@ == s0.mutated@,
        decreases results@.len() - c,
    {
        let res = &results[c];
        let mut k: usize = 0;
        while k < res.yielded.len()
            invariant
                state.wf(),
                c < results@.len(),
                res == results@[c as int],
                k <= res.yielded@.len(),
                merge_spec(results@, yielded_items(results@), yielded_items(results@).len()) == Ok::<
                    Map<Seq<char>, (int, int, bool)>,
                    MergeError,
                >(m),
                forall|c2: int, k2: int|
                    0 <= c2 < results@.len() && 0 <= k2 < results@[c2].yielded@.len() ==> (
                    #[trigger] results@[c2].yielded@[k2]).1.wf(),
                forall|n: Seq<char>| #[trigger] merged@.contains_key(n) <==> m.contains_key(n),
                forall|n: Seq<char>|
                    #[trigger] merged@.contains_key(n) ==> (merged@[n].0 as int, merged@[n].1 as int, merged@[n].2) == m[n],
                s0 == *old(state),
                forall|c2: int, k2: int|
                    #[trigger] chosen(results@, m, c2, k2) && done(c2, k2, c as int, k as int) ==> decl_for_spec(
                        s0.vars@,
                        item_name(results@, c2, k2),
                    ) is Some,
                forall|c2: int, k2: int|
                    #[trigger] chosen(results@, m, c2, k2) && done(c2, k2, c as int, k as int) ==> state.dynamic@.contains_key(
                        item_name(results@, c2, k2),
                    ) && state.slots@[state.dynamic@[item_name(results@, c2, k2)] as int]@ == results@[c2].yielded@[k2].1@,
                forall|n: Seq<char>|
                    !#[trigger] touched(results@, m, c as int, k as int, n) ==> (state.dynamic@.contains_key(n) == s0.dynamic@.contains_key(n)
                        && (s0.dynamic@.contains_key(n) ==> state.dynamic@[n] == s0.dynamic@[n])),
                state.locals@ == s0.locals@,
                state.cache == s0.cache,
                state.vars@ == s0.vars@,
                state.model == s0.model,
                state.loop_vars@ == s0.loop_vars@,
                state.mutated@ == s0.mutated@,
            decreases res.yielded@.len() - k,
        {
            let name = &res.yielded[k].0;
            let is_chosen = match merged.get(name.as_str()) {
                Some(t) => t.0 == c && t.1 == k,
                None => false,
            };
            proof {
                assert(item_name(results@, c as int, k as int) == name@);
                assert(is_chosen == chosen(results@, m, c as int, k as int));
            }
            if is_chosen {
                let ghost before = *state;
                let value = res.yielded[k].1.clone_value();
                match state.insert_dynamic(name.as_str(), value) {
                    Ok(()) => {},
                    Err(e) => {
                        assert(chosen(results@, m, c as int, k as int) && decl_for_spec(
                            old(state).vars@,
                            item_name(results@, c as int, k as int),
                        ) is None);
                        assert(e == StateError::UnknownVariable);
                        assert(some_undeclared(results@, m, old(state).vars@));
                        let r = Err(ApplyError::State(e));
                        assert(apply_post(*old(state), *state, results@, r));
                        return r;
                    },
                }
                proof {
                    let n0 = before.slots@.len();
                    assert(slot_views(state.slots@) == slot_views(before.slots@).push(res.yielded@[k as int].1@));
                    assert(state.slots@.len() == n0 + 1);
                    assert forall|i: int| 0 <= i < n0 implies #[trigger] state.slots@[i]@ == before.slots@[i]@ by {
                        assert(slot_views(state.slots@)[i] == slot_views(before.slots@)[i]);
                    }
                    assert(before.slots.len() == n0);
                    assert(slot_views(state.slots@)[n0 as int] == res.yielded@[k as int].1@);
                    assert forall|n: Seq<char>|
                        !#[trigger] touched(results@, m, c as int, k + 1, n) implies (state.dynamic@.contains_key(n)
                            == s0.dynamic@.contains_key(n) && (s0.dynamic@.contains_key(n) ==> state.dynamic@[n]
                            == s0.dynamic@[n])) by {
                        if touched(results@, m, c as int, k as int, n) {
                            let (c2, k2) = choose|c2: int, k2: int|
                                #[trigger] chosen(results@, m, c2, k2) && done(c2, k2, c as int, k as int)
                                    && item_name(results@, c2, k2) == n;
                            assert(chosen(results@, m, c2, k2) && done(c2, k2, c as int, k + 1));
                        }
                        assert(item_name(results@, c as int, k as int) != n) by {
                            if item_name(results@, c as int, k as int) == n {
                                assert(chosen(results@, m, c as int, k as int) && done(c as int, k as int, c as int, k + 1));
                            }
                        }
                    }
                    assert forall|c2: int, k2: int|
                        #[trigger] chosen(results@, m, c2, k2) && done(c2, k2, c as int, k + 1) implies state.dynamic@.contains_key(
                            item_name(results@, c2, k2),
                        ) && state.slots@[state.dynamic@[item_name(results@, c2, k2)] as int]@ == results@[c2].yielded@[k2].1@ by {
                        if done(c2, k2, c as int, k as int) {
                            let n2 = item_name(results@, c2, k2);
                            if n2 == name@ {
                                assert(m[n2].0 == c2 && m[n2].1 == k2);
                                assert(m[n2].0 == c && m[n2].1 == k);
                            }
                            assert(before.dynamic@.contains_key(n2));
                            assert(before.dynamic@[n2] < n0);
                        }
                    }
                }
            } else {
                proof {
                    assert forall|n: Seq<char>|
                        !#[trigger] touched(results@, m, c as int, k + 1, n) implies (state.dynamic@.contains_key(n)
                            == s0.dynamic@.contains_key(n) && (s0.dynamic@.contains_key(n) ==> state.dynamic@[n]
                            == s0.dynamic@[n])) by {
                        if touched(results@, m, c as int, k as int, n) {
                            let (c2, k2) = choose|c2: int, k2: int|
                                #[trigger] chosen(results@, m, c2, k2) && done(c2, k2, c as int, k as int)
                                    && item_name(results@, c2, k2) == n;
                            assert(chosen(results@, m, c2, k2) && done(c2, k2, c as int, k + 1));
                        }
                    }
                }
            }
            k = k + 1;
        }
        proof {
            assert forall|n: Seq<char>|
                !#[trigger] touched(results@, m, c + 1, 0, n) implies (state.dynamic@.contains_key(n)
                    == s0.dynamic@.contains_key(n) && (s0.dynamic@.contains_key(n) ==> state.dynamic@[n]
                    == s0.dynamic@[n])) by {
                if touched(results@, m, c as int, k as int, n) {
                    let (c2, k2) = choose|c2: int, k2: int|
                        #[trigger] chosen(results@, m, c2, k2) && done(c2, k2, c as int, k as int)
                            && item_name(results@, c2, k2) == n;
                    assert(chosen(results@, m, c2, k2) && done(c2, k2, c + 1, 0));
                }
            }
        }
        c = c + 1;
    }
    Ok(())
}

} // verus!
