//! Control-flow decisions of the executor: where a branch goes, and which
//! blocks run concurrently with the entry block.
use vstd::prelude::*;
use crate::runtime::{i64_literal_spec, resolve_i64_literal, tensor_bool_spec, tensor_i64_spec, tensor_to_bool, tensor_to_i64, ValueError};
use crate::state::{get_tensor_post, RuntimeState, StateError};
use crate::tensor::{TensorValue, TensorView};
use crate::text::str_eq;

verus! {

/// Why a branch has no target.
#[derive(Clone, Copy, Debug, PartialEq, Eq, Structural)]
pub enum BranchError {
    Condition(ValueError),
    MissingElse,
}

/// Where a branch goes: to `then_block` without a condition or when the
/// condition holds, else to `else_block`, which a false condition needs.
pub open spec fn branch_target_spec(cond: Option<TensorView>, then_block: Seq<char>, else_block: Option<Seq<char>>) -> Result<
    Seq<char>,
    BranchError,
> {
    match cond {
        None => Ok(then_block),
        Some(t) => match tensor_bool_spec(t) {
            Err(e) => Err(BranchError::Condition(e)),
            Ok(true) => Ok(then_block),
            Ok(false) => match else_block {
                Some(b) => Ok(b),
                None => Err(BranchError::MissingElse),
            },
        },
    }
}

/// The block a branch node goes to, given the value of its condition
/// variable when it has one.
pub fn branch_target(cond: Option<&TensorValue>, then_block: &str, else_block: Option<&str>) -> (r: Result<
    String,
    BranchError,
>)
    requires
        cond matches Some(t) ==> t.wf(),
    ensures
        match branch_target_spec(
            match cond {
                Some(t) => Some(t@),
                None => None,
            },
            then_block@,
            match else_block {
                Some(b) => Some(b@),
                None => None,
            },
        ) {
            Ok(name) => r matches Ok(s) && s@ == name,
            Err(e) => r == Err::<String, BranchError>(e),
        },
{
    match cond {
        None => Ok(then_block.to_string()),
        Some(t) => match tensor_to_bool(t) {
            Err(e) => Err(BranchError::Condition(e)),
            Ok(true) => Ok(then_block.to_string()),
            Ok(false) => match else_block {
                Some(b) => Ok(b.to_string()),
                None => Err(BranchError::MissingElse),
            },
        },
    }
}

/// Why a branch target or loop bound cannot be had.
#[derive(Clone, Copy, Debug, PartialEq, Eq, Structural)]
pub enum FlowError {
    State(StateError),
    Branch(BranchError),
    Value(ValueError),
}

/// The result of a branch whose condition variable read gave `t`.
pub open spec fn branch_result(
    t: Result<TensorValue, StateError>,
    then_block: Seq<char>,
    else_block: Option<Seq<char>>,
    r: Result<Option<String>, FlowError>,
) -> bool {
    match t {
        Err(e) => r == Err::<Option<String>, FlowError>(FlowError::State(e)),
        Ok(v) => match branch_target_spec(Some(v@), then_block, else_block) {
            Ok(name) => r matches Ok(Some(s)) && s@ == name,
            Err(e) => r == Err::<Option<String>, FlowError>(FlowError::Branch(e)),
        },
    }
}

/// A branch with the condition variable `c`: the variable is read (see
/// `get_tensor_post`) and its value decides (see `branch_result`).
pub open spec fn branch_read_post(
    before: RuntimeState,
    after: RuntimeState,
    c: Seq<char>,
    then_block: Seq<char>,
    else_block: Option<Seq<char>>,
    r: Result<Option<String>, FlowError>,
) -> bool {
    exists|t: Result<TensorValue, StateError>|
        #![trigger get_tensor_post(before, after, c, t)]
        get_tensor_post(before, after, c, t) && branch_result(t, then_block, else_block, r)
}

/// The block a branch node goes to: without a condition the `then` block;
/// else the condition variable is read (see `get_tensor_post`) and decides
/// (see `branch_result`).
pub fn eval_branch_target(
    state: &mut RuntimeState,
    cond: Option<&str>,
    then_block: &str,
    else_block: Option<&str>,
) -> (r: Result<Option<String>, FlowError>)
    requires
        old(state).wf(),
    ensures
        final(state).wf(),
        cond is None ==> (r matches Ok(Some(s)) && s@ == then_block@) && *final(state) == *old(state),
        cond matches Some(c) ==> branch_read_post(
            *old(state),
            *final(state),
            c@,
            then_block@,
            match else_block {
                Some(b) => Some(b@),
                None => None,
            },
            r,
        ),
{
    let name = match cond {
        None => return Ok(Some(then_block.to_string())),
        Some(c) => c,
    };
    let t = state.get_tensor(name);
    let ghost tg = t;
    let value = match t {
        Ok(v) => v,
        Err(e) => {
            assert(get_tensor_post(*old(state), *state, name@, tg));
            return Err(FlowError::State(e));
        },
    };
    assert(get_tensor_post(*old(state), *state, name@, tg));
    let r = match branch_target(Some(&value), then_block, else_block) {
        Ok(s) => Ok(Some(s)),
        Err(e) => Err(FlowError::Branch(e)),
    };
    assert(branch_result(tg, then_block@, match else_block {
        Some(b) => Some(b@),
        None => None,
    }, r));
    r
}

/// What evaluating a loop bound gives and leaves: a literal or size
/// variable as it is; else the value of the variable it names (see
/// `get_tensor_post`) as a scalar.
pub open spec fn bound_post(before: RuntimeState, after: RuntimeState, expr: Seq<char>, r: Result<i64, FlowError>) -> bool {
    match i64_literal_spec(expr, before.model.sizes@) {
        Some(v) => r == Ok::<i64, FlowError>(v) && after == before,
        None => exists|t: Result<TensorValue, StateError>|
            #![trigger get_tensor_post(before, after, expr, t)]
            get_tensor_post(before, after, expr, t) && match t {
                Err(e) => r == Err::<i64, FlowError>(FlowError::State(e)),
                Ok(v) => match tensor_i64_spec(v@) {
                    Ok(x) => r == Ok::<i64, FlowError>(x),
                    Err(e) => r == Err::<i64, FlowError>(FlowError::Value(e)),
                },
            },
    }
}

/// One loop bound (see `bound_post`).
pub fn eval_bound(state: &mut RuntimeState, expr: &str) -> (r: Result<i64, FlowError>)
    requires
        old(state).wf(),
    ensures
        final(state).wf(),
        bound_post(*old(state), *final(state), expr@, r),
{
    if let Some(v) = resolve_i64_literal(expr, &state.model) {
        return Ok(v);
    }
    let t = state.get_tensor(expr);
    let ghost tg = t;
    assert(get_tensor_post(*old(state), *state, expr@, tg));
    match t {
        Err(e) => Err(FlowError::State(e)),
        Ok(v) => match tensor_to_i64(&v) {
            Ok(x) => Ok(x),
            Err(e) => Err(FlowError::Value(e)),
        },
    }
}

/// Evaluating a loop's bounds: the start first, then the end (see
/// `bound_post`).
pub open spec fn loop_bounds_post(
    before: RuntimeState,
    after: RuntimeState,
    start: Seq<char>,
    end: Seq<char>,
    r: Result<(i64, i64), FlowError>,
) -> bool {
    exists|mid: RuntimeState, rs: Result<i64, FlowError>|
        #![trigger bound_post(before, mid, start, rs)]
        bound_post(before, mid, start, rs) && match rs {
            Err(e) => r == Err::<(i64, i64), FlowError>(e) && after == mid,
            Ok(a) => exists|re: Result<i64, FlowError>|
                #![trigger bound_post(mid, after, end, re)]
                bound_post(mid, after, end, re) && match re {
                    Err(e) => r == Err::<(i64, i64), FlowError>(e),
                    Ok(b) => r == Ok::<(i64, i64), FlowError>((a, b)),
                },
        }
}

/// The start and end of a loop: the start evaluated first, then the end
/// (see `bound_post`).
pub fn eval_loop_bounds(state: &mut RuntimeState, start: &str, end: &str) -> (r: Result<(i64, i64), FlowError>)
    requires
        old(state).wf(),
    ensures
        final(state).wf(),
        loop_bounds_post(*old(state), *final(state), start@, end@, r),
{
    let rs = eval_bound(state, start);
    let ghost mid = *state;
    let a = match rs {
        Ok(a) => a,
        Err(e) => {
            assert(bound_post(*old(state), mid, start@, rs));
            return Err(e);
        },
    };
    let re = eval_bound(state, end);
    assert(bound_post(*old(state), mid, start@, rs));
    assert(bound_post(mid, *state, end@, re));
    match re {
        Ok(b) => Ok((a, b)),
        Err(e) => Err(e),
    }
}

/// Strict lexicographic order of strings by their characters (the order
/// of `str`'s `<`: UTF-8 keeps the order of code points).
pub open spec fn seq_lt(a: Seq<char>, b: Seq<char>) -> bool
    decreases a.len(),
{
    if b.len() == 0 {
        false
    } else if a.len() == 0 {
        true
    } else if a[0] != b[0] {
        a[0] < b[0]
    } else {
        seq_lt(a.drop_first(), b.drop_first())
    }
}

proof fn lemma_lt_irreflexive(a: Seq<char>)
    ensures
        !seq_lt(a, a),
    decreases a.len(),
{
    if a.len() > 0 {
        lemma_lt_irreflexive(a.drop_first());
    }
}

proof fn lemma_lt_transitive(a: Seq<char>, b: Seq<char>, c: Seq<char>)
    requires
        seq_lt(a, b),
        seq_lt(b, c),
    ensures
        seq_lt(a, c),
    decreases a.len(),
{
    if a.len() > 0 && b.len() > 0 && c.len() > 0 && a[0] == b[0] && b[0] == c[0] {
        lemma_lt_transitive(a.drop_first(), b.drop_first(), c.drop_first());
    }
}

proof fn lemma_lt_total(a: Seq<char>, b: Seq<char>)
    requires
        a != b,
    ensures
        seq_lt(a, b) || seq_lt(b, a),
    decreases a.len(),
{
    if a.len() > 0 && b.len() > 0 {
        if a[0] == b[0] {
            if a.drop_first() =~= b.drop_first() {
                assert forall|i: int| 0 <= i < a.len() implies a[i] == b[i] by {
                    if i > 0 {
                        assert(a[i] == a.drop_first()[i - 1]);
                        assert(b[i] == b.drop_first()[i - 1]);
                    }
                }
                assert(a =~= b);
            } else {
                lemma_lt_total(a.drop_first(), b.drop_first());
            }
        }
    } else if a.len() == 0 && b.len() == 0 {
        assert(a =~= b);
    }
}

/// Whether `a` comes before `b`.
pub fn str_lt(a: &str, b: &str) -> (r: bool)
    ensures
        r == seq_lt(a@, b@),
{
    let n = a.unicode_len();
    let m = b.unicode_len();
    let mut i: usize = 0;
    assert(a@.skip(0) =~= a@);
    assert(b@.skip(0) =~= b@);
    while i < n && i < m
        invariant
            n == a@.len(),
            m == b@.len(),
            i <= n,
            i <= m,
            seq_lt(a@, b@) == seq_lt(a@.skip(i as int), b@.skip(i as int)),
        decreases n - i,
    {
        let ca = a.get_char(i);
        let cb = b.get_char(i);
        if ca != cb {
            return ca < cb;
        }
        assert(a@.skip(i as int).drop_first() =~= a@.skip(i + 1));
        assert(b@.skip(i as int).drop_first() =~= b@.skip(i + 1));
        i = i + 1;
    }
    i == n && i < m
}

/// Strictly increasing.
pub open spec fn strictly_sorted(s: Seq<String>) -> bool {
    forall|i: int, j: int| 0 <= i < j < s.len() ==> seq_lt(#[trigger] s[i]@, #[trigger] s[j]@)
}

/// `x` is the view of an element of `s`.
pub open spec fn holds_name(s: Seq<String>, x: Seq<char>) -> bool {
    exists|i: int| 0 <= i < s.len() && #[trigger] s[i]@ == x
}

/// A block that runs concurrently with the entry block: any block but the
/// entry block and the targets of branches.
pub open spec fn is_async_block(names: Seq<String>, branch_targets: Seq<String>, entry_block: Seq<char>, x: Seq<char>) -> bool {
    holds_name(names, x) && x != entry_block && !holds_name(branch_targets, x)
}

fn contains_name(v: &[String], name: &str) -> (r: bool)
    ensures
        r == holds_name(v@, name@),
{
    let mut i: usize = 0;
    while i < v.len()
        invariant
            i <= v@.len(),
            forall|j: int| 0 <= j < i ==> #[trigger] v@[j]@ != name@,
        decreases v.len() - i,
    {
        if str_eq(v[i].as_str(), name) {
            return true;
        }
        i = i + 1;
    }
    false
}

/// The blocks that run concurrently with the entry block, in the order of
/// their names: every block but the entry block and the targets of branch
/// nodes (given by name), each once.
pub fn build_async_blocks(names: &[String], branch_targets: &[String], entry_block: &str) -> (r: Vec<String>)
    ensures
        strictly_sorted(r@),
        forall|x: Seq<char>| holds_name(r@, x) <==> is_async_block(names@, branch_targets@, entry_block@, x),
{
    let mut out: Vec<String> = Vec::new();
    let mut k: usize = 0;
    while k < names.len()
        invariant
            k <= names@.len(),
            strictly_sorted(out@),
            forall|x: Seq<char>|
                holds_name(out@, x) <==> (is_async_block(names@.subrange(0, k as int), branch_targets@, entry_block@, x)),
        decreases names.len() - k,
    {
        let ghost prev = out@;
        let name = &names[k];
        let ghost x = name@;
        proof {
            assert forall|y: Seq<char>| holds_name(names@.subrange(0, k + 1), y) <==> (holds_name(
                names@.subrange(0, k as int),
                y,
            ) || y == x) by {
                if holds_name(names@.subrange(0, k + 1), y) {
                    let i = choose|i: int| 0 <= i < k + 1 && #[trigger] names@.subrange(0, k + 1)[i]@ == y;
                    if i < k {
                        assert(names@.subrange(0, k as int)[i] == names@.subrange(0, k + 1)[i]);
                    }
                }
                if holds_name(names@.subrange(0, k as int), y) {
                    let i = choose|i: int| 0 <= i < k && #[trigger] names@.subrange(0, k as int)[i]@ == y;
                    assert(names@.subrange(0, k + 1)[i] == names@.subrange(0, k as int)[i]);
                }
                if y == x {
                    assert(names@.subrange(0, k + 1)[k as int]@ == y);
                }
            }
        }
        let skip = str_eq(name.as_str(), entry_block) || contains_name(branch_targets, name.as_str());
        if !skip {
            let mut p: usize = 0;
            let mut more = true;
            while more && p < out.len()
                invariant
                    out@ == prev,
                    x == name@,
                    p <= out@.len(),
                    forall|i: int| 0 <= i < p ==> seq_lt(#[trigger] out@[i]@, x),
                    !more ==> p < out@.len() && !seq_lt(out@[p as int]@, x),
                decreases out.len() - p + if more { 1int } else { 0int },
            {
                if str_lt(out[p].as_str(), name.as_str()) {
                    p = p + 1;
                } else {
                    more = false;
                }
            }
            let duplicate = p < out.len() && str_eq(out[p].as_str(), name.as_str());
            if !duplicate {
                proof {
                    assert forall|j: int| p <= j < prev.len() implies seq_lt(x, #[trigger] prev[j]@) by {
                        assert(!seq_lt(prev[p as int]@, x));
                        lemma_lt_total(x, prev[p as int]@);
                        if j > p {
                            lemma_lt_transitive(x, prev[p as int]@, prev[j]@);
                        }
                    }
                }
                out.insert(p, name.clone());
                proof {
                    assert(out@ == prev.insert(p as int, *name));
                    assert forall|i: int, j: int| 0 <= i < j < out@.len() implies seq_lt(
                        #[trigger] out@[i]@,
                        #[trigger] out@[j]@,
                    ) by {
                        if j < p {
                            assert(out@[i] == prev[i] && out@[j] == prev[j]);
                        } else if j == p {
                            assert(out@[i] == prev[i]);
                        } else if i < p {
                            assert(out@[i] == prev[i] && out@[j] == prev[j - 1]);
                            lemma_lt_transitive(prev[i]@, x, prev[j - 1]@);
                        } else if i == p {
                            assert(out@[j] == prev[j - 1]);
                        } else {
                            assert(out@[i] == prev[i - 1] && out@[j] == prev[j - 1]);
                        }
                    }
                    assert forall|y: Seq<char>| holds_name(out@, y) <==> (holds_name(prev, y) || y == x) by {
                        if holds_name(out@, y) {
                            let i = choose|i: int| 0 <= i < out@.len() && #[trigger] out@[i]@ == y;
                            if i < p {
                                assert(prev[i] == out@[i]);
                            } else if i > p {
                                assert(prev[i - 1] == out@[i]);
                            }
                        }
                        if holds_name(prev, y) {
                            let i = choose|i: int| 0 <= i < prev.len() && #[trigger] prev[i]@ == y;
                            if i < p {
                                assert(out@[i] == prev[i]);
                            } else {
                                assert(out@[i + 1] == prev[i]);
                            }
                        }
                        if y == x {
                            assert(out@[p as int]@ == y);
                        }
                    }
                }
            } else {
                proof {
                    assert(holds_name(prev, x)) by {
                        assert(prev[p as int]@ == x);
                    }
                }
            }
        }
        proof {
            if skip {
                assert(out@ == prev);
            }
            assert forall|y: Seq<char>| holds_name(out@, y) <==> (holds_name(prev, y) || (y == x
                && x != entry_block@ && !holds_name(branch_targets@, x))) by {
                if skip {
                    assert(out@ == prev);
                }
            }
            assert forall|y: Seq<char>| holds_name(out@, y) <==> is_async_block(
                names@.subrange(0, k + 1),
                branch_targets@,
                entry_block@,
                y,
            ) by {
                assert(holds_name(prev, y) <==> is_async_block(names@.subrange(0, k as int), branch_targets@, entry_block@, y));
                assert(holds_name(names@.subrange(0, k + 1), y) <==> (holds_name(names@.subrange(0, k as int), y) || y == x));
            }
        }
        k = k + 1;
    }
    assert(names@.subrange(0, names@.len() as int) =~= names@);
    out
}


/// Why the scheduler refuses a yield.
#[derive(Clone, Copy, Debug, PartialEq, Eq, Structural)]
pub enum SchedulerError {
    AwaitRequired,
}

/// A yield of the entry block with `pending` uncollected runs and
/// `n_blocks` concurrent blocks: refused while runs are pending, else every
/// block is started. Gives the answer and the runs pending after.
pub open spec fn yield_spec(pending: nat, n_blocks: nat) -> (Result<nat, SchedulerError>, nat) {
    if pending > 0 {
        (Err(SchedulerError::AwaitRequired), pending)
    } else {
        (Ok(n_blocks), n_blocks)
    }
}

/// An await of the entry block: every pending run is collected. Gives how
/// many, and the runs pending after.
pub open spec fn await_spec(pending: nat) -> (nat, nat) {
    (pending, 0)
}

/// The bookkeeping of the blocks that run concurrently with the entry
/// block: which they are, and how many started runs await collection.
pub struct SchedulePlan {
    pub async_blocks: Vec<String>,
    pub pending: usize,
}

impl SchedulePlan {
    /// Runs started and not yet collected.
    pub open spec fn pending_spec(&self) -> nat {
        self.pending as nat
    }

    /// A plan over the given blocks, with nothing started.
    pub fn new(async_blocks: Vec<String>) -> (r: SchedulePlan)
        ensures
            r.async_blocks@ == async_blocks@,
            r.pending_spec() == 0,
    {
        SchedulePlan { async_blocks, pending: 0 }
    }

    /// A yield of the entry block, as `yield_spec` says; started blocks are
    /// the concurrent blocks, in order.
    pub fn on_yield(&mut self) -> (r: Result<usize, SchedulerError>)
        ensures
            final(self).async_blocks@ == old(self).async_blocks@,
            match yield_spec(old(self).pending_spec(), old(self).async_blocks@.len()) {
                (Ok(n), after) => r == Ok::<usize, SchedulerError>(n as usize) && final(self).pending_spec() == after,
                (Err(e), after) => r == Err::<usize, SchedulerError>(e) && final(self).pending_spec() == after,
            },
    {
        if self.pending > 0 {
            return Err(SchedulerError::AwaitRequired);
        }
        self.pending = self.async_blocks.len();
        Ok(self.pending)
    }

    /// An await of the entry block, as `await_spec` says: the result is the
    /// number of runs whose results are to be collected and merged now.
    pub fn on_await(&mut self) -> (r: usize)
        ensures
            final(self).async_blocks@ == old(self).async_blocks@,
            (r as nat, final(self).pending_spec()) == await_spec(old(self).pending_spec()),
    {
        let n = self.pending;
        self.pending = 0;
        n
    }
}

/// With concurrent blocks, two yields of the entry block need an await
/// between them: a second yield is refused and changes nothing, while after
/// an await that collects every started run the next yield starts them all
/// again.
pub proof fn law_yield_needs_await(n_blocks: nat)
    requires
        n_blocks > 0,
    ensures
        yield_spec(yield_spec(0, n_blocks).1, n_blocks) == (
            Err::<nat, SchedulerError>(SchedulerError::AwaitRequired),
            n_blocks,
        ),
        await_spec(yield_spec(0, n_blocks).1).0 == n_blocks,
        yield_spec(await_spec(yield_spec(0, n_blocks).1).1, n_blocks) == (Ok::<nat, SchedulerError>(n_blocks), n_blocks),
{
}

} // verus!
