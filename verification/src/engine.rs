//! What running one node of a block does to the runtime state, and what it
//! asks of the frame stack afterwards.
use vstd::prelude::*;
use crate::control_flow::{eval_branch_target, eval_loop_bounds, branch_read_post, loop_bounds_post, FlowError};
use crate::frames::{copy_ids, LoopFrame, NodeEffect};
use crate::graph::{copy_strings, Node, NodeKind};
use crate::runtime::{TraceEventKind, TraceTiming, YieldSnapshot};
use vstd::string::StringExecFns;
use crate::state::{
    await_post, cache_bump_post, cache_read_post, cache_reset_post, cache_write_post, ensure_output_post,
    register_assign_post, transfer_post, yield_post, RuntimeState, StateError,
};

verus! {

/// Why a node cannot run.
#[derive(Clone, Copy, Debug, PartialEq, Eq, Structural)]
pub enum NodeError {
    State(StateError),
    Flow(FlowError),
    DecrementOutOfRange,
}

/// What the caller does after a node ran: apply an effect to the frame
/// stack, or first run the node's operator on its prepared output.
#[derive(Clone, Debug)]
pub enum NodeStep {
    Effect(NodeEffect),
    RunOp,
}

/// The trace event kind of a node.
pub open spec fn kind_of(k: NodeKind) -> TraceEventKind {
    match k {
        NodeKind::Assign { .. } => TraceEventKind::Assign,
        NodeKind::Op { .. } => TraceEventKind::OpExecute,
        NodeKind::Branch { .. } => TraceEventKind::Branch,
        NodeKind::Loop { .. } => TraceEventKind::Loop,
        NodeKind::CacheRead { .. } => TraceEventKind::CacheRead,
        NodeKind::CacheWrite { .. } => TraceEventKind::CacheWrite,
        NodeKind::CacheIncrement { .. } => TraceEventKind::CacheIncrement,
        NodeKind::CacheDecrement { .. } => TraceEventKind::CacheDecrement,
        NodeKind::CacheReset { .. } => TraceEventKind::CacheReset,
        NodeKind::Barrier => TraceEventKind::Barrier,
        NodeKind::Dep { .. } => TraceEventKind::Dep,
        NodeKind::Transfer { .. } => TraceEventKind::Transfer,
        NodeKind::Yield { .. } => TraceEventKind::Yield,
        NodeKind::Await { .. } => TraceEventKind::Await,
        NodeKind::Return => TraceEventKind::Return,
    }
}

/// The trace event kind of a node.
pub fn node_event_kind(k: &NodeKind) -> (r: TraceEventKind)
    ensures
        r == kind_of(*k),
{
    match k {
        NodeKind::Assign { .. } => TraceEventKind::Assign,
        NodeKind::Op { .. } => TraceEventKind::OpExecute,
        NodeKind::Branch { .. } => TraceEventKind::Branch,
        NodeKind::Loop { .. } => TraceEventKind::Loop,
        NodeKind::CacheRead { .. } => TraceEventKind::CacheRead,
        NodeKind::CacheWrite { .. } => TraceEventKind::CacheWrite,
        NodeKind::CacheIncrement { .. } => TraceEventKind::CacheIncrement,
        NodeKind::CacheDecrement { .. } => TraceEventKind::CacheDecrement,
        NodeKind::CacheReset { .. } => TraceEventKind::CacheReset,
        NodeKind::Barrier => TraceEventKind::Barrier,
        NodeKind::Dep { .. } => TraceEventKind::Dep,
        NodeKind::Transfer { .. } => TraceEventKind::Transfer,
        NodeKind::Yield { .. } => TraceEventKind::Yield,
        NodeKind::Await { .. } => TraceEventKind::Await,
        NodeKind::Return => TraceEventKind::Return,
    }
}

/// A node that only changes the state: it continues, or fails with the
/// state's error.
pub open spec fn continues(ri: Result<(), StateError>, kind: TraceEventKind, r: Result<(NodeStep, TraceEventKind), NodeError>) -> bool {
    match ri {
        Ok(_) => r matches Ok((NodeStep::Effect(NodeEffect::Continue), k)) && k == kind,
        Err(e) => r == Err::<(NodeStep, TraceEventKind), NodeError>(NodeError::State(e)),
    }
}

/// What running a node gives and leaves, kind by kind: each one does what
/// the state's function for it says (see the `_post` functions of
/// `state` and `control_flow`).
pub open spec fn handle_post(
    before: RuntimeState,
    after: RuntimeState,
    node: Node,
    r: Result<(NodeStep, TraceEventKind), NodeError>,
) -> bool {
    let kind = kind_of(node.kind);
    match node.kind {
        NodeKind::Assign { name, dtype, dims } => exists|ri: Result<(), StateError>|
            #![trigger register_assign_post(before, after, name@, dtype, dims@, ri)]
            register_assign_post(before, after, name@, dtype, dims@, ri) && continues(ri, kind, r),
        NodeKind::Op { output, .. } => exists|ri: Result<(), StateError>|
            #![trigger ensure_output_post(before, after, output@, ri)]
            ensure_output_post(before, after, output@, ri) && match ri {
                Ok(_) => r matches Ok((NodeStep::RunOp, k)) && k == kind,
                Err(e) => r == Err::<(NodeStep, TraceEventKind), NodeError>(NodeError::State(e)),
            },
        NodeKind::Branch { cond, then_block, else_block } => match cond {
            None => (r matches Ok((NodeStep::Effect(NodeEffect::PushBlock(s)), k)) && s@ == then_block@ && k
                == kind) && after == before,
            Some(c) => exists|rb: Result<Option<String>, FlowError>|
                #![trigger branch_read_post(before, after, c@, then_block@, opt_view(else_block), rb)]
                branch_read_post(before, after, c@, then_block@, opt_view(else_block), rb) && match rb {
                    Ok(Some(t)) => r matches Ok((NodeStep::Effect(NodeEffect::PushBlock(s)), k)) && s@ == t@ && k
                        == kind,
                    Ok(None) => r matches Ok((NodeStep::Effect(NodeEffect::Continue), k)) && k == kind,
                    Err(e) => r == Err::<(NodeStep, TraceEventKind), NodeError>(NodeError::Flow(e)),
                },
        },
        NodeKind::Loop { index, start, end, body, .. } => exists|rl: Result<(i64, i64), FlowError>|
            #![trigger loop_bounds_post(before, after, start@, end@, rl)]
            loop_bounds_post(before, after, start@, end@, rl) && match rl {
                Ok((a, b)) => r matches Ok((NodeStep::Effect(NodeEffect::PushLoop(f)), k)) && f.index@ == index@
                    && f.current == a && f.end == b && f.body@ == body@ && k == kind,
                Err(e) => r == Err::<(NodeStep, TraceEventKind), NodeError>(NodeError::Flow(e)),
            },
        NodeKind::CacheRead { src, dst } => exists|ri: Result<(), StateError>|
            #![trigger cache_read_post(before, after, src, dst@, ri)]
            cache_read_post(before, after, src, dst@, ri) && continues(ri, kind, r),
        NodeKind::CacheWrite { src, dst } => exists|ri: Result<(), StateError>|
            #![trigger cache_write_post(before, after, src@, dst, ri)]
            cache_write_post(before, after, src@, dst, ri) && continues(ri, kind, r),
        NodeKind::CacheIncrement { target, amount } => exists|ri: Result<(), StateError>|
            #![trigger cache_bump_post(before, after, target@, amount, false, ri)]
            cache_bump_post(before, after, target@, amount, false, ri) && continues(ri, kind, r),
        NodeKind::CacheDecrement { target, amount } => if amount == i64::MIN {
            r == Err::<(NodeStep, TraceEventKind), NodeError>(NodeError::DecrementOutOfRange) && after == before
        } else {
            exists|ri: Result<(), StateError>|
                #![trigger cache_bump_post(before, after, target@, amount, true, ri)]
                cache_bump_post(before, after, target@, amount, true, ri) && continues(ri, kind, r)
        },
        NodeKind::CacheReset { target } => exists|ri: Result<(), StateError>|
            #![trigger cache_reset_post(before, after, target, ri)]
            cache_reset_post(before, after, target, ri) && continues(ri, kind, r),
        NodeKind::Transfer { src, dst } => exists|ri: Result<(), StateError>|
            #![trigger transfer_post(before, after, src@, dst@, ri)]
            transfer_post(before, after, src@, dst@, ri) && continues(ri, kind, r),
        NodeKind::Yield { vars } => exists|ry: Result<YieldSnapshot, StateError>|
            #![trigger yield_post(before, after, vars@, ry)]
            yield_post(before, after, vars@, ry) && match ry {
                Ok(snap) => r == Ok::<(NodeStep, TraceEventKind), NodeError>(
                    (NodeStep::Effect(NodeEffect::Yield(snap)), kind),
                ),
                Err(e) => r == Err::<(NodeStep, TraceEventKind), NodeError>(NodeError::State(e)),
            },
        NodeKind::Await { vars } => exists|ra: Result<(), StateError>|
            #![trigger await_post(before, after, vars@, ra)]
            await_post(before, after, vars@, ra) && match ra {
                Ok(_) => r matches Ok((NodeStep::Effect(NodeEffect::Await(v)), k)) && v@ == vars@ && k == kind,
                Err(e) => r == Err::<(NodeStep, TraceEventKind), NodeError>(NodeError::State(e)),
            },
        NodeKind::Barrier => r == Ok::<(NodeStep, TraceEventKind), NodeError>(
            (NodeStep::Effect(NodeEffect::Continue), kind),
        ) && after == before,
        NodeKind::Dep { .. } => r == Ok::<(NodeStep, TraceEventKind), NodeError>(
            (NodeStep::Effect(NodeEffect::Continue), kind),
        ) && after == before,
        NodeKind::Return => r == Ok::<(NodeStep, TraceEventKind), NodeError>(
            (NodeStep::Effect(NodeEffect::Return), kind),
        ) && after == before,
    }
}

/// An optional name as characters.
pub open spec fn opt_view(o: Option<String>) -> Option<Seq<char>> {
    match o {
        Some(s) => Some(s@),
        None => None,
    }
}

/// A state error as a node error.
fn state_step(ri: Result<(), StateError>, kind: TraceEventKind) -> (r: Result<(NodeStep, TraceEventKind), NodeError>)
    ensures
        continues(ri, kind, r),
{
    match ri {
        Ok(_) => Ok((NodeStep::Effect(NodeEffect::Continue), kind)),
        Err(e) => Err(NodeError::State(e)),
    }
}

/// The record of a node having run: its kind, position and identifier, the
/// block it ran in, and how long its operator took.
#[derive(Clone, Debug)]
pub struct TraceEvent {
    pub kind: TraceEventKind,
    pub node_index: usize,
    pub node_uuid: u128,
    pub block_name: String,
    pub timing: TraceTiming,
}

/// A timing of no time at all: `"0ms 0us 0ns"`, parts all zero.
pub open spec fn is_zero_timing(t: TraceTiming) -> bool {
    &&& t.ms == 0
    &&& t.us == 0
    &&& t.ns == 0
    &&& t.micros@ == "0ms 0us 0ns"@
}

/// The event of `node` with event kind `kind` having run in `block`, with
/// `timing` when it was measured and no time otherwise.
pub open spec fn event_matches(
    ev: TraceEvent,
    block: Seq<char>,
    node: Node,
    kind: TraceEventKind,
    timing: Option<TraceTiming>,
) -> bool {
    &&& ev.kind == kind
    &&& ev.node_index == node.index
    &&& ev.node_uuid == node.uuid
    &&& ev.block_name@ == block
    &&& match timing {
        Some(t) => ev.timing == t,
        None => is_zero_timing(ev.timing),
    }
}

/// A timing of no time at all.
pub fn zero_timing() -> (r: TraceTiming)
    ensures
        is_zero_timing(r),
{
    let micros = String::from_str("0ms 0us 0ns");
    TraceTiming { micros, ms: 0, us: 0, ns: 0 }
}

/// The trace event of `node` having run in `block_name` (see
/// `event_matches`).
pub fn build_event(block_name: &str, node: &Node, kind: TraceEventKind, timing: Option<TraceTiming>) -> (r: TraceEvent)
    ensures
        event_matches(r, block_name@, *node, kind, timing),
{
    let timing = match timing {
        Some(t) => t,
        None => zero_timing(),
    };
    TraceEvent {
        kind,
        node_index: node.index,
        node_uuid: node.uuid,
        block_name: String::from_str(block_name),
        timing,
    }
}

/// A node's result with its event reduced to the event's kind.
pub open spec fn step_kind(r: Result<(NodeStep, TraceEvent), NodeError>) -> Result<(NodeStep, TraceEventKind), NodeError> {
    match r {
        Ok((st, ev)) => Ok((st, ev.kind)),
        Err(e) => Err(e),
    }
}

/// Run one node of the block `block_name` (see `handle_post`) and give its
/// trace event, which holds no time: an operator node only gets its output
/// prepared here, and the caller that runs and times the operator builds
/// its event with `build_event`.
pub fn handle_node(state: &mut RuntimeState, block_name: &str, node: &Node) -> (r: Result<(NodeStep, TraceEvent), NodeError>)
    requires
        old(state).wf(),
    ensures
        final(state).wf(),
        handle_post(*old(state), *final(state), *node, step_kind(r)),
        r matches Ok((_, ev)) ==> event_matches(ev, block_name@, *node, kind_of(node.kind), None),
{
    match run_node(state, node) {
        Ok((st, kind)) => Ok((st, build_event(block_name, node, kind, None))),
        Err(e) => Err(e),
    }
}

/// Run one node (see `handle_post`) and give its event kind. An operator
/// node only gets its output prepared here: the caller runs the operator
/// itself.
pub fn run_node(state: &mut RuntimeState, node: &Node) -> (r: Result<(NodeStep, TraceEventKind), NodeError>)
    requires
        old(state).wf(),
    ensures
        final(state).wf(),
        handle_post(*old(state), *final(state), *node, r),
{
    let kind = node_event_kind(&node.kind);
    match &node.kind {
        NodeKind::Assign { name, dtype, dims } => {
            let ri = state.register_assign(name.as_str(), *dtype, dims.as_slice());
            assert(register_assign_post(*old(state), *state, name@, *dtype, dims@, ri));
            state_step(ri, kind)
        },
        NodeKind::Op { output, .. } => {
            let ri = state.ensure_output(output.as_str());
            assert(ensure_output_post(*old(state), *state, output@, ri));
            match ri {
                Ok(_) => Ok((NodeStep::RunOp, kind)),
                Err(e) => Err(NodeError::State(e)),
            }
        },
        NodeKind::Branch { cond, then_block, else_block } => {
            let c = match cond {
                Some(c) => Some(c.as_str()),
                None => None,
            };
            let e = match else_block {
                Some(b) => Some(b.as_str()),
                None => None,
            };
            let rb = eval_branch_target(state, c, then_block.as_str(), e);
            match cond {
                Some(cs) => {
                    assert(opt_view(*else_block) == match e {
                        Some(b) => Some(b@),
                        None => None::<Seq<char>>,
                    });
                    assert(branch_read_post(*old(state), *state, cs@, then_block@, opt_view(*else_block), rb));
                },
                None => {},
            }
            match rb {
                Ok(Some(t)) => Ok((NodeStep::Effect(NodeEffect::PushBlock(t)), kind)),
                Ok(None) => Ok((NodeStep::Effect(NodeEffect::Continue), kind)),
                Err(e) => Err(NodeError::Flow(e)),
            }
        },
        NodeKind::Loop { index, start, end, body, .. } => {
            let rl = eval_loop_bounds(state, start.as_str(), end.as_str());
            assert(loop_bounds_post(*old(state), *state, start@, end@, rl));
            match rl {
                Ok((a, b)) => Ok(
                    (
                        NodeStep::Effect(
                            NodeEffect::PushLoop(
                                LoopFrame { index: index.clone(), current: a, end: b, body: copy_ids(body) },
                            ),
                        ),
                        kind,
                    ),
                ),
                Err(e) => Err(NodeError::Flow(e)),
            }
        },
        NodeKind::CacheRead { src, dst } => {
            let ri = state.cache_read(src, dst.as_str());
            assert(cache_read_post(*old(state), *state, *src, dst@, ri));
            state_step(ri, kind)
        },
        NodeKind::CacheWrite { src, dst } => {
            let ri = state.cache_write(src.as_str(), dst);
            assert(cache_write_post(*old(state), *state, src@, *dst, ri));
            state_step(ri, kind)
        },
        NodeKind::CacheIncrement { target, amount } => {
            let ri = state.cache_bump(target.as_str(), *amount, false);
            assert(cache_bump_post(*old(state), *state, target@, *amount, false, ri));
            state_step(ri, kind)
        },
        NodeKind::CacheDecrement { target, amount } => {
            if *amount == i64::MIN {
                return Err(NodeError::DecrementOutOfRange);
            }
            let ri = state.cache_bump(target.as_str(), *amount, true);
            assert(cache_bump_post(*old(state), *state, target@, *amount, true, ri));
            state_step(ri, kind)
        },
        NodeKind::CacheReset { target } => {
            let ri = state.cache_reset(target);
            assert(cache_reset_post(*old(state), *state, *target, ri));
            state_step(ri, kind)
        },
        NodeKind::Transfer { src, dst } => {
            let ri = state.transfer_var(src.as_str(), dst.as_str());
            assert(transfer_post(*old(state), *state, src@, dst@, ri));
            state_step(ri, kind)
        },
        NodeKind::Yield { vars } => {
            let ry = state.handle_yield(vars.as_slice());
            assert(yield_post(*old(state), *state, vars@, ry));
            match ry {
                Ok(snap) => Ok((NodeStep::Effect(NodeEffect::Yield(snap)), kind)),
                Err(e) => Err(NodeError::State(e)),
            }
        },
        NodeKind::Await { vars } => {
            let ra = state.handle_await(vars.as_slice());
            assert(await_post(*old(state), *state, vars@, ra));
            match ra {
                Ok(_) => Ok((NodeStep::Effect(NodeEffect::Await(copy_strings(vars))), kind)),
                Err(e) => Err(NodeError::State(e)),
            }
        },
        NodeKind::Barrier => Ok((NodeStep::Effect(NodeEffect::Continue), kind)),
        NodeKind::Dep { .. } => Ok((NodeStep::Effect(NodeEffect::Continue), kind)),
        NodeKind::Return => Ok((NodeStep::Effect(NodeEffect::Return), kind)),
    }
}

} // verus!
