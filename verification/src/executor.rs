//! Running a graph one step at a time: the frame stack says which node runs
//! next, the node runs against the runtime state, and its effect goes back
//! to the frame stack. Operators, and the blocks that run alongside the
//! entry block, are left to the caller.
use vstd::prelude::*;
use crate::engine::{run_node, handle_post, kind_of, NodeError, NodeStep};
use crate::frames::NodeEffect;
use crate::frames::{
    advance_spec, apply_post, copy_ids, law_loop_runs_body_per_index, lemma_run_steps_split, loop_actions, loop_steps,
    run_steps, frame_nodes, lemma_frame_nodes_fit, ActionView, BlockNodes, FrameError, FrameStack, FrameView, Followup,
    StepAction,
};
use crate::graph::{Node, NodeKind};
use crate::control_flow::{build_async_blocks, holds_name, strictly_sorted};
use crate::runtime::{TraceEventKind, YieldSnapshot};
use crate::state::{decl_for_spec, get_tensor_post, insert_dynamic_post, loop_vars_post, RuntimeState, StateError};
use crate::tensor::TensorValue;
use crate::text::str_eq;

verus! {

/// Why a step cannot be taken.
#[derive(Clone, Debug)]
pub enum ExecError {
    Node(usize, NodeError),
    Frame(FrameError),
    UnknownNode,
    NoBlocks,
    UnknownBlock,
}

/// What one step did: nothing was left; the frame stack moved on without
/// running a node; a node ran; an operator node is prepared and its
/// operator is for the caller to run; the entry block yielded or awaited,
/// which is for the caller's scheduler.
#[derive(Clone, Debug)]
pub enum StepOutcome {
    Finished,
    Housekeeping,
    Ran { node: usize, kind: TraceEventKind },
    RunOp { node: usize, kind: TraceEventKind },
    Yielded { node: usize, kind: TraceEventKind, snapshot: YieldSnapshot },
    Awaited { node: usize, kind: TraceEventKind, vars: Vec<String> },
}

/// A graph being run: the runtime state, the graph's nodes, its blocks by
/// name, the frame stack, and the entry block (none for a block run on its
/// own).
pub struct Executor {
    pub state: RuntimeState,
    pub nodes: Vec<Node>,
    pub blocks: Vec<BlockNodes>,
    pub frames: FrameStack,
    pub entry_block: Option<String>,
    /// The block of the node that ran last.
    pub last_block: String,
}

/// An optional name as characters.
pub open spec fn entry_view(e: Option<String>) -> Option<Seq<char>> {
    match e {
        Some(s) => Some(s@),
        None => None,
    }
}

/// `i` is the block a run starts with: the first one named `entry`, or the
/// first block when none is.
pub open spec fn is_start_block(blocks: Seq<BlockNodes>, i: int) -> bool {
    &&& 0 <= i < blocks.len()
    &&& if exists|j: int| 0 <= j < blocks.len() && #[trigger] blocks[j].name@ == "entry"@ {
        blocks[i].name@ == "entry"@ && forall|j: int| 0 <= j < i ==> #[trigger] blocks[j].name@ != "entry"@
    } else {
        i == 0
    }
}

/// What one step gives and leaves (see `Executor::step`).
pub open spec fn step_post(before: Executor, after: Executor, r: Result<StepOutcome, ExecError>) -> bool {
    let f1 = advance_spec(before.frames@).0;
    let action = advance_spec(before.frames@).1;
    &&& after.nodes == before.nodes
    &&& after.blocks == before.blocks
    &&& after.entry_block == before.entry_block
    &&& match action {
        ActionView::Run(b, _) => after.last_block@ == b,
        _ => after.last_block == before.last_block,
    }
    &&& match action {
        ActionView::Finished => r == Ok::<StepOutcome, ExecError>(StepOutcome::Finished) && after.state
            == before.state && after.frames@ == f1,
        ActionView::ClearLoopVar(i) => r == Ok::<StepOutcome, ExecError>(StepOutcome::Housekeeping)
            && after.frames@ == f1 && loop_vars_post(before.state, after.state, before.state.loop_vars@.remove(i)),
        ActionView::SetLoopVar(i, v) => r == Ok::<StepOutcome, ExecError>(StepOutcome::Housekeeping)
            && after.frames@ == f1 && loop_vars_post(before.state, after.state, before.state.loop_vars@.insert(i, v)),
        ActionView::Run(b, n) => if n >= before.nodes@.len() {
            r == Err::<StepOutcome, ExecError>(ExecError::UnknownNode) && after.state == before.state
                && after.frames@ == f1
        } else {
            exists|mid: RuntimeState, hr: Result<(NodeStep, TraceEventKind), NodeError>|
                #![trigger handle_post(before.state, mid, before.nodes@[n as int], hr)]
                handle_post(before.state, mid, before.nodes@[n as int], hr) && run_post(
                    f1,
                    b,
                    n,
                    before,
                    mid,
                    after,
                    hr,
                    r,
                )
        },
    }
}

/// After node `n` of block `b` ran from the stack `f1` and left the state
/// `mid` (see `handle_post`): an operator is for the caller; any other
/// effect goes to the stack (see `apply_post`), and a new loop's index is
/// set.
pub open spec fn run_post(
    f1: Seq<FrameView>,
    b: Seq<char>,
    n: usize,
    before: Executor,
    mid: RuntimeState,
    after: Executor,
    hr: Result<(NodeStep, TraceEventKind), NodeError>,
    r: Result<StepOutcome, ExecError>,
) -> bool {
    match hr {
        Err(e) => r == Err::<StepOutcome, ExecError>(ExecError::Node(n, e)) && after.state == mid && after.frames@ == f1,
        Ok((NodeStep::RunOp, k)) => r == Ok::<StepOutcome, ExecError>(StepOutcome::RunOp { node: n, kind: k })
            && after.state == mid && after.frames@ == f1,
        Ok((NodeStep::Effect(eff), k)) => exists|fr: Result<Followup, FrameError>|
            #![trigger apply_post(f1, after.frames@, b, eff, entry_view(before.entry_block), before.blocks@, fr)]
            apply_post(f1, after.frames@, b, eff, entry_view(before.entry_block), before.blocks@, fr) && follow_post(
                n,
                k,
                mid,
                after.state,
                fr,
                r,
            ),
    }
}

/// What the caller still has to do once an effect was applied.
pub open spec fn follow_post(
    n: usize,
    k: TraceEventKind,
    mid: RuntimeState,
    after: RuntimeState,
    fr: Result<Followup, FrameError>,
    r: Result<StepOutcome, ExecError>,
) -> bool {
    match fr {
        Err(e) => r == Err::<StepOutcome, ExecError>(ExecError::Frame(e)) && after == mid,
        Ok(Followup::Nothing) => r == Ok::<StepOutcome, ExecError>(StepOutcome::Ran { node: n, kind: k }) && after == mid,
        Ok(Followup::SetLoopVar(i, v)) => r == Ok::<StepOutcome, ExecError>(StepOutcome::Ran { node: n, kind: k })
            && loop_vars_post(mid, after, mid.loop_vars@.insert(i@, v)),
        Ok(Followup::ForwardYield(s)) => r == Ok::<StepOutcome, ExecError>(
            StepOutcome::Yielded { node: n, kind: k, snapshot: s },
        ) && after == mid,
        Ok(Followup::ForwardAwait(vs)) => r == Ok::<StepOutcome, ExecError>(
            StepOutcome::Awaited { node: n, kind: k, vars: vs },
        ) && after == mid,
    }
}

/// `x` is a target of the branch node `k`.
pub open spec fn targets(k: NodeKind, x: Seq<char>) -> bool {
    match k {
        NodeKind::Branch { then_block, else_block, .. } => then_block@ == x || (else_block matches Some(e) && e@ == x),
        _ => false,
    }
}

/// `x` is a target of a branch node at the top of some block.
pub open spec fn is_branch_target(nodes: Seq<Node>, blocks: Seq<BlockNodes>, x: Seq<char>) -> bool {
    exists|b: int, j: int|
        0 <= b < blocks.len() && 0 <= j < blocks[b].nodes@.len() && blocks[b].nodes@[j] < nodes.len() && #[trigger] targets(
            nodes[blocks[b].nodes@[j] as int].kind,
            x,
        )
}

/// The targets of the branch nodes at the top of the blocks.
pub fn branch_targets(nodes: &[Node], blocks: &[BlockNodes]) -> (r: Vec<String>)
    ensures
        forall|x: Seq<char>| holds_name(r@, x) <==> is_branch_target(nodes@, blocks@, x),
{
    let mut out: Vec<String> = Vec::new();
    let mut b: usize = 0;
    while b < blocks.len()
        invariant
            b <= blocks@.len(),
            forall|x: Seq<char>|
                holds_name(out@, x) <==> exists|b2: int, j: int|
                    0 <= b2 < b && 0 <= j < blocks@[b2].nodes@.len() && blocks@[b2].nodes@[j] < nodes@.len()
                        && #[trigger] targets(nodes@[blocks@[b2].nodes@[j] as int].kind, x),
        decreases blocks@.len() - b,
    {
        let ids = &blocks[b].nodes;
        let mut j: usize = 0;
        while j < ids.len()
            invariant
                b < blocks@.len(),
                ids == blocks@[b as int].nodes,
                j <= ids@.len(),
                forall|x: Seq<char>|
                    holds_name(out@, x) <==> exists|b2: int, j2: int|
                        ((0 <= b2 < b && 0 <= j2 < blocks@[b2].nodes@.len()) || (b2 == b && 0 <= j2 < j))
                            && blocks@[b2].nodes@[j2] < nodes@.len() && #[trigger] targets(
                            nodes@[blocks@[b2].nodes@[j2] as int].kind,
                            x,
                        ),
            decreases ids@.len() - j,
        {
            let id = ids[j];
            let ghost before = out@;
            if id < nodes.len() {
                match &nodes[id].kind {
                    NodeKind::Branch { then_block, else_block, .. } => {
                        out.push(then_block.clone());
                        match else_block {
                            Some(e) => out.push(e.clone()),
                            None => {},
                        }
                    },
                    _ => {},
                }
            }
            proof {
                assert forall|x: Seq<char>|
                    holds_name(out@, x) <==> exists|b2: int, j2: int|
                        ((0 <= b2 < b && 0 <= j2 < blocks@[b2].nodes@.len()) || (b2 == b && 0 <= j2 < j + 1))
                            && blocks@[b2].nodes@[j2] < nodes@.len() && #[trigger] targets(
                            nodes@[blocks@[b2].nodes@[j2] as int].kind,
                            x,
                        ) by {
                    if holds_name(out@, x) {
                        let i = choose|i: int| 0 <= i < out@.len() && #[trigger] out@[i]@ == x;
                        if i < before.len() {
                            assert(before[i]@ == x);
                            assert(holds_name(before, x));
                        } else {
                            assert(targets(nodes@[blocks@[b as int].nodes@[j as int] as int].kind, x));
                        }
                    }
                    if exists|b2: int, j2: int|
                        ((0 <= b2 < b && 0 <= j2 < blocks@[b2].nodes@.len()) || (b2 == b && 0 <= j2 < j + 1))
                            && blocks@[b2].nodes@[j2] < nodes@.len() && #[trigger] targets(
                            nodes@[blocks@[b2].nodes@[j2] as int].kind,
                            x,
                        ) {
                        let (b2, j2) = choose|b2: int, j2: int|
                            ((0 <= b2 < b && 0 <= j2 < blocks@[b2].nodes@.len()) || (b2 == b && 0 <= j2 < j + 1))
                                && blocks@[b2].nodes@[j2] < nodes@.len() && #[trigger] targets(
                                nodes@[blocks@[b2].nodes@[j2] as int].kind,
                                x,
                            );
                        if b2 == b && j2 == j {
                            match nodes@[id as int].kind {
                                NodeKind::Branch { then_block, else_block, .. } => {
                                    if then_block@ == x {
                                        assert(out@[before.len() as int]@ == x);
                                    } else {
                                        assert(out@[before.len() as int + 1]@ == x);
                                    }
                                },
                                _ => {},
                            }
                        } else {
                            assert(holds_name(before, x));
                            let i = choose|i: int| 0 <= i < before.len() && #[trigger] before[i]@ == x;
                            assert(out@[i] == before[i]);
                        }
                    }
                }
            }
            j = j + 1;
        }
        b = b + 1;
    }
    out
}

impl Executor {
    /// The blocks that run alongside the entry block: all but the entry
    /// block and branch targets, by name in order (see `build_async_blocks`).
    pub fn async_blocks(&self) -> (r: Vec<String>)
        ensures
            self.entry_block matches Some(entry) ==> strictly_sorted(r@) && forall|x: Seq<char>|
                holds_name(r@, x) <==> (exists|b: int| 0 <= b < self.blocks@.len() && #[trigger] self.blocks@[b].name@ == x)
                    && x != entry@ && !is_branch_target(self.nodes@, self.blocks@, x),
            self.entry_block is None ==> r@.len() == 0,
    {
        let entry = match &self.entry_block {
            Some(e) => e,
            None => return Vec::new(),
        };
        let mut names: Vec<String> = Vec::new();
        let mut i: usize = 0;
        while i < self.blocks.len()
            invariant
                i <= self.blocks@.len(),
                names@.len() == i,
                forall|k: int| 0 <= k < i ==> (#[trigger] names@[k]) == self.blocks@[k].name,
            decreases self.blocks@.len() - i,
        {
            names.push(self.blocks[i].name.clone());
            i = i + 1;
        }
        let targets = branch_targets(self.nodes.as_slice(), self.blocks.as_slice());
        let r = build_async_blocks(names.as_slice(), targets.as_slice(), entry.as_str());
        proof {
            assert forall|x: Seq<char>|
                holds_name(names@, x) <==> (exists|b: int| 0 <= b < self.blocks@.len() && #[trigger] self.blocks@[b].name@ == x) by {
                if holds_name(names@, x) {
                    let k = choose|k: int| 0 <= k < names@.len() && #[trigger] names@[k]@ == x;
                    assert(self.blocks@[k].name@ == x);
                }
                if exists|b: int| 0 <= b < self.blocks@.len() && #[trigger] self.blocks@[b].name@ == x {
                    let b = choose|b: int| 0 <= b < self.blocks@.len() && #[trigger] self.blocks@[b].name@ == x;
                    assert(names@[b]@ == x);
                }
            }
        }
        r
    }
}

impl Executor {
    /// Well formed: the state and the frame stack.
    pub open spec fn wf(&self) -> bool {
        self.state.wf() && self.frames.wf()
    }

    /// The position of the first block named `name`.
    fn find_block(blocks: &[BlockNodes], name: &str) -> (r: Option<usize>)
        ensures
            match r {
                Some(i) => i < blocks@.len() && blocks@[i as int].name@ == name@ && forall|j: int|
                    0 <= j < i ==> #[trigger] blocks@[j].name@ != name@,
                None => forall|j: int| 0 <= j < blocks@.len() ==> #[trigger] blocks@[j].name@ != name@,
            },
    {
        let mut i: usize = 0;
        while i < blocks.len()
            invariant
                i <= blocks@.len(),
                forall|j: int| 0 <= j < i ==> #[trigger] blocks@[j].name@ != name@,
            decreases blocks@.len() - i,
        {
            if str_eq(blocks[i].name.as_str(), name) {
                return Some(i);
            }
            i = i + 1;
        }
        None
    }

    /// An executor for a graph: it starts at the first node of the block
    /// named `entry`, or of the first block when none is; a graph without
    /// blocks is refused.
    pub fn new(state: RuntimeState, nodes: Vec<Node>, blocks: Vec<BlockNodes>) -> (r: Result<Executor, ExecError>)
        requires
            state.wf(),
        ensures
            blocks@.len() == 0 <==> r matches Err(ExecError::NoBlocks),
            r matches Ok(ex) ==> ex.wf() && ex.state == state && ex.nodes == nodes && ex.blocks == blocks
                && exists|i: int|
                #[trigger] is_start_block(blocks@, i) && ex.entry_block == Some(blocks@[i].name) && ex.frames@
                    == seq![FrameView::Block { block_name: blocks@[i].name@, nodes: blocks@[i].nodes@, pos: 0 }],
    {
        if blocks.len() == 0 {
            return Err(ExecError::NoBlocks);
        }
        let i = match Self::find_block(blocks.as_slice(), "entry") {
            Some(i) => i,
            None => 0,
        };
        proof {
            reveal_strlit("entry");
            assert(is_start_block(blocks@, i as int));
        }
        let name = blocks[i].name.clone();
        let frames = FrameStack::for_block(blocks[i].name.clone(), copy_ids(&blocks[i].nodes));
        Ok(Executor { state, nodes, blocks, frames, entry_block: Some(name), last_block: String::new() })
    }

    /// An executor for the block `name` on its own, as a block run beside
    /// the entry block is run.
    pub fn for_block(state: RuntimeState, nodes: Vec<Node>, blocks: Vec<BlockNodes>, name: &str) -> (r: Result<
        Executor,
        ExecError,
    >)
        requires
            state.wf(),
        ensures
            (forall|j: int| 0 <= j < blocks@.len() ==> #[trigger] blocks@[j].name@ != name@) <==> r matches Err(
                ExecError::UnknownBlock,
            ),
            r matches Ok(ex) ==> ex.wf() && ex.state == state && ex.nodes == nodes && ex.blocks == blocks
                && ex.entry_block is None && exists|i: int|
                0 <= i < blocks@.len() && #[trigger] blocks@[i].name@ == name@ && ex.frames@ == seq![
                    FrameView::Block { block_name: name@, nodes: blocks@[i].nodes@, pos: 0 },
                ],
    {
        let i = match Self::find_block(blocks.as_slice(), name) {
            Some(i) => i,
            None => return Err(ExecError::UnknownBlock),
        };
        let frames = FrameStack::for_block(blocks[i].name.clone(), copy_ids(&blocks[i].nodes));
        Ok(Executor { state, nodes, blocks, frames, entry_block: None, last_block: String::new() })
    }

    /// Take one step (see `step_post`): the frame stack's next action, and
    /// when it runs a node, the node against the state and its effect on
    /// the stack.
    #[verifier::spinoff_prover]
    #[verifier::rlimit(40)]
    pub fn step(&mut self) -> (r: Result<StepOutcome, ExecError>)
        requires
            old(self).wf(),
        ensures
            final(self).wf(),
            step_post(*old(self), *final(self), r),
    {
        let action = self.frames.next_action();
        match action {
            StepAction::Finished => {
                return Ok(StepOutcome::Finished);
            },
            StepAction::ClearLoopVar(i) => {
                self.state.clear_loop_var(i.as_str());
                Ok(StepOutcome::Housekeeping)
            },
            StepAction::SetLoopVar(i, v) => {
                self.state.set_loop_var(i.as_str(), v);
                Ok(StepOutcome::Housekeeping)
            },
            StepAction::Run { block_name, node } => {
                self.last_block = block_name.clone();
                if node >= self.nodes.len() {
                    return Err(ExecError::UnknownNode);
                }
                let ghost f1 = self.frames@;
                let hr = run_node(&mut self.state, &self.nodes[node]);
                let ghost mid = self.state;
                assert(handle_post(old(self).state, mid, old(self).nodes@[node as int], hr));
                let (st, kind) = match hr {
                    Ok(x) => x,
                    Err(e) => return Err(ExecError::Node(node, e)),
                };
                match st {
                    NodeStep::RunOp => {
                        let r = Ok(StepOutcome::RunOp { node, kind });
                        assert(run_post(f1, block_name@, node, *old(self), mid, *self, hr, r));
                        r
                    },
                    NodeStep::Effect(eff) => {
                        let ghost geff = eff;
                        let entry = match &self.entry_block {
                            Some(e) => Some(e.as_str()),
                            None => None,
                        };
                        assert(entry_view(self.entry_block) == match entry {
                            Some(e) => Some(e@),
                            None => None::<Seq<char>>,
                        });
                        let fr = self.frames.apply_effect(block_name.as_str(), eff, entry, self.blocks.as_slice());
                        assert(apply_post(f1, self.frames@, block_name@, geff, entry_view(self.entry_block), self.blocks@, fr));
                        let ghost gfr = fr;
                        let r = match fr {
                            Err(e) => Err(ExecError::Frame(e)),
                            Ok(Followup::Nothing) => Ok(StepOutcome::Ran { node, kind }),
                            Ok(Followup::SetLoopVar(i, v)) => {
                                self.state.set_loop_var(i.as_str(), v);
                                Ok(StepOutcome::Ran { node, kind })
                            },
                            Ok(Followup::ForwardYield(snapshot)) => Ok(StepOutcome::Yielded { node, kind, snapshot }),
                            Ok(Followup::ForwardAwait(vars)) => Ok(StepOutcome::Awaited { node, kind, vars }),
                        };
                        assert(follow_post(node, kind, mid, self.state, gfr, r));
                        assert(run_post(f1, block_name@, node, *old(self), mid, *self, hr, r));
                        r
                    },
                }
            },
        }
    }
    /// Hand in `value` under `name` (see `RuntimeState::insert_dynamic`).
    pub fn insert_dynamic(&mut self, name: &str, value: TensorValue) -> (r: Result<(), StateError>)
        requires
            old(self).wf(),
            value.wf(),
        ensures
            final(self).wf(),
            final(self).frames@ == old(self).frames@,
            final(self).nodes == old(self).nodes,
            final(self).blocks == old(self).blocks,
            final(self).entry_block == old(self).entry_block,
            decl_for_spec(old(self).state.vars@, name@) is None ==> r == Err::<(), StateError>(
                StateError::UnknownVariable,
            ) && final(self).state == old(self).state,
            decl_for_spec(old(self).state.vars@, name@) is Some ==> r is Ok && insert_dynamic_post(
                old(self).state,
                final(self).state,
                name@,
                value@,
            ),
    {
        self.state.insert_dynamic(name, value)
    }

    /// The value of `name` (see `get_tensor_post`).
    pub fn fetch_raw(&mut self, name: &str) -> (r: Result<TensorValue, StateError>)
        requires
            old(self).wf(),
        ensures
            final(self).wf(),
            final(self).frames@ == old(self).frames@,
            final(self).nodes == old(self).nodes,
            final(self).blocks == old(self).blocks,
            final(self).entry_block == old(self).entry_block,
            get_tensor_post(old(self).state, final(self).state, name@, r),
    {
        self.state.get_tensor(name)
    }
}

/// A node kind whose nodes, when they succeed, only move on to the next
/// node: neither a branch, a loop, a yield, an await nor a return.
pub open spec fn plain_kind(k: TraceEventKind) -> bool {
    match k {
        TraceEventKind::Branch | TraceEventKind::Loop | TraceEventKind::Yield | TraceEventKind::Await
        | TraceEventKind::Return => false,
        _ => true,
    }
}

/// A step that moved on without changing the stack's shape: a loop index
/// set or cleared, an operator left to the caller, or a plain node run.
pub open spec fn moves_on(r: Result<StepOutcome, ExecError>) -> bool {
    match r {
        Ok(StepOutcome::Housekeeping) => true,
        Ok(StepOutcome::RunOp { .. }) => true,
        Ok(StepOutcome::Ran { kind, .. }) => plain_kind(kind),
        _ => false,
    }
}

/// A step that moves on leaves the stack as its next action leaves it.
proof fn lemma_moves_on(e: Executor, e2: Executor, r: Result<StepOutcome, ExecError>)
    requires
        step_post(e, e2, r),
        moves_on(r),
    ensures
        e2.frames@ == advance_spec(e.frames@).0,
{
    let f1 = advance_spec(e.frames@).0;
    match advance_spec(e.frames@).1 {
        ActionView::Run(b, n) => {
            let (mid, hr) = choose|mid: RuntimeState, hr: Result<(NodeStep, TraceEventKind), NodeError>|
                handle_post(e.state, mid, e.nodes@[n as int], hr) && run_post(f1, b, n, e, mid, e2, hr, r);
            match hr {
                Ok((NodeStep::Effect(eff), k)) => {
                    assert(k == kind_of(e.nodes@[n as int].kind));
                    assert(plain_kind(k));
                    assert(eff == NodeEffect::Continue);
                    let fr = choose|fr: Result<Followup, FrameError>|
                        apply_post(f1, e2.frames@, b, eff, entry_view(e.entry_block), e.blocks@, fr) && follow_post(
                            n,
                            k,
                            mid,
                            e2.state,
                            fr,
                            r,
                        );
                },
                _ => {},
            }
        },
        _ => {},
    }
}

/// The actions of `k` steps in a row, by the stacks they start from.
proof fn lemma_steps_follow(es: Seq<Executor>, rs: Seq<Result<StepOutcome, ExecError>>, j: nat)
    requires
        es.len() == rs.len() + 1,
        j <= rs.len(),
        forall|i: int| 0 <= i < rs.len() ==> step_post(#[trigger] es[i], es[i + 1], rs[i]) && moves_on(rs[i]),
    ensures
        es[j as int].frames@ == run_steps(es[0].frames@, j).0,
    decreases j,
{
    if j > 0 {
        let p = (j - 1) as int;
        lemma_steps_follow(es, rs, p as nat);
        assert(step_post(es[p], es[p + 1], rs[p]) && moves_on(rs[p]));
        lemma_moves_on(es[p], es[p + 1], rs[p]);
        lemma_run_steps_split(es[0].frames@, p as nat, 1);
        let m = run_steps(es[0].frames@, p as nat).0;
        assert(run_steps(advance_spec(m).0, 0).0 == advance_spec(m).0);
        assert(run_steps(m, 1).0 == advance_spec(m).0);
        assert(p as nat + 1 == j);
    }
}

/// The action step `j` takes is the `j`-th of the first `n` steps' actions.
proof fn lemma_action_at(es: Seq<Executor>, rs: Seq<Result<StepOutcome, ExecError>>, j: int, n: nat)
    requires
        es.len() == rs.len() + 1,
        n == rs.len(),
        0 <= j < n,
        forall|i: int| 0 <= i < rs.len() ==> step_post(#[trigger] es[i], es[i + 1], rs[i]) && moves_on(rs[i]),
    ensures
        advance_spec(es[j].frames@).1 == run_steps(es[0].frames@, n).1[j],
{
    let s0 = es[0].frames@;
    lemma_steps_follow(es, rs, j as nat);
    lemma_run_steps_split(s0, j as nat, (n - j) as nat);
    assert(j as nat + (n - j) as nat == n);
    let mid = run_steps(s0, j as nat).0;
    lemma_run_len(s0, j as nat);
    assert(run_steps(mid, (n - j) as nat).1[0] == advance_spec(mid).1);
}

/// The last action of a loop clears its index.
proof fn lemma_loop_ends_clearing(block_name: Seq<char>, index: Seq<char>, body: Seq<usize>, counter: i64, end: i64)
    ensures
        loop_actions(block_name, index, body, counter, end).len() > 0,
        loop_actions(block_name, index, body, counter, end).last() == ActionView::ClearLoopVar(index),
    decreases end - counter,
{
    if counter < end {
        lemma_loop_ends_clearing(block_name, index, body, (counter + 1) as i64, end);
    }
}

/// A loop on top of the stack, whose body's nodes all move on, runs through
/// successive steps exactly as the loop's actions say: for each index value
/// from its counter up to its end, every node of the body in order and then
/// the index set to the next value, and at the end the index cleared. The
/// stack is then what it was below the loop, and the index is no longer
/// bound.
pub proof fn law_executor_runs_loop(
    es: Seq<Executor>,
    rs: Seq<Result<StepOutcome, ExecError>>,
    rest: Seq<FrameView>,
    block_name: Seq<char>,
    index: Seq<char>,
    counter: i64,
    end: i64,
    body: Seq<usize>,
)
    requires
        es.len() == rs.len() + 1,
        rs.len() == loop_steps(body.len(), counter, end),
        es[0].frames@ == rest.push(FrameView::Loop { block_name, index, counter, end, nodes: body, pos: 0 }),
        forall|i: int| 0 <= i < rs.len() ==> step_post(#[trigger] es[i], es[i + 1], rs[i]) && moves_on(rs[i]),
    ensures
        es.last().frames@ == rest,
        forall|j: int|
            0 <= j < rs.len() ==> advance_spec(#[trigger] es[j].frames@).1 == loop_actions(
                block_name,
                index,
                body,
                counter,
                end,
            )[j],
        forall|j: int|
            0 <= j < rs.len() ==> (loop_actions(block_name, index, body, counter, end)[j] matches ActionView::SetLoopVar(
                i,
                v,
            ) ==> (#[trigger] es[j + 1]).state.loop_vars@ == es[j].state.loop_vars@.insert(i, v)),
        !es.last().state.loop_vars@.contains_key(index),
{
    let n = rs.len();
    let s0 = es[0].frames@;
    lemma_top_loop_fits(es[0], rest, block_name, index, counter, end, body);
    law_loop_runs_body_per_index(rest, block_name, index, counter, end, body);
    lemma_steps_follow(es, rs, n);
    let acts = loop_actions(block_name, index, body, counter, end);
    assert(run_steps(s0, n) == (rest, acts));
    assert forall|j: int| 0 <= j < rs.len() implies advance_spec(#[trigger] es[j].frames@).1 == acts[j] by {
        lemma_action_at(es, rs, j, n);
    }
    assert forall|j: int| 0 <= j < rs.len() implies (acts[j] matches ActionView::SetLoopVar(i, v)
        ==> (#[trigger] es[j + 1]).state.loop_vars@ == es[j].state.loop_vars@.insert(i, v)) by {
        lemma_action_at(es, rs, j, n);
        assert(step_post(es[j], es[j + 1], rs[j]));
    }
    lemma_loop_ends_clearing(block_name, index, body, counter, end);
    lemma_run_len(s0, n);
    let last = (n - 1) as int;
    assert(acts.len() == n);
    assert(acts[last] == acts.last());
    assert(advance_spec(es[last].frames@).1 == ActionView::ClearLoopVar(index));
    assert(step_post(es[last], es[last + 1], rs[last]));
    assert(es[last + 1] == es.last());
}

/// The body of the loop on top of an executor's stack fits a `usize` count.
proof fn lemma_top_loop_fits(
    e: Executor,
    rest: Seq<FrameView>,
    block_name: Seq<char>,
    index: Seq<char>,
    counter: i64,
    end: i64,
    body: Seq<usize>,
)
    requires
        e.frames@ == rest.push(FrameView::Loop { block_name, index, counter, end, nodes: body, pos: 0 }),
    ensures
        body.len() <= usize::MAX,
{
    lemma_frame_nodes_fit(e.frames);
    let s = e.frames@;
    assert(s[s.len() - 1] == FrameView::Loop { block_name, index, counter, end, nodes: body, pos: 0 });
    assert(frame_nodes(s[s.len() - 1]) == body);
}

/// `k` steps take `k` actions.
proof fn lemma_run_len(s: Seq<FrameView>, k: nat)
    ensures
        run_steps(s, k).1.len() == k,
    decreases k,
{
    if k > 0 {
        lemma_run_len(advance_spec(s).0, (k - 1) as nat);
    }
}

} // verus!
