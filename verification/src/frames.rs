//! The executor's frame stack: which node runs next, and what a node's
//! effect does to the stack. Nodes are named by their index in the graph's
//! node table; the runtime state the actions speak of lives with the caller.
use vstd::prelude::*;
use crate::runtime::YieldSnapshot;
use crate::text::str_eq;

verus! {

/// A loop that a loop node opens: its index variable, first and end
/// values, and the body's nodes.
#[derive(Clone, Debug)]
pub struct LoopFrame {
    pub index: String,
    pub current: i64,
    pub end: i64,
    pub body: Vec<usize>,
}

/// What a node asks of the frame stack once it ran.
#[derive(Clone, Debug)]
pub enum NodeEffect {
    Continue,
    Return,
    PushBlock(String),
    PushLoop(LoopFrame),
    Yield(YieldSnapshot),
    Await(Vec<String>),
}

/// One entry of the stack: a block's nodes, or a loop's body with its
/// counter; `pos` is the next node to run.
#[derive(Clone, Debug)]
pub enum Frame {
    Block { block_name: String, nodes: Vec<usize>, pos: usize },
    Loop { block_name: String, index: String, counter: i64, end: i64, nodes: Vec<usize>, pos: usize },
}

/// A frame as values.
pub enum FrameView {
    Block { block_name: Seq<char>, nodes: Seq<usize>, pos: usize },
    Loop {
        block_name: Seq<char>,
        index: Seq<char>,
        counter: i64,
        end: i64,
        nodes: Seq<usize>,
        pos: usize,
    },
}

impl View for Frame {
    type V = FrameView;

    open spec fn view(&self) -> FrameView {
        match self {
            Frame::Block { block_name, nodes, pos } => FrameView::Block {
                block_name: block_name@,
                nodes: nodes@,
                pos: *pos,
            },
            Frame::Loop { block_name, index, counter, end, nodes, pos } => FrameView::Loop {
                block_name: block_name@,
                index: index@,
                counter: *counter,
                end: *end,
                nodes: nodes@,
                pos: *pos,
            },
        }
    }
}

/// What the caller does next: nothing is left, clear or set a loop's index
/// variable, or run a node of a block.
#[derive(Clone, Debug)]
pub enum StepAction {
    Finished,
    ClearLoopVar(String),
    SetLoopVar(String, i64),
    Run { block_name: String, node: usize },
}

/// An action as values.
pub enum ActionView {
    Finished,
    ClearLoopVar(Seq<char>),
    SetLoopVar(Seq<char>, i64),
    Run(Seq<char>, usize),
}

impl View for StepAction {
    type V = ActionView;

    open spec fn view(&self) -> ActionView {
        match self {
            StepAction::Finished => ActionView::Finished,
            StepAction::ClearLoopVar(i) => ActionView::ClearLoopVar(i@),
            StepAction::SetLoopVar(i, v) => ActionView::SetLoopVar(i@, *v),
            StepAction::Run { block_name, node } => ActionView::Run(block_name@, *node),
        }
    }
}

/// A frame's next position lies within its nodes.
pub open spec fn frame_wf(f: FrameView) -> bool {
    match f {
        FrameView::Block { nodes, pos, .. } => pos <= nodes.len(),
        FrameView::Loop { nodes, pos, .. } => pos <= nodes.len(),
    }
}

pub open spec fn stack_wf(s: Seq<FrameView>) -> bool {
    forall|i: int| 0 <= i < s.len() ==> #[trigger] frame_wf(s[i])
}

/// One step of the executor: exhausted blocks are dropped silently; a loop
/// at its end is dropped and its index cleared; a loop whose body is done
/// moves to the next index; otherwise the top frame's next node runs.
pub open spec fn advance_spec(s: Seq<FrameView>) -> (Seq<FrameView>, ActionView)
    decreases s.len(),
{
    if s.len() == 0 {
        (s, ActionView::Finished)
    } else {
        let rest = s.drop_last();
        match s.last() {
            FrameView::Block { block_name, nodes, pos } => {
                if pos < nodes.len() {
                    (
                        rest.push(FrameView::Block { block_name, nodes, pos: (pos + 1) as usize }),
                        ActionView::Run(block_name, nodes[pos as int]),
                    )
                } else {
                    advance_spec(rest)
                }
            },
            FrameView::Loop { block_name, index, counter, end, nodes, pos } => {
                if counter >= end {
                    (rest, ActionView::ClearLoopVar(index))
                } else if pos < nodes.len() {
                    (
                        rest.push(
                            FrameView::Loop { block_name, index, counter, end, nodes, pos: (pos + 1) as usize },
                        ),
                        ActionView::Run(block_name, nodes[pos as int]),
                    )
                } else {
                    (
                        rest.push(
                            FrameView::Loop {
                                block_name,
                                index,
                                counter: (counter + 1) as i64,
                                end,
                                nodes,
                                pos: 0,
                            },
                        ),
                        ActionView::SetLoopVar(index, (counter + 1) as i64),
                    )
                }
            },
        }
    }
}

/// A block's name and its nodes, as the graph lists them.
#[derive(Clone, Debug)]
pub struct BlockNodes {
    pub name: String,
    pub nodes: Vec<usize>,
}

/// `i` is the first block named `name`.
pub open spec fn is_first_block(blocks: Seq<BlockNodes>, name: Seq<char>, i: int) -> bool {
    &&& 0 <= i < blocks.len()
    &&& blocks[i].name@ == name
    &&& forall|j: int| 0 <= j < i ==> #[trigger] blocks[j].name@ != name
}

pub open spec fn has_block(blocks: Seq<BlockNodes>, name: Seq<char>) -> bool {
    exists|i: int| 0 <= i < blocks.len() && #[trigger] blocks[i].name@ == name
}

/// What the caller still does after an effect was applied: set a new
/// loop's index, or hand a yield or an await at the entry block to the
/// scheduler.
#[derive(Clone, Debug)]
pub enum Followup {
    Nothing,
    SetLoopVar(String, i64),
    ForwardYield(YieldSnapshot),
    ForwardAwait(Vec<String>),
}

/// Why an effect cannot be applied.
#[derive(Clone, Debug)]
pub enum FrameError {
    UnknownBranchTarget(String),
}

/// The stack without its top frame (unchanged when empty).
pub open spec fn pop_spec(s: Seq<FrameView>) -> Seq<FrameView> {
    if s.len() > 0 {
        s.drop_last()
    } else {
        s
    }
}

/// The stack of frames the executor works through.
pub struct FrameStack {
    frames: Vec<Frame>,
}

impl View for FrameStack {
    type V = Seq<FrameView>;

    closed spec fn view(&self) -> Seq<FrameView> {
        self.frames@.map_values(|f: Frame| f@)
    }
}

/// The nodes of a frame, whichever kind it is.
pub open spec fn frame_nodes(f: FrameView) -> Seq<usize> {
    match f {
        FrameView::Block { nodes, .. } => nodes,
        FrameView::Loop { nodes, .. } => nodes,
    }
}

/// A frame's nodes are held in a vector, so there are no more of them than
/// a `usize` counts.
pub proof fn lemma_frame_nodes_fit(st: FrameStack)
    ensures
        forall|i: int| 0 <= i < st@.len() ==> (#[trigger] frame_nodes(st@[i])).len() <= usize::MAX,
{
    assert forall|i: int| 0 <= i < st@.len() implies (#[trigger] frame_nodes(st@[i])).len() <= usize::MAX by {
        let f = st.frames@[i];
        match f {
            Frame::Block { nodes, .. } => {
                assert(nodes@.len() == nodes.len());
            },
            Frame::Loop { nodes, .. } => {
                assert(nodes@.len() == nodes.len());
            },
        }
    }
}

impl FrameStack {
    pub open spec fn wf(&self) -> bool {
        stack_wf(self@)
    }

    /// A stack holding one block, at its first node.
    pub fn for_block(block_name: String, nodes: Vec<usize>) -> (r: FrameStack)
        ensures
            r.wf(),
            r@ == seq![FrameView::Block { block_name: block_name@, nodes: nodes@, pos: 0 }],
    {
        let mut frames: Vec<Frame> = Vec::new();
        frames.push(Frame::Block { block_name, nodes, pos: 0 });
        let r = FrameStack { frames };
        assert(r@ =~= seq![FrameView::Block { block_name: block_name@, nodes: nodes@, pos: 0 }]);
        r
    }

    /// The number of frames.
    pub fn depth(&self) -> (r: usize)
        ensures
            r == self@.len(),
    {
        self.frames.len()
    }

    fn pop_top(&mut self) -> (r: Option<Frame>)
        ensures
            final(self)@ == pop_spec(old(self)@),
            old(self)@.len() == 0 <==> r is None,
            r matches Some(f) ==> f@ == old(self)@.last(),
    {
        let r = self.frames.pop();
        proof {
            if old(self).frames@.len() > 0 {
                assert(self@ =~= old(self)@.drop_last());
            }
        }
        r
    }

    fn push_top(&mut self, f: Frame)
        ensures
            final(self)@ == old(self)@.push(f@),
    {
        self.frames.push(f);
        assert(self@ =~= old(self)@.push(f@));
    }

    /// Take the next step: drop what is exhausted and say what to do, as
    /// `advance_spec` describes.
    pub fn next_action(&mut self) -> (r: StepAction)
        requires
            old(self).wf(),
        ensures
            final(self).wf(),
            (final(self)@, r@) == advance_spec(old(self)@),
    {
        loop
            invariant
                self.wf(),
                advance_spec(self@) == advance_spec(old(self)@),
            decreases self@.len(),
        {
            let ghost before = self@;
            let top = self.pop_top();
            match top {
                None => {
                    return StepAction::Finished;
                },
                Some(Frame::Block { block_name, nodes, pos }) => {
                    assert(frame_wf(before[before.len() - 1]));
                    if pos < nodes.len() {
                        let node = nodes[pos];
                        let name = block_name.clone();
                        self.push_top(Frame::Block { block_name, nodes, pos: pos + 1 });
                        assert(stack_wf(self@)) by {
                            assert forall|i: int| 0 <= i < self@.len() implies #[trigger] frame_wf(self@[i]) by {
                                if i < self@.len() - 1 {
                                    assert(self@[i] == before[i]);
                                }
                            }
                        }
                        return StepAction::Run { block_name: name, node };
                    }
                    assert(stack_wf(self@)) by {
                        assert forall|i: int| 0 <= i < self@.len() implies #[trigger] frame_wf(self@[i]) by {
                            assert(self@[i] == before[i]);
                        }
                    }
                },
                Some(Frame::Loop { block_name, index, counter, end, nodes, pos }) => {
                    assert(frame_wf(before[before.len() - 1]));
                    assert(stack_wf(self@)) by {
                        assert forall|i: int| 0 <= i < self@.len() implies #[trigger] frame_wf(self@[i]) by {
                            assert(self@[i] == before[i]);
                        }
                    }
                    if counter >= end {
                        return StepAction::ClearLoopVar(index);
                    }
                    let ghost rest = self@;
                    if pos < nodes.len() {
                        let node = nodes[pos];
                        let name = block_name.clone();
                        self.push_top(Frame::Loop { block_name, index, counter, end, nodes, pos: pos + 1 });
                        assert(stack_wf(self@)) by {
                            assert forall|i: int| 0 <= i < self@.len() implies #[trigger] frame_wf(self@[i]) by {
                                if i < self@.len() - 1 {
                                    assert(self@[i] == rest[i]);
                                }
                            }
                        }
                        return StepAction::Run { block_name: name, node };
                    }
                    let next = counter + 1;
                    let idx = index.clone();
                    self.push_top(Frame::Loop { block_name, index, counter: next, end, nodes, pos: 0 });
                    assert(stack_wf(self@)) by {
                        assert forall|i: int| 0 <= i < self@.len() implies #[trigger] frame_wf(self@[i]) by {
                            if i < self@.len() - 1 {
                                assert(self@[i] == rest[i]);
                            }
                        }
                    }
                    return StepAction::SetLoopVar(idx, next);
                },
            }
        }
    }
}


/// Where `name` is the entry block.
/// What applying `effect` of a node that ran in `active` does to the stack
/// and asks of the caller (see `apply_effect`).
pub open spec fn apply_post(
    before: Seq<FrameView>,
    after: Seq<FrameView>,
    active: Seq<char>,
    effect: NodeEffect,
    entry: Option<Seq<char>>,
    blocks: Seq<BlockNodes>,
    r: Result<Followup, FrameError>,
) -> bool {
    match effect {
        NodeEffect::Continue => r matches Ok(Followup::Nothing) && after == before,
        NodeEffect::Return => r matches Ok(Followup::Nothing) && after == pop_spec(before),
        NodeEffect::PushBlock(name) => if has_block(blocks, name@) {
            r matches Ok(Followup::Nothing) && exists|i: int|
                #[trigger] is_first_block(blocks, name@, i) && after == before.push(
                    FrameView::Block { block_name: name@, nodes: blocks[i].nodes@, pos: 0 },
                )
        } else {
            r matches Err(FrameError::UnknownBranchTarget(n)) && n@ == name@ && after == before
        },
        NodeEffect::PushLoop(lf) => r matches Ok(Followup::SetLoopVar(i, v)) && i@ == lf.index@ && v
            == lf.current && after == before.push(
            FrameView::Loop {
                block_name: active,
                index: lf.index@,
                counter: lf.current,
                end: lf.end,
                nodes: lf.body@,
                pos: 0,
            },
        ),
        NodeEffect::Yield(snap) => if entry == Some(active) {
            r matches Ok(Followup::ForwardYield(s)) && s == snap && after == before
        } else {
            r matches Ok(Followup::Nothing) && after == pop_spec(before)
        },
        NodeEffect::Await(vars) => after == before && if entry == Some(active) {
            r matches Ok(Followup::ForwardAwait(v)) && v == vars
        } else {
            r matches Ok(Followup::Nothing)
        },
    }
}

impl FrameStack {
    fn find_block(blocks: &[BlockNodes], name: &str) -> (r: Option<usize>)
        ensures
            match r {
                Some(i) => is_first_block(blocks@, name@, i as int),
                None => !has_block(blocks@, name@),
            },
    {
        let mut i: usize = 0;
        while i < blocks.len()
            invariant
                i <= blocks@.len(),
                forall|j: int| 0 <= j < i ==> #[trigger] blocks@[j].name@ != name@,
            decreases blocks.len() - i,
        {
            if str_eq(blocks[i].name.as_str(), name) {
                return Some(i);
            }
            i = i + 1;
        }
        None
    }

    /// Apply what the node that just ran in `active_block` asks: `Return`
    /// drops the top frame; a branch pushes the target block's frame (an
    /// unknown target is an error and leaves the stack); a loop pushes its
    /// frame and its index must be set to the first value; a yield at the
    /// entry block goes to the scheduler, elsewhere it ends the block; an
    /// await at the entry block goes to the scheduler. Without an entry
    /// block (a block run on its own) every yield ends its block.
    pub fn apply_effect(
        &mut self,
        active_block: &str,
        effect: NodeEffect,
        entry_block: Option<&str>,
        blocks: &[BlockNodes],
    ) -> (r: Result<Followup, FrameError>)
        requires
            old(self).wf(),
        ensures
            final(self).wf(),
            apply_post(
                old(self)@,
                final(self)@,
                active_block@,
                effect,
                match entry_block {
                    Some(e) => Some(e@),
                    None => None,
                },
                blocks@,
                r,
            ),
    {
        let ghost before = self@;
        let entry = match entry_block {
            Some(e) => str_eq(e, active_block),
            None => false,
        };
        match effect {
            NodeEffect::Continue => Ok(Followup::Nothing),
            NodeEffect::Return => {
                self.pop_top();
                assert(stack_wf(self@)) by {
                    assert forall|i: int| 0 <= i < self@.len() implies #[trigger] frame_wf(self@[i]) by {
                        assert(self@[i] == before[i]);
                    }
                }
                Ok(Followup::Nothing)
            },
            NodeEffect::PushBlock(name) => {
                match Self::find_block(blocks, name.as_str()) {
                    Some(i) => {
                        let nodes = copy_ids(&blocks[i].nodes);
                        self.push_top(Frame::Block { block_name: name, nodes, pos: 0 });
                        assert(stack_wf(self@)) by {
                            assert forall|k: int| 0 <= k < self@.len() implies #[trigger] frame_wf(self@[k]) by {
                                if k < self@.len() - 1 {
                                    assert(self@[k] == before[k]);
                                }
                            }
                        }
                        Ok(Followup::Nothing)
                    },
                    None => Err(FrameError::UnknownBranchTarget(name)),
                }
            },
            NodeEffect::PushLoop(lf) => {
                let idx = lf.index.clone();
                let current = lf.current;
                let block_name = active_block.to_string();
                self.push_top(
                    Frame::Loop {
                        block_name,
                        index: lf.index,
                        counter: lf.current,
                        end: lf.end,
                        nodes: lf.body,
                        pos: 0,
                    },
                );
                assert(stack_wf(self@)) by {
                    assert forall|k: int| 0 <= k < self@.len() implies #[trigger] frame_wf(self@[k]) by {
                        if k < self@.len() - 1 {
                            assert(self@[k] == before[k]);
                        }
                    }
                }
                Ok(Followup::SetLoopVar(idx, current))
            },
            NodeEffect::Yield(snap) => {
                if entry {
                    Ok(Followup::ForwardYield(snap))
                } else {
                    self.pop_top();
                    assert(stack_wf(self@)) by {
                        assert forall|i: int| 0 <= i < self@.len() implies #[trigger] frame_wf(self@[i]) by {
                            assert(self@[i] == before[i]);
                        }
                    }
                    Ok(Followup::Nothing)
                }
            },
            NodeEffect::Await(vars) => {
                if entry {
                    Ok(Followup::ForwardAwait(vars))
                } else {
                    Ok(Followup::Nothing)
                }
            },
        }
    }
}

/// A copy of a list of node indices.
pub fn copy_ids(v: &Vec<usize>) -> (r: Vec<usize>)
    ensures
        r@ == v@,
{
    let mut r: Vec<usize> = Vec::new();
    let mut i: usize = 0;
    while i < v.len()
        invariant
            i <= v@.len(),
            r@ == v@.subrange(0, i as int),
        decreases v.len() - i,
    {
        r.push(v[i]);
        i = i + 1;
        assert(r@ =~= v@.subrange(0, i as int));
    }
    assert(r@ =~= v@);
    r
}


/// `k` steps in a row, when every node that runs continues: the stack
/// reached and the actions taken, in order.
pub open spec fn run_steps(s: Seq<FrameView>, k: nat) -> (Seq<FrameView>, Seq<ActionView>)
    decreases k,
{
    if k == 0 {
        (s, Seq::empty())
    } else {
        let (s1, a) = advance_spec(s);
        let (s2, acts) = run_steps(s1, (k - 1) as nat);
        (s2, seq![a] + acts)
    }
}

/// One pass over a loop's body, then the index moved to `next`.
pub open spec fn iteration_actions(block_name: Seq<char>, index: Seq<char>, body: Seq<usize>, next: i64) -> Seq<
    ActionView,
> {
    Seq::new(body.len(), |i: int| ActionView::Run(block_name, body[i])).push(ActionView::SetLoopVar(index, next))
}

/// A loop from `counter` to `end`: one pass per index value, then the
/// index cleared.
pub open spec fn loop_actions(
    block_name: Seq<char>,
    index: Seq<char>,
    body: Seq<usize>,
    counter: i64,
    end: i64,
) -> Seq<ActionView>
    decreases end - counter,
{
    if counter >= end {
        seq![ActionView::ClearLoopVar(index)]
    } else {
        iteration_actions(block_name, index, body, (counter + 1) as i64) + loop_actions(
            block_name,
            index,
            body,
            (counter + 1) as i64,
            end,
        )
    }
}

/// The number of steps a loop from `counter` to `end` takes.
pub open spec fn loop_steps(body_len: nat, counter: i64, end: i64) -> nat
    decreases end - counter,
{
    if counter >= end {
        1
    } else {
        body_len + 1 + loop_steps(body_len, (counter + 1) as i64, end)
    }
}

pub proof fn lemma_run_steps_split(s: Seq<FrameView>, a: nat, b: nat)
    ensures
        run_steps(s, a + b) == (
            run_steps(run_steps(s, a).0, b).0,
            run_steps(s, a).1 + run_steps(run_steps(s, a).0, b).1,
        ),
    decreases a,
{
    if a == 0 {
        assert(run_steps(s, 0).1 + run_steps(s, b).1 =~= run_steps(s, b).1);
    } else {
        let s1 = advance_spec(s).0;
        lemma_run_steps_split(s1, (a - 1) as nat, b);
        assert((a + b - 1) as nat == (a - 1) as nat + b);
        let x = advance_spec(s).1;
        assert(seq![x] + (run_steps(s1, (a - 1) as nat).1 + run_steps(run_steps(s1, (a - 1) as nat).0, b).1)
            =~= (seq![x] + run_steps(s1, (a - 1) as nat).1) + run_steps(run_steps(s1, (a - 1) as nat).0, b).1);
    }
}

proof fn lemma_body_pass(
    rest: Seq<FrameView>,
    block_name: Seq<char>,
    index: Seq<char>,
    counter: i64,
    end: i64,
    body: Seq<usize>,
    j: nat,
)
    requires
        counter < end,
        j <= body.len(),
        body.len() <= usize::MAX,
    ensures
        run_steps(rest.push(FrameView::Loop { block_name, index, counter, end, nodes: body, pos: 0 }), j) == (
            rest.push(FrameView::Loop { block_name, index, counter, end, nodes: body, pos: j as usize }),
            Seq::new(j, |i: int| ActionView::Run(block_name, body[i])),
        ),
    decreases j,
{
    let start = rest.push(FrameView::Loop { block_name, index, counter, end, nodes: body, pos: 0 });
    if j == 0 {
        assert(Seq::new(0, |i: int| ActionView::Run(block_name, body[i])) =~= Seq::<ActionView>::empty());
    } else {
        let j1 = (j - 1) as nat;
        lemma_body_pass(rest, block_name, index, counter, end, body, j1);
        lemma_run_steps_split(start, j1, 1);
        let mid = rest.push(FrameView::Loop { block_name, index, counter, end, nodes: body, pos: j1 as usize });
        assert(mid.drop_last() =~= rest);
        assert(advance_spec(mid) == (
            rest.push(FrameView::Loop { block_name, index, counter, end, nodes: body, pos: j as usize }),
            ActionView::Run(block_name, body[j1 as int]),
        ));
        let next = advance_spec(mid).0;
        assert(run_steps(next, 0) == (next, Seq::<ActionView>::empty()));
        assert(run_steps(mid, 1).1 =~= seq![ActionView::Run(block_name, body[j1 as int])]);
        assert(Seq::new(j1, |i: int| ActionView::Run(block_name, body[i])) + seq![ActionView::Run(block_name, body[j1 as int])]
            =~= Seq::new(j, |i: int| ActionView::Run(block_name, body[i])));
    }
}

/// When every node of its body continues, a loop frame runs its body once
/// for each index value from its counter up to its end, moving the index to
/// the next value after each pass; at the end it is dropped, its index
/// cleared, and the frames below it are as they were. A loop whose counter
/// starts at or past its end runs nothing.
pub proof fn law_loop_runs_body_per_index(
    rest: Seq<FrameView>,
    block_name: Seq<char>,
    index: Seq<char>,
    counter: i64,
    end: i64,
    body: Seq<usize>,
)
    requires
        body.len() <= usize::MAX,
    ensures
        run_steps(
            rest.push(FrameView::Loop { block_name, index, counter, end, nodes: body, pos: 0 }),
            loop_steps(body.len(), counter, end),
        ) == (rest, loop_actions(block_name, index, body, counter, end)),
    decreases end - counter,
{
    let start = rest.push(FrameView::Loop { block_name, index, counter, end, nodes: body, pos: 0 });
    assert(start.drop_last() =~= rest);
    if counter >= end {
        assert(advance_spec(start) == (rest, ActionView::ClearLoopVar(index)));
        assert(run_steps(rest, 0) == (rest, Seq::<ActionView>::empty()));
        assert(run_steps(start, 1).1 =~= seq![ActionView::ClearLoopVar(index)]);
    } else {
        let n = body.len();
        let next = (counter + 1) as i64;
        lemma_body_pass(rest, block_name, index, counter, end, body, n);
        let done = rest.push(FrameView::Loop { block_name, index, counter, end, nodes: body, pos: n as usize });
        assert(done.drop_last() =~= rest);
        let after = rest.push(FrameView::Loop { block_name, index, counter: next, end, nodes: body, pos: 0 });
        assert(advance_spec(done) == (after, ActionView::SetLoopVar(index, next)));
        assert(run_steps(after, 0) == (after, Seq::<ActionView>::empty()));
        lemma_run_steps_split(start, n, 1);
        assert(run_steps(start, n + 1).0 == after);
        assert(run_steps(start, n + 1).1 =~= iteration_actions(block_name, index, body, next));
        law_loop_runs_body_per_index(rest, block_name, index, next, end, body);
        lemma_run_steps_split(start, n + 1, loop_steps(n, next, end));
        assert(loop_steps(n, counter, end) == (n + 1) + loop_steps(n, next, end));
    }
}


/// A block frame hands out its nodes one per step, in order; once they are
/// all out, the next step drops it without a sound and goes on with the
/// frames below it.
pub proof fn law_block_runs_nodes_in_order(
    rest: Seq<FrameView>,
    block_name: Seq<char>,
    nodes: Seq<usize>,
    j: nat,
)
    requires
        j <= nodes.len(),
        nodes.len() <= usize::MAX,
    ensures
        run_steps(rest.push(FrameView::Block { block_name, nodes, pos: 0 }), j) == (
            rest.push(FrameView::Block { block_name, nodes, pos: j as usize }),
            Seq::new(j, |i: int| ActionView::Run(block_name, nodes[i])),
        ),
        j == nodes.len() ==> advance_spec(rest.push(FrameView::Block { block_name, nodes, pos: j as usize }))
            == advance_spec(rest),
    decreases j,
{
    let start = rest.push(FrameView::Block { block_name, nodes, pos: 0 });
    let here = rest.push(FrameView::Block { block_name, nodes, pos: j as usize });
    assert(here.drop_last() =~= rest);
    if j == 0 {
        assert(Seq::new(0, |i: int| ActionView::Run(block_name, nodes[i])) =~= Seq::<ActionView>::empty());
    } else {
        let j1 = (j - 1) as nat;
        law_block_runs_nodes_in_order(rest, block_name, nodes, j1);
        lemma_run_steps_split(start, j1, 1);
        let mid = rest.push(FrameView::Block { block_name, nodes, pos: j1 as usize });
        assert(mid.drop_last() =~= rest);
        assert(advance_spec(mid) == (here, ActionView::Run(block_name, nodes[j1 as int])));
        assert(run_steps(here, 0) == (here, Seq::<ActionView>::empty()));
        assert(run_steps(mid, 1).1 =~= seq![ActionView::Run(block_name, nodes[j1 as int])]);
        assert(Seq::new(j1, |i: int| ActionView::Run(block_name, nodes[i])) + seq![ActionView::Run(block_name, nodes[j1 as int])]
            =~= Seq::new(j, |i: int| ActionView::Run(block_name, nodes[i])));
    }
}

} // verus!
