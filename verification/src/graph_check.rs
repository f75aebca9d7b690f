//! Checking a whole graph before it runs: the declarations first, then every
//! node of every block (loop bodies included) through the check for its
//! kind, then each block's yield and await rules. The first failure is the
//! answer.
use vstd::prelude::*;
use vstd::hash_map::StringHashMap;
use crate::dtype::DType;
use crate::frames::BlockNodes;
use crate::graph::{MemoryKind, Node, NodeKind, VarDecl};
use crate::model_loader::{dim_value_spec, ModelLoader};
use crate::runtime::{
    base_name_spec, contains_name, i64_literal_spec, names_view, validate_yield_rules, yield_rules_spec, Block,
    ValidationError,
};
use crate::spirv::string_views;
use crate::validation::{
    cache_bump_ok_spec, cache_read_ok_spec, cache_reset_ok_spec, cache_write_ok_spec, is_scalar_spec,
    meta_strings_of, op_ok_spec, transfer_ok_spec, inputs_ok_spec, CtxView, OpSchemaCheck, ParamDef,
    ValidationContext, vars_ok_spec,
};
use crate::vk_common::OpAttrs;
use crate::state::{build_decl_tables, decl_tables, shapes_view};
use crate::vk_dispatch::OpKind;

verus! {

/// One typing an operator accepts: the element types of its inputs, in
/// order, and the element type of its output.
#[derive(Clone, Debug)]
pub struct OpTyping {
    pub inputs: Vec<DType>,
    pub output: DType,
}

/// What the operator table says of one operator: its schema, the
/// attributes it takes, and the typings it supports.
#[derive(Clone, Debug)]
pub struct OpRule {
    pub op: OpKind,
    pub schema: OpSchemaCheck,
    pub params: Vec<ParamDef>,
    pub typings: Vec<OpTyping>,
}

/// The first rule for `op` at or after position `from`.
pub open spec fn first_rule(rules: Seq<OpRule>, op: OpKind, from: int) -> Option<OpRule>
    decreases rules.len() - from,
{
    if from < 0 || from >= rules.len() {
        None
    } else if rules[from].op == op {
        Some(rules[from])
    } else {
        first_rule(rules, op, from + 1)
    }
}

/// The output type of the first typing at or after `from` whose inputs are
/// `ins`.
pub open spec fn first_typing(ts: Seq<OpTyping>, ins: Seq<DType>, from: int) -> Option<DType>
    decreases ts.len() - from,
{
    if from < 0 || from >= ts.len() {
        None
    } else if ts[from].inputs@ == ins {
        Some(ts[from].output)
    } else {
        first_typing(ts, ins, from + 1)
    }
}

/// The element types of the inputs.
pub open spec fn in_dtypes(ctx: CtxView, inputs: Seq<String>) -> Seq<DType> {
    Seq::new(inputs.len(), |i: int| ctx.dtypes[base_name_spec(inputs[i]@)])
}

/// An operator node: its operator must have a rule, and the node must pass
/// `op_ok_spec` with the output type of the rule's first typing for its
/// input types (the operator supports exactly the typings listed).
pub open spec fn op_node_spec(
    rules: Seq<OpRule>,
    vars: Map<Seq<char>, VarDecl>,
    model: ModelLoader,
    ctx: CtxView,
    op: OpKind,
    attrs: OpAttrs,
    inputs: Seq<String>,
    output: Seq<char>,
) -> Result<(), ValidationError> {
    match first_rule(rules, op, 0) {
        None => Err(ValidationError::UnsupportedOp),
        Some(rule) => {
            let inferred = first_typing(rule.typings@, in_dtypes(ctx, inputs), 0);
            op_ok_spec(
                ctx,
                vars,
                rule.schema,
                inputs,
                output,
                inferred,
                inferred is Some,
                attrs.items@,
                rule.params@,
                meta_strings_of(model),
            )
        },
    }
}

/// A name used as a condition or loop bound: a known scalar.
pub open spec fn known_scalar_spec(ctx: CtxView, n: Seq<char>) -> Result<(), ValidationError> {
    if !ctx.dtypes.contains_key(base_name_spec(n)) {
        Err(ValidationError::UnknownVariable)
    } else {
        match is_scalar_spec(ctx.shapes, n) {
            Err(e) => Err(e),
            Ok(true) => Ok(()),
            Ok(false) => Err(ValidationError::NotScalar),
        }
    }
}

/// A branch: known targets, and a conditional one with an else block and a
/// known scalar condition.
pub open spec fn branch_spec(
    ctx: CtxView,
    names: Seq<Seq<char>>,
    cond: Option<String>,
    then_block: Seq<char>,
    else_block: Option<String>,
) -> Result<(), ValidationError> {
    if !names.contains(then_block) {
        Err(ValidationError::UnknownBranchTarget)
    } else if else_block matches Some(e) && !names.contains(e@) {
        Err(ValidationError::UnknownBranchTarget)
    } else {
        match cond {
            None => Ok(()),
            Some(c) => if else_block is None {
                Err(ValidationError::BranchNeedsElse)
            } else {
                known_scalar_spec(ctx, c@)
            },
        }
    }
}

/// A loop bound: a literal or model size, or a known scalar.
pub open spec fn bound_spec(ctx: CtxView, expr: Seq<char>, sizes: Map<Seq<char>, usize>) -> Result<(), ValidationError> {
    if i64_literal_spec(expr, sizes) is Some {
        Ok(())
    } else {
        known_scalar_spec(ctx, expr)
    }
}

/// A temporary made known by an assignment (see `register_temp`).
pub open spec fn assign_spec(
    ctx: CtxView,
    vars: Map<Seq<char>, VarDecl>,
    sizes: Map<Seq<char>, usize>,
    name: Seq<char>,
    dtype: DType,
    dims: Seq<String>,
) -> Result<CtxView, ValidationError> {
    if vars.contains_key(name) {
        Err(ValidationError::AssignShadowsDeclared)
    } else if ctx.temps.contains(name) {
        Err(ValidationError::DuplicateTemporary)
    } else if exists|i: int| 0 <= i < dims.len() && #[trigger] dim_value_spec(sizes, dims[i]@) is Err {
        Err(ValidationError::InvalidDims)
    } else {
        Ok(
            CtxView {
                dtypes: ctx.dtypes.insert(name, dtype),
                shapes: ctx.shapes.insert(name, Seq::new(dims.len(), |i: int| dim_value_spec(sizes, dims[i]@)->Ok_0)),
                temps: ctx.temps.insert(name),
            },
        )
    }
}

/// A yielded name must be known; an awaited one must also not be a
/// constant.
pub open spec fn var_check_spec(ctx: CtxView, vars: Map<Seq<char>, VarDecl>, n: Seq<char>, awaiting: bool) -> Result<
    (),
    ValidationError,
> {
    let b = base_name_spec(n);
    if !ctx.dtypes.contains_key(b) {
        Err(ValidationError::UnknownVariable)
    } else if awaiting && vars.contains_key(b) && vars[b].kind == MemoryKind::Constant {
        Err(ValidationError::AwaitOnConstant)
    } else {
        Ok(())
    }
}

/// `ys` with `n` added at the end unless it holds it already.
pub open spec fn add_name(ys: Seq<Seq<char>>, n: Seq<char>) -> Seq<Seq<char>> {
    if ys.contains(n) {
        ys
    } else {
        ys.push(n)
    }
}

/// Check the yielded (or awaited) names in order, collecting the new ones
/// into `ys`.
pub open spec fn names_fold(
    ctx: CtxView,
    vars: Map<Seq<char>, VarDecl>,
    ys: Seq<Seq<char>>,
    names: Seq<String>,
    awaiting: bool,
) -> Result<Seq<Seq<char>>, ValidationError>
    decreases names.len(),
{
    if names.len() == 0 {
        Ok(ys)
    } else {
        match var_check_spec(ctx, vars, names[0]@, awaiting) {
            Err(e) => Err(e),
            Ok(_) => names_fold(ctx, vars, add_name(ys, names[0]@), names.drop_first(), awaiting),
        }
    }
}

/// What a block's walk has collected: the awaited and the yielded names,
/// and the positions of its own yield nodes.
pub struct AccView {
    pub awaits: Seq<Seq<char>>,
    pub yields: Seq<Seq<char>>,
    pub positions: Seq<usize>,
}

/// What the walk reads: the node table, the operator rules, the block
/// names, the declarations and the model.
pub struct GraphEnv {
    pub nodes: Seq<Node>,
    pub rules: Seq<OpRule>,
    pub names: Seq<Seq<char>>,
    pub vars: Map<Seq<char>, VarDecl>,
    pub model: ModelLoader,
}

/// A check that leaves what is known unchanged.
pub open spec fn keep(ctx: CtxView, acc: AccView, r: Result<(), ValidationError>) -> Result<(CtxView, AccView), ValidationError> {
    match r {
        Err(e) => Err(e),
        Ok(_) => Ok((ctx, acc)),
    }
}

/// One node other than a loop, at position `pos` of its list, inside loops
/// with the indices `lv`; `record` says whether its yields count as the
/// block's own.
pub open spec fn node_step_spec(
    g: GraphEnv,
    ctx: CtxView,
    acc: AccView,
    kind: NodeKind,
    lv: Seq<Seq<char>>,
    record: bool,
    pos: int,
) -> Result<(CtxView, AccView), ValidationError> {
    let sizes = g.model.sizes@;
    match kind {
        NodeKind::Assign { name, dtype, dims } => match assign_spec(ctx, g.vars, sizes, name@, dtype, dims@) {
            Err(e) => Err(e),
            Ok(c) => Ok((c, acc)),
        },
        NodeKind::Op { op, attrs, inputs, output } => keep(ctx, acc, op_node_spec(g.rules, g.vars, g.model, ctx, op, attrs, inputs@, output@),
        ),
        NodeKind::Branch { cond, then_block, else_block } => keep(ctx, acc, branch_spec(ctx, g.names, cond, then_block@, else_block),
        ),
        NodeKind::CacheRead { src, dst } => keep(ctx, acc, cache_read_ok_spec(ctx, src, dst@, sizes, g.vars, lv)),
        NodeKind::CacheWrite { src, dst } => keep(ctx, acc, cache_write_ok_spec(ctx, src@, dst, sizes, g.vars, lv)),
        NodeKind::CacheIncrement { target, .. } => keep(ctx, acc, cache_bump_ok_spec(ctx, target@, g.vars)),
        NodeKind::CacheDecrement { target, .. } => keep(ctx, acc, cache_bump_ok_spec(ctx, target@, g.vars)),
        NodeKind::CacheReset { target } => keep(ctx, acc, cache_reset_ok_spec(ctx, target, sizes, g.vars, lv)),
        NodeKind::Transfer { src, dst } => keep(ctx, acc, transfer_ok_spec(ctx, g.vars, src@, dst@)),
        NodeKind::Yield { vars } => {
            let acc1 = AccView {
                positions: if record { acc.positions.push(pos as usize) } else { acc.positions },
                ..acc
            };
            match names_fold(ctx, g.vars, acc1.yields, vars@, false) {
                Err(e) => Err(e),
                Ok(ys) => Ok((ctx, AccView { yields: ys, ..acc1 })),
            }
        },
        NodeKind::Await { vars } => match names_fold(ctx, g.vars, acc.awaits, vars@, true) {
            Err(e) => Err(e),
            Ok(aws) => Ok((ctx, AccView { awaits: aws, ..acc })),
        },
        _ => Ok((ctx, acc)),
    }
}

/// The loop indices inside a loop over `index`.
pub open spec fn with_index(lv: Seq<Seq<char>>, index: Seq<char>) -> Seq<Seq<char>> {
    add_name(lv, index)
}

/// Walk the nodes at positions `idxs` of the table in order, the first at
/// position `pos` of its list; every position must lie in the table at or
/// past `floor`. A loop checks its bounds, then walks its body (whose
/// positions must lie past the loop's own) with its index added to the
/// loop indices; the body's yields are not the block's own.
pub open spec fn walk_spec(
    g: GraphEnv,
    ctx: CtxView,
    acc: AccView,
    idxs: Seq<usize>,
    floor: int,
    lv: Seq<Seq<char>>,
    record: bool,
    pos: int,
) -> Result<(CtxView, AccView), ValidationError>
    decreases g.nodes.len() - floor, idxs.len(),
{
    if idxs.len() == 0 {
        Ok((ctx, acc))
    } else if idxs[0] < floor || idxs[0] >= g.nodes.len() {
        Err(ValidationError::MalformedNodeTable)
    } else {
        let i = idxs[0] as int;
        let rest = idxs.drop_first();
        match g.nodes[i].kind {
            NodeKind::Loop { index, start, end, body, .. } => match bound_spec(ctx, start@, g.model.sizes@) {
                Err(e) => Err(e),
                Ok(_) => match bound_spec(ctx, end@, g.model.sizes@) {
                    Err(e) => Err(e),
                    Ok(_) => match walk_spec(g, ctx, acc, body@, i + 1, with_index(lv, index@), false, 0) {
                        Err(e) => Err(e),
                        Ok((c, a)) => walk_spec(g, c, a, rest, floor, lv, record, pos + 1),
                    },
                },
            },
            k => match node_step_spec(g, ctx, acc, k, lv, record, pos) {
                Err(e) => Err(e),
                Ok((c, a)) => walk_spec(g, c, a, rest, floor, lv, record, pos + 1),
            },
        }
    }
}

/// An empty collection.
pub open spec fn empty_acc() -> AccView {
    AccView { awaits: Seq::empty(), yields: Seq::empty(), positions: Seq::empty() }
}

/// One block: its nodes walked from an empty collection, then its yield
/// rules (the block named `entry` is the entry block).
pub open spec fn block_spec(g: GraphEnv, ctx: CtxView, b: BlockNodes, entry: Seq<char>) -> Result<
    CtxView,
    ValidationError,
> {
    match walk_spec(g, ctx, empty_acc(), b.nodes@, 0, Seq::empty(), true, 0) {
        Err(e) => Err(e),
        Ok((c, a)) => match yield_rules_spec(b.nodes@.len() as usize, b.name@ == entry, a.awaits, a.yields, a.positions) {
            Err(e) => Err(e),
            Ok(_) => Ok(c),
        },
    }
}

/// The first `n` blocks in order, each from where the one before left the
/// known variables.
pub open spec fn blocks_spec(g: GraphEnv, ctx: CtxView, blocks: Seq<BlockNodes>, entry: Seq<char>, n: nat) -> Result<
    CtxView,
    ValidationError,
>
    decreases n,
{
    if n == 0 {
        Ok(ctx)
    } else {
        match blocks_spec(g, ctx, blocks, entry, (n - 1) as nat) {
            Err(e) => Err(e),
            Ok(c) => block_spec(g, c, blocks[n - 1], entry),
        }
    }
}

/// The block a run starts with: the one named `entry` when there is one,
/// else the first.
pub open spec fn entry_name(blocks: Seq<BlockNodes>) -> Seq<char> {
    if exists|i: int| 0 <= i < blocks.len() && #[trigger] blocks[i].name@ == "entry"@ {
        "entry"@
    } else {
        blocks[0].name@
    }
}

/// The names of the blocks.
pub open spec fn block_names(blocks: Seq<BlockNodes>) -> Seq<Seq<char>> {
    Seq::new(blocks.len(), |i: int| blocks[i].name@)
}

/// The names collected by a block's walk.
pub struct WalkAcc {
    pub awaits: Vec<String>,
    pub yields: Vec<String>,
    pub positions: Vec<usize>,
}

impl WalkAcc {
    /// The collection as values.
    pub open spec fn av(&self) -> AccView {
        AccView { awaits: names_view(self.awaits@), yields: names_view(self.yields@), positions: self.positions@ }
    }
}

/// The same two views of a list of names.
proof fn lemma_views_agree(v: Seq<String>)
    ensures
        names_view(v) == string_views(v),
{
    assert(names_view(v) =~= string_views(v));
}

/// Adding a name to a list adds its view.
proof fn lemma_push_view(v: Seq<String>, s: String)
    ensures
        names_view(v.push(s)) == names_view(v).push(s@),
        string_views(v.push(s)) == string_views(v).push(s@),
{
    assert(names_view(v.push(s)) =~= names_view(v).push(s@));
    assert(string_views(v.push(s)) =~= string_views(v).push(s@));
}

/// The first rule for `op` (see `first_rule`).
fn find_rule(rules: &[OpRule], op: OpKind) -> (r: Option<&OpRule>)
    ensures
        match first_rule(rules@, op, 0) {
            Some(x) => r == Some(&x),
            None => r is None,
        },
{
    let mut i: usize = 0;
    while i < rules.len()
        invariant
            i <= rules@.len(),
            first_rule(rules@, op, 0) == first_rule(rules@, op, i as int),
        decreases rules@.len() - i,
    {
        if rules[i].op == op {
            return Some(&rules[i]);
        }
        i = i + 1;
    }
    None
}

/// Whether two lists of element types are the same.
fn same_dtypes(a: &[DType], b: &[DType]) -> (r: bool)
    ensures
        r == (a@ == b@),
{
    if a.len() != b.len() {
        return false;
    }
    let mut i: usize = 0;
    while i < a.len()
        invariant
            i <= a@.len() == b@.len(),
            forall|j: int| 0 <= j < i ==> a@[j] == b@[j],
        decreases a@.len() - i,
    {
        if a[i] != b[i] {
            return false;
        }
        i = i + 1;
    }
    assert(a@ =~= b@);
    true
}

/// The output type of the first typing for the input types `ins`.
fn infer(ts: &[OpTyping], ins: &[DType]) -> (r: Option<DType>)
    ensures
        r == first_typing(ts@, ins@, 0),
{
    let mut i: usize = 0;
    while i < ts.len()
        invariant
            i <= ts@.len(),
            first_typing(ts@, ins@, 0) == first_typing(ts@, ins@, i as int),
        decreases ts@.len() - i,
    {
        if same_dtypes(ts[i].inputs.as_slice(), ins) {
            return Some(ts[i].output);
        }
        i = i + 1;
    }
    None
}

/// The element types of the inputs, when all of them are known.
fn input_dtypes(ctx: &ValidationContext, inputs: &[String]) -> (r: Option<Vec<DType>>)
    ensures
        r matches Some(v) ==> v@ == in_dtypes(ctx.cv(), inputs@),
        r is None ==> exists|i: int| 0 <= i < inputs@.len() && !ctx.var_dtypes@.contains_key(base_name_spec(#[trigger] inputs@[i]@)),
{
    let mut out: Vec<DType> = Vec::new();
    let mut i: usize = 0;
    while i < inputs.len()
        invariant
            i <= inputs@.len(),
            out@.len() == i,
            forall|j: int| 0 <= j < i ==> out@[j] == ctx.var_dtypes@[base_name_spec(inputs@[j]@)],
        decreases inputs@.len() - i,
    {
        match ctx.var_dtype(inputs[i].as_str()) {
            Ok(d) => out.push(d),
            Err(_) => {
                assert(!ctx.var_dtypes@.contains_key(base_name_spec(inputs@[i as int]@)));
                return None;
            },
        }
        i = i + 1;
    }
    assert(out@ =~= in_dtypes(ctx.cv(), inputs@));
    Some(out)
}

/// An unknown input makes the inputs' check fail.
proof fn lemma_unknown_input(ctx: CtxView, vars: Map<Seq<char>, VarDecl>, inputs: Seq<String>, i: int, n: nat)
    requires
        0 <= i < n <= inputs.len(),
        !ctx.dtypes.contains_key(base_name_spec(inputs[i]@)),
    ensures
        inputs_ok_spec(ctx, vars, inputs, n) is Err,
    decreases n,
{
    if n - 1 > i {
        lemma_unknown_input(ctx, vars, inputs, i, (n - 1) as nat);
    }
}

/// Check an operator node (see `op_node_spec`).
fn check_op(
    ctx: &ValidationContext,
    rules: &[OpRule],
    vars: &StringHashMap<VarDecl>,
    model: &ModelLoader,
    op: OpKind,
    attrs: &OpAttrs,
    inputs: &Vec<String>,
    output: &String,
) -> (r: Result<(), ValidationError>)
    ensures
        r == op_node_spec(rules@, vars@, *model, ctx.cv(), op, *attrs, inputs@, output@),
{
    let rule = match find_rule(rules, op) {
        None => return Err(ValidationError::UnsupportedOp),
        Some(x) => x,
    };
    let found = input_dtypes(ctx, inputs.as_slice());
    let inferred = match &found {
        Some(ins) => infer(rule.typings.as_slice(), ins.as_slice()),
        None => None,
    };
    let r = ctx.validate_op(
        &rule.schema,
        inputs.as_slice(),
        output.as_str(),
        inferred,
        inferred.is_some(),
        attrs,
        rule.params.as_slice(),
        vars,
        model,
    );
    proof {
        if found is None {
            let i = choose|i: int| 0 <= i < inputs@.len() && !ctx.var_dtypes@.contains_key(base_name_spec(#[trigger] inputs@[i]@));
            lemma_unknown_input(ctx.cv(), vars@, inputs@, i, inputs@.len());
        }
    }
    r
}

/// Check the yielded (or awaited) names, collecting the new ones into
/// `ys` (see `names_fold`).
fn check_names(
    ctx: &ValidationContext,
    vars: &StringHashMap<VarDecl>,
    ys: &mut Vec<String>,
    names: &Vec<String>,
    awaiting: bool,
) -> (r: Result<(), ValidationError>)
    ensures
        match names_fold(ctx.cv(), vars@, names_view(old(ys)@), names@, awaiting) {
            Ok(v) => r is Ok && names_view(final(ys)@) == v,
            Err(e) => r == Err::<(), ValidationError>(e),
        },
{
    let ghost start = names_view(ys@);
    assert(names@.skip(0) =~= names@);
    let mut k: usize = 0;
    while k < names.len()
        invariant
            k <= names@.len(),
            start == names_view(old(ys)@),
            names_fold(ctx.cv(), vars@, start, names@, awaiting) == names_fold(
                ctx.cv(),
                vars@,
                names_view(ys@),
                names@.skip(k as int),
                awaiting,
            ),
        decreases names@.len() - k,
    {
        let n = &names[k];
        proof {
            assert(names@.skip(k as int)[0] == names@[k as int]);
            assert(names@.skip(k as int).drop_first() =~= names@.skip(k + 1));
            assert(names@.skip(k as int).len() > 0);
            assert(names_fold(ctx.cv(), vars@, names_view(ys@), names@.skip(k as int), awaiting) == match var_check_spec(
                ctx.cv(),
                vars@,
                n@,
                awaiting,
            ) {
                Err(e) => Err(e),
                Ok(_) => names_fold(ctx.cv(), vars@, add_name(names_view(ys@), n@), names@.skip(k + 1), awaiting),
            });
        }
        let c = if awaiting {
            let c = ctx.validate_await_var(n.as_str(), vars);
            assert(c == var_check_spec(ctx.cv(), vars@, n@, awaiting));
            c
        } else {
            let c = ctx.validate_yield_var(n.as_str());
            match c {
                Err(e) => return Err(e),
                Ok(()) => {},
            }
            assert(var_check_spec(ctx.cv(), vars@, n@, awaiting) == Ok::<(), ValidationError>(()));
            Ok(())
        };
        match c {
            Err(e) => return Err(e),
            Ok(()) => {},
        }
        let ghost before = ys@;
        if !contains_name(ys.as_slice(), n) {
            ys.push(n.clone());
            proof {
                lemma_push_view(before, *n);
            }
        }
        k = k + 1;
    }
    assert(names@.skip(k as int) =~= Seq::<String>::empty());
    Ok(())
}

/// What registering a temporary leaves known (see `register_temp`).
proof fn lemma_assign_cv(a: ValidationContext, b: ValidationContext, name: Seq<char>, dtype: DType, shape: Seq<usize>)
    requires
        b.var_dtypes@ == a.var_dtypes@.insert(name, dtype),
        b.temps@ == a.temps@.insert(name, true),
        b.var_shapes@.contains_key(name),
        b.var_shapes@[name]@ == shape,
        b.var_shapes@.remove(name) == a.var_shapes@.remove(name),
    ensures
        b.cv() == (CtxView {
            dtypes: a.cv().dtypes.insert(name, dtype),
            shapes: a.cv().shapes.insert(name, shape),
            temps: a.cv().temps.insert(name),
        }),
{
    assert(b.cv().temps =~= a.cv().temps.insert(name));
    assert forall|k: Seq<char>| k != name implies (b.var_shapes@.contains_key(k) == a.var_shapes@.contains_key(k)) && (
    b.var_shapes@.contains_key(k) ==> b.var_shapes@[k] == a.var_shapes@[k]) by {
        assert(b.var_shapes@.remove(name).contains_key(k) == b.var_shapes@.contains_key(k));
        assert(a.var_shapes@.remove(name).contains_key(k) == a.var_shapes@.contains_key(k));
        if b.var_shapes@.contains_key(k) {
            assert(b.var_shapes@.remove(name)[k] == b.var_shapes@[k]);
            assert(a.var_shapes@.remove(name)[k] == a.var_shapes@[k]);
        }
    }
    let m = a.cv().shapes.insert(name, shape);
    assert forall|k: Seq<char>| #[trigger] b.cv().shapes.contains_key(k) == m.contains_key(k) by {
        if k != name {
            assert(b.var_shapes@.remove(name).contains_key(k) == b.var_shapes@.contains_key(k));
            assert(a.var_shapes@.remove(name).contains_key(k) == a.var_shapes@.contains_key(k));
        }
    }
    assert forall|k: Seq<char>| #[trigger] b.cv().shapes.contains_key(k) implies b.cv().shapes[k] == m[k] by {
        if k != name {
            assert(b.var_shapes@.remove(name)[k] == b.var_shapes@[k]);
            assert(a.var_shapes@.remove(name)[k] == a.var_shapes@[k]);
            assert(a.var_shapes@.remove(name).contains_key(k));
        }
    }
    assert(b.cv().shapes =~= m);
}

/// The walk's environment from the executable values.
pub open spec fn env_of(
    nodes: Seq<Node>,
    rules: Seq<OpRule>,
    names: Seq<String>,
    vars: Map<Seq<char>, VarDecl>,
    model: ModelLoader,
) -> GraphEnv {
    GraphEnv { nodes, rules, names: string_views(names), vars, model }
}

/// Check one node other than a loop (see `node_step_spec`).
fn node_step(
    ctx: &mut ValidationContext,
    rules: &[OpRule],
    names: &[String],
    vars: &StringHashMap<VarDecl>,
    model: &ModelLoader,
    kind: &NodeKind,
    loop_vars: &Vec<String>,
    acc: &mut WalkAcc,
    record: bool,
    pos: usize,
    Ghost(g): Ghost<GraphEnv>,
) -> (r: Result<(), ValidationError>)
    requires
        g.rules == rules@,
        g.names == string_views(names@),
        g.vars == vars@,
        g.model == *model,
        !(kind is Loop),
    ensures
        match node_step_spec(g, old(ctx).cv(), old(acc).av(), *kind, string_views(loop_vars@), record, pos as int) {
            Ok((c, a)) => r is Ok && final(ctx).cv() == c && final(acc).av() == a,
            Err(e) => r == Err::<(), ValidationError>(e),
        },
{
    let ghost lv = string_views(loop_vars@);
    match kind {
        NodeKind::Assign { name, dtype, dims } => {
            let ghost before = *ctx;
            let r = ctx.register_temp(name.as_str(), *dtype, dims.as_slice(), vars, model);
            proof {
                if r is Ok {
                    lemma_assign_cv(
                        before,
                        *ctx,
                        name@,
                        *dtype,
                        Seq::new(dims@.len(), |i: int| dim_value_spec(model.sizes@, dims@[i]@)->Ok_0),
                    );
                }
            }
            r
        },
        NodeKind::Op { op, attrs, inputs, output } => check_op(ctx, rules, vars, model, *op, attrs, inputs, output),
        NodeKind::Branch { cond, then_block, else_block } => {
            let c: Option<&str> = match cond {
                Some(x) => Some(x.as_str()),
                None => None,
            };
            let e: Option<&str> = match else_block {
                Some(x) => Some(x.as_str()),
                None => None,
            };
            assert(match c {
                Some(x) => cond matches Some(y) && x@ == y@,
                None => cond is None,
            });
            assert(match e {
                Some(x) => else_block matches Some(y) && x@ == y@,
                None => else_block is None,
            });
            let r = match ctx.validate_branch(names, c, then_block.as_str(), e) {
                Ok(()) => Ok(()),
                Err(x) => Err(x),
            };
            proof {
                let sv = string_views(names@);
                if !sv.contains(then_block@) {
                    assert(r == branch_spec(ctx.cv(), sv, *cond, then_block@, *else_block));
                } else if else_block matches Some(ee) && !sv.contains(ee@) {
                    assert(r == branch_spec(ctx.cv(), sv, *cond, then_block@, *else_block));
                } else if cond is None {
                    assert(r == branch_spec(ctx.cv(), sv, *cond, then_block@, *else_block));
                } else if else_block is None {
                    assert(r == branch_spec(ctx.cv(), sv, *cond, then_block@, *else_block));
                } else {
                    assert(r == branch_spec(ctx.cv(), sv, *cond, then_block@, *else_block));
                }
            }
            r
        },
        NodeKind::CacheRead { src, dst } => ctx.validate_cache_read(src, dst.as_str(), vars, model, loop_vars.as_slice()),
        NodeKind::CacheWrite { src, dst } => ctx.validate_cache_write(src.as_str(), dst, vars, model, loop_vars.as_slice()),
        NodeKind::CacheIncrement { target, .. } => ctx.validate_cache_bump(target.as_str(), vars),
        NodeKind::CacheDecrement { target, .. } => ctx.validate_cache_bump(target.as_str(), vars),
        NodeKind::CacheReset { target } => ctx.validate_cache_reset(target, vars, model, loop_vars.as_slice()),
        NodeKind::Transfer { src, dst } => ctx.validate_transfer(src.as_str(), dst.as_str(), vars),
        NodeKind::Yield { vars: ys } => {
            if record {
                acc.positions.push(pos);
            }
            check_names(ctx, vars, &mut acc.yields, ys, false)
        },
        NodeKind::Await { vars: aws } => check_names(ctx, vars, &mut acc.awaits, aws, true),
        _ => Ok(()),
    }
}

/// Check a loop bound (see `bound_spec`).
fn check_bound(ctx: &ValidationContext, expr: &str, model: &ModelLoader) -> (r: Result<(), ValidationError>)
    ensures
        r == bound_spec(ctx.cv(), expr@, model.sizes@),
{
    match ctx.validate_loop_bound(expr, model) {
        Ok(()) => Ok(()),
        Err(e) => Err(e),
    }
}

/// Walk the nodes at positions `idxs` (see `walk_spec`).
fn walk(
    ctx: &mut ValidationContext,
    nodes: &[Node],
    rules: &[OpRule],
    names: &[String],
    vars: &StringHashMap<VarDecl>,
    model: &ModelLoader,
    idxs: &[usize],
    floor: usize,
    loop_vars: &Vec<String>,
    acc: &mut WalkAcc,
    record: bool,
) -> (r: Result<(), ValidationError>)
    requires
        floor <= nodes@.len(),
    ensures
        match walk_spec(
            env_of(nodes@, rules@, names@, vars@, *model),
            old(ctx).cv(),
            old(acc).av(),
            idxs@,
            floor as int,
            string_views(loop_vars@),
            record,
            0,
        ) {
            Ok((c, a)) => r is Ok && final(ctx).cv() == c && final(acc).av() == a,
            Err(e) => r == Err::<(), ValidationError>(e),
        },
    decreases nodes@.len() - floor,
{
    let ghost g = env_of(nodes@, rules@, names@, vars@, *model);
    let ghost lv = string_views(loop_vars@);
    let ghost c0 = ctx.cv();
    let ghost a0 = acc.av();
    assert(idxs@.skip(0) =~= idxs@);
    let mut k: usize = 0;
    while k < idxs.len()
        invariant
            k <= idxs@.len(),
            floor <= nodes@.len(),
            g == env_of(nodes@, rules@, names@, vars@, *model),
            lv == string_views(loop_vars@),
            c0 == old(ctx).cv(),
            a0 == old(acc).av(),
            walk_spec(g, c0, a0, idxs@, floor as int, lv, record, 0) == walk_spec(
                g,
                ctx.cv(),
                acc.av(),
                idxs@.skip(k as int),
                floor as int,
                lv,
                record,
                k as int,
            ),
        decreases idxs@.len() - k,
    {
        let i = idxs[k];
        proof {
            assert(idxs@.skip(k as int)[0] == i);
            assert(idxs@.skip(k as int).drop_first() =~= idxs@.skip(k + 1));
        }
        if i < floor || i >= nodes.len() {
            return Err(ValidationError::MalformedNodeTable);
        }
        let node = &nodes[i];
        match &node.kind {
            NodeKind::Loop { index, start, end, body, .. } => {
                match check_bound(ctx, start.as_str(), model) {
                    Err(e) => return Err(e),
                    Ok(()) => {},
                }
                match check_bound(ctx, end.as_str(), model) {
                    Err(e) => return Err(e),
                    Ok(()) => {},
                }
                let mut inner = crate::graph::copy_strings(loop_vars);
                proof {
                    lemma_views_agree(inner@);
                }
                if !contains_name(inner.as_slice(), index) {
                    let ghost before = inner@;
                    inner.push(index.clone());
                    proof {
                        lemma_push_view(before, *index);
                    }
                }
                assert(string_views(inner@) == with_index(lv, index@));
                match walk(ctx, nodes, rules, names, vars, model, body.as_slice(), i + 1, &inner, acc, false) {
                    Err(e) => return Err(e),
                    Ok(()) => {},
                }
            },
            _ => {
                match node_step(ctx, rules, names, vars, model, &node.kind, loop_vars, acc, record, k, Ghost(g)) {
                    Err(e) => return Err(e),
                    Ok(()) => {},
                }
            },
        }
        k = k + 1;
    }
    assert(idxs@.skip(k as int) =~= Seq::<usize>::empty());
    Ok(())
}

/// Check one block (see `block_spec`); `names` are the names of all blocks
/// and `entry` that of the entry block.
fn validate_block(
    ctx: &mut ValidationContext,
    nodes: &[Node],
    rules: &[OpRule],
    names: &[String],
    vars: &StringHashMap<VarDecl>,
    model: &ModelLoader,
    block: &BlockNodes,
    entry: &str,
) -> (r: Result<(), ValidationError>)
    ensures
        match block_spec(env_of(nodes@, rules@, names@, vars@, *model), old(ctx).cv(), *block, entry@) {
            Ok(c) => r is Ok && final(ctx).cv() == c,
            Err(e) => r == Err::<(), ValidationError>(e),
        },
{
    let mut acc = WalkAcc { awaits: Vec::new(), yields: Vec::new(), positions: Vec::new() };
    assert(acc.av().awaits =~= Seq::<Seq<char>>::empty());
    assert(acc.av().yields =~= Seq::<Seq<char>>::empty());
    let no_loops: Vec<String> = Vec::new();
    assert(string_views(no_loops@) =~= Seq::<Seq<char>>::empty());
    match walk(ctx, nodes, rules, names, vars, model, block.nodes.as_slice(), 0, &no_loops, &mut acc, true) {
        Err(e) => return Err(e),
        Ok(()) => {},
    }
    let info = Block { name: block.name.clone(), node_count: block.nodes.len() };
    let is_entry = crate::text::str_eq(block.name.as_str(), entry);
    validate_yield_rules(&info, is_entry, acc.awaits.as_slice(), acc.yields.as_slice(), acc.positions.as_slice())
}

/// The names of the blocks.
fn collect_names(blocks: &[BlockNodes]) -> (r: Vec<String>)
    ensures
        string_views(r@) == block_names(blocks@),
{
    let mut out: Vec<String> = Vec::new();
    let mut i: usize = 0;
    while i < blocks.len()
        invariant
            i <= blocks@.len(),
            out@.len() == i,
            forall|j: int| 0 <= j < i ==> (#[trigger] out@[j])@ == blocks@[j].name@,
        decreases blocks@.len() - i,
    {
        out.push(blocks[i].name.clone());
        i = i + 1;
    }
    assert(string_views(out@) =~= block_names(blocks@));
    out
}

/// The name of the block a run starts with (see `entry_name`).
fn find_entry(blocks: &[BlockNodes]) -> (r: String)
    requires
        blocks@.len() > 0,
    ensures
        r@ == entry_name(blocks@),
{
    let mut i: usize = 0;
    while i < blocks.len()
        invariant
            i <= blocks@.len(),
            forall|j: int| 0 <= j < i ==> #[trigger] blocks@[j].name@ != "entry"@,
        decreases blocks@.len() - i,
    {
        if crate::text::str_eq(blocks[i].name.as_str(), "entry") {
            return blocks[i].name.clone();
        }
        i = i + 1;
    }
    blocks[0].name.clone()
}

/// The environment of the blocks' walk.
pub open spec fn blocks_env(
    nodes: Seq<Node>,
    rules: Seq<OpRule>,
    blocks: Seq<BlockNodes>,
    vars: Map<Seq<char>, VarDecl>,
    model: ModelLoader,
) -> GraphEnv {
    GraphEnv { nodes, rules, names: block_names(blocks), vars, model }
}

/// The blocks' check: there must be one; then every block in order.
pub open spec fn all_blocks_spec(g: GraphEnv, ctx: CtxView, blocks: Seq<BlockNodes>) -> Result<CtxView, ValidationError> {
    if blocks.len() == 0 {
        Err(ValidationError::NoBlocks)
    } else {
        blocks_spec(g, ctx, blocks, entry_name(blocks), blocks.len())
    }
}

/// Check every block in order, the node table's loop bodies included (see
/// `all_blocks_spec`).
pub fn validate_blocks(
    ctx: &mut ValidationContext,
    nodes: &[Node],
    rules: &[OpRule],
    vars: &StringHashMap<VarDecl>,
    model: &ModelLoader,
    blocks: &[BlockNodes],
) -> (r: Result<(), ValidationError>)
    ensures
        match all_blocks_spec(blocks_env(nodes@, rules@, blocks@, vars@, *model), old(ctx).cv(), blocks@) {
            Ok(c) => r is Ok && final(ctx).cv() == c,
            Err(e) => r == Err::<(), ValidationError>(e),
        },
{
    if blocks.len() == 0 {
        return Err(ValidationError::NoBlocks);
    }
    let names = collect_names(blocks);
    let entry = find_entry(blocks);
    let ghost g = blocks_env(nodes@, rules@, blocks@, vars@, *model);
    assert(env_of(nodes@, rules@, names@, vars@, *model) == g);
    let ghost c0 = ctx.cv();
    let mut i: usize = 0;
    while i < blocks.len()
        invariant
            i <= blocks@.len(),
            g == env_of(nodes@, rules@, names@, vars@, *model),
            g == blocks_env(nodes@, rules@, blocks@, vars@, *model),
            entry@ == entry_name(blocks@),
            c0 == old(ctx).cv(),
            blocks@.len() > 0,
            blocks_spec(g, c0, blocks@, entry@, i as nat) == Ok::<CtxView, ValidationError>(ctx.cv()),
        decreases blocks@.len() - i,
    {
        let ghost cb = ctx.cv();
        let r = validate_block(ctx, nodes, rules, names.as_slice(), vars, model, &blocks[i], entry.as_str());
        assert(blocks_spec(g, c0, blocks@, entry@, (i + 1) as nat) == block_spec(g, cb, blocks@[i as int], entry@));
        match r {
            Err(e) => {
                proof {
                    assert(blocks_spec(g, c0, blocks@, entry@, (i + 1) as nat) == Err::<CtxView, ValidationError>(e));
                    lemma_blocks_err(g, c0, blocks@, entry@, (i + 1) as nat, blocks@.len());
                    assert(all_blocks_spec(g, c0, blocks@) == Err::<CtxView, ValidationError>(e));
                }
                return Err(e);
            },
            Ok(()) => {},
        }
        i = i + 1;
    }
    Ok(())
}

/// Once a block fails, the check of every longer prefix fails the same way.
proof fn lemma_blocks_err(g: GraphEnv, ctx: CtxView, blocks: Seq<BlockNodes>, entry: Seq<char>, i: nat, n: nat)
    requires
        i <= n,
        blocks_spec(g, ctx, blocks, entry, i) is Err,
    ensures
        blocks_spec(g, ctx, blocks, entry, n) == blocks_spec(g, ctx, blocks, entry, i),
    decreases n - i,
{
    if i < n {
        lemma_blocks_err(g, ctx, blocks, entry, i, (n - 1) as nat);
    }
}

/// The whole graph's check: the declarations in order (see `vars_ok_spec`),
/// then every block against the variables they declare, with the operator
/// table `rules`.
pub open spec fn graph_check_spec(
    model: ModelLoader,
    decls: Seq<VarDecl>,
    blocks: Seq<BlockNodes>,
    nodes: Seq<Node>,
    rules: Seq<OpRule>,
) -> Result<(), ValidationError> {
    match vars_ok_spec(Map::empty(), decls, decls.len(), model.sizes@, model.vars@) {
        Err(e) => Err(e),
        Ok(_) => match decl_tables(decls, model.sizes@) {
            Err(_) => Err(ValidationError::InvalidDims),
            Ok((v, sh, dt)) => match all_blocks_spec(
                blocks_env(nodes, rules, blocks, v, model),
                CtxView { dtypes: dt, shapes: sh, temps: Set::empty() },
                blocks,
            ) {
                Err(e) => Err(e),
                Ok(_) => Ok(()),
            },
        },
    }
}

/// Check a graph against a model before it runs (see `graph_check_spec`):
/// its declarations, then every node of every block, with what the
/// operator table `rules` says of each operator.
pub fn validate_graph(
    model: &ModelLoader,
    decls: Vec<VarDecl>,
    blocks: &[BlockNodes],
    nodes: &[Node],
    rules: &[OpRule],
) -> (r: Result<(), ValidationError>)
    ensures
        r == graph_check_spec(*model, decls@, blocks@, nodes@, rules@),
{
    let mut first = ValidationContext::new();
    assert(first.var_dtypes@ =~= Map::<Seq<char>, DType>::empty());
    match first.validate_vars(decls.as_slice(), model) {
        Err(e) => return Err(e),
        Ok(()) => {},
    }
    let (vars, shapes, dtypes) = match build_decl_tables(decls, model) {
        Ok(t) => t,
        Err(_) => return Err(ValidationError::InvalidDims),
    };
    let mut ctx = ValidationContext { var_shapes: shapes, var_dtypes: dtypes, temps: StringHashMap::new() };
    assert(ctx.cv().shapes =~= shapes_view(ctx.var_shapes@));
    assert(ctx.cv().temps =~= Set::<Seq<char>>::empty());
    match validate_blocks(&mut ctx, nodes, rules, &vars, model, blocks) {
        Err(e) => Err(e),
        Ok(()) => Ok(()),
    }
}

} // verus!
