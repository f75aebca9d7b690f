//! Planning of Vulkan kernel dispatches: each operator's checks, the choice
//! between a GPU launch and the CPU kernel, and the launch's descriptors and
//! push constants. The host carries out the plan.
use vstd::prelude::*;
use vstd::string::StringExecFns;
use crate::dtype::{bits_of, packed, DType};
use crate::tensor::{numel, TensorValue};
use crate::vk_common::{
    collect_scalar_attr_bits, collect_spec, dtype_class, dtype_class_spec, find_attr, attr_pos,
    AttrDef, AttrValue, DTypeClass, FloatImage, OpAttrs, ScalarAttrBits, VkError,
};
use crate::vk_desc::{
    build_tensor_desc, build_tensor_desc_broadcast, desc_view, tensor_desc_broadcast_spec,
    tensor_desc_spec, TensorDesc, VulkanCaps, MAX_DIMS,
};

verus! {

/// Operators that have kernels.
#[derive(Clone, Copy, Debug, PartialEq, Eq, Structural)]
pub enum OpKind {
    Add,
    Sub,
    Mul,
    Div,
    FloorDiv,
    Rem,
    Neg,
    Recip,
    Sign,
    Abs,
    Min,
    Max,
    Clamp,
    Floor,
    Ceil,
    Round,
    Trunc,
    And,
    Or,
    Xor,
    Not,
    Shl,
    Shr,
    Popcount,
    Eq,
    Ne,
    Lt,
    Le,
    Gt,
    Ge,
    IsNan,
    IsInf,
    IsNeg,
    IsFinite,
    Filter,
    Fma,
    SumAxis,
    MeanAxis,
    ProdAxis,
    MaxAxis,
    MinAxis,
    ArgmaxAxis,
    ArgminAxis,
    Cast,
    Relu,
    Matmul,
    Fill,
}

/// How an operator writes its output.
#[derive(Clone, Copy, Debug, PartialEq, Eq, Structural)]
pub enum OpMode {
    Normal,
    Inplace,
    Accumulate,
}

/// What selects a kernel: operator, mode, broadcasting, input types and
/// output type.
#[derive(Clone, Debug)]
pub struct OpKey {
    pub kind: OpKind,
    pub mode: OpMode,
    pub broadcast: bool,
    pub inputs: Vec<DType>,
    pub out0: DType,
    pub acc_rule: Option<Vec<DType>>,
}

/// A kernel key as a value.
pub struct OpKeyView {
    pub kind: OpKind,
    pub mode: OpMode,
    pub broadcast: bool,
    pub inputs: Seq<DType>,
    pub out0: DType,
    pub acc_rule: Option<Seq<DType>>,
}

/// An accumulation rule as values.
pub open spec fn rule_view(r: Option<Vec<DType>>) -> Option<Seq<DType>> {
    match r {
        Some(v) => Some(v@),
        None => None,
    }
}

impl View for OpKey {
    type V = OpKeyView;

    open spec fn view(&self) -> OpKeyView {
        OpKeyView {
            kind: self.kind,
            mode: self.mode,
            broadcast: self.broadcast,
            inputs: self.inputs@,
            out0: self.out0,
            acc_rule: rule_view(self.acc_rule),
        }
    }
}

/// Whether two lists of element types are equal.
pub fn dtype_seq_eq(a: &Vec<DType>, b: &Vec<DType>) -> (r: bool)
    ensures
        r == (a@ == b@),
{
    if a.len() != b.len() {
        return false;
    }
    let mut i: usize = 0;
    while i < a.len()
        invariant
            i <= a@.len() == b@.len(),
            forall|j: int| 0 <= j < i ==> a@[j] == b@[j],
        decreases a@.len() - i,
    {
        if a[i] != b[i] {
            return false;
        }
        i = i + 1;
    }
    assert(a@ =~= b@);
    true
}

/// Whether two kernel keys are equal.
pub fn op_key_eq(a: &OpKey, b: &OpKey) -> (r: bool)
    ensures
        r == (a@ == b@),
{
    if a.kind != b.kind || a.mode != b.mode || a.broadcast != b.broadcast || a.out0 != b.out0 {
        return false;
    }
    if a.inputs.len() != b.inputs.len() {
        return false;
    }
    match (&a.acc_rule, &b.acc_rule) {
        (None, None) => {},
        (Some(x), Some(y)) => {
            if !dtype_seq_eq(x, y) {
                return false;
            }
        },
        _ => {
            return false;
        },
    }
    let mut i: usize = 0;
    while i < a.inputs.len()
        invariant
            i <= a.inputs@.len() == b.inputs@.len(),
            forall|j: int| 0 <= j < i ==> a.inputs@[j] == b.inputs@[j],
        decreases a.inputs@.len() - i,
    {
        if a.inputs[i] != b.inputs[i] {
            return false;
        }
        i = i + 1;
    }
    assert(a.inputs@ =~= b.inputs@);
    true
}

/// The last registration of `key` among the first `n` entries.
pub open spec fn last_match(entries: Seq<(OpKey, usize)>, key: OpKeyView, n: nat) -> Option<int>
    decreases n,
{
    if n == 0 {
        None
    } else if entries[n - 1].0@ == key {
        Some(n - 1)
    } else {
        last_match(entries, key, (n - 1) as nat)
    }
}

/// The kernel registered for `key`; a later registration of the same key
/// replaces an earlier one.
pub fn lookup_kernel(entries: &[(OpKey, usize)], key: &OpKey) -> (r: Result<usize, VkError>)
    ensures
        match last_match(entries@, key@, entries@.len()) {
            Some(i) => r == Ok::<usize, VkError>(entries@[i].1),
            None => r == Err::<usize, VkError>(VkError::UnsupportedOp),
        },
{
    let mut i: usize = entries.len();
    while i > 0
        invariant
            i <= entries@.len(),
            last_match(entries@, key@, entries@.len()) == last_match(entries@, key@, i as nat),
        decreases i,
    {
        if op_key_eq(&entries[i - 1].0, key) {
            return Ok(entries[i - 1].1);
        }
        i = i - 1;
    }
    Err(VkError::UnsupportedOp)
}

/// What the host knows that a plan depends on: the device capabilities (no
/// Vulkan runtime when absent), whether the op registry has a Vulkan target
/// for the op and types, that target's kernel entry name, the byte offsets
/// of the inputs in the staging buffer, the op's attribute schema, and the
/// float images of each attribute of the node.
#[derive(Clone, Debug)]
pub struct DispatchEnv {
    pub caps: Option<VulkanCaps>,
    pub op_supported: bool,
    pub target: Option<String>,
    pub input_offsets: Vec<u32>,
    pub schema_attrs: Vec<AttrDef>,
    pub images: Vec<FloatImage>,
}

/// A launch of a kernel: its entry, one descriptor per bound tensor, the
/// push constants as words, and the number of invocations.
#[derive(Clone, Debug)]
pub struct LaunchPlan {
    pub entry: String,
    pub descs: Vec<TensorDesc>,
    pub push: Vec<u32>,
    pub len: u32,
}

/// Run the CPU kernel for a key, or launch on the GPU.
#[derive(Clone, Debug)]
pub enum DispatchPlan {
    Fallback(OpKey),
    Launch(LaunchPlan),
}

/// A descriptor as its parts.
pub type DescView = (u32, u32, u32, u32, Seq<u32>, Seq<u32>);

/// A plan as values.
pub enum PlanView {
    Fallback(OpKeyView),
    Launch { entry: Seq<char>, descs: Seq<DescView>, push: Seq<u32>, len: u32 },
}

/// A plan as values.
pub open spec fn plan_view(p: DispatchPlan) -> PlanView {
    match p {
        DispatchPlan::Fallback(k) => PlanView::Fallback(k@),
        DispatchPlan::Launch(l) => PlanView::Launch {
            entry: l.entry@,
            descs: l.descs@.map_values(|d: TensorDesc| desc_view(d)),
            push: l.push@,
            len: l.len,
        },
    }
}

/// Input element types.
pub open spec fn dtypes_of(inputs: Seq<TensorValue>) -> Seq<DType> {
    Seq::new(inputs.len(), |i: int| inputs[i].dtype)
}

/// Input element types.
fn input_dtypes(inputs: &[TensorValue]) -> (r: Vec<DType>)
    ensures
        r@ == dtypes_of(inputs@),
{
    let mut out: Vec<DType> = Vec::new();
    let mut i: usize = 0;
    while i < inputs.len()
        invariant
            i <= inputs@.len(),
            out@ == dtypes_of(inputs@).subrange(0, i as int),
        decreases inputs@.len() - i,
    {
        out.push(inputs[i].dtype);
        i = i + 1;
        assert(out@ =~= dtypes_of(inputs@).subrange(0, i as int));
    }
    assert(out@ =~= dtypes_of(inputs@));
    out
}

/// The GPU path stays open: rank within the descriptor limit, a runtime
/// present that supports both types, and a registered Vulkan target.
pub open spec fn gpu_path_open(exceeds: bool, env: DispatchEnv, i: DType, o: DType) -> bool {
    &&& !exceeds
    &&& env.caps matches Some(c)
    &&& c.supports_spec(i)
    &&& c.supports_spec(o)
    &&& env.op_supported
}

/// Whether the GPU path stays open.
fn gpu_path_check(exceeds: bool, env: &DispatchEnv, i: DType, o: DType) -> (r: bool)
    ensures
        r == gpu_path_open(exceeds, *env, i, o),
{
    if exceeds {
        return false;
    }
    match env.caps {
        Some(c) => c.supports_dtype(i) && c.supports_dtype(o) && env.op_supported,
        None => false,
    }
}

/// Byte offset of input `k` in the staging buffer (0 when not given).
pub open spec fn offset_at(env: DispatchEnv, k: int) -> u32 {
    if 0 <= k < env.input_offsets@.len() {
        env.input_offsets@[k]
    } else {
        0
    }
}

fn offset_of_input(env: &DispatchEnv, k: usize) -> (r: u32)
    ensures
        r == offset_at(*env, k as int),
{
    if k < env.input_offsets.len() {
        env.input_offsets[k]
    } else {
        0
    }
}

/// Number of elements as a `u32` (truncated).
pub open spec fn len_u32(shape: Seq<usize>) -> u32 {
    numel(shape) as u32
}

/// Low and high words of a 64-bit value.
pub open spec fn lo32(x: u64) -> u32 {
    (x % 0x1_0000_0000) as u32
}

pub open spec fn hi32(x: u64) -> u32 {
    (x / 0x1_0000_0000) as u32
}

fn split64(x: u64) -> (r: (u32, u32))
    ensures
        r == (lo32(x), hi32(x)),
{
    ((x % 0x1_0000_0000) as u32, (x / 0x1_0000_0000) as u32)
}

/// Size of dimension `i` of `s` aligned to `rank` dimensions from the right.
pub open spec fn bdim(s: Seq<usize>, rank: int, i: int) -> usize {
    if i < rank - s.len() {
        1
    } else {
        s[i - (rank - s.len())]
    }
}

/// The larger of two ranks.
pub open spec fn brank(a: Seq<usize>, b: Seq<usize>) -> int {
    if a.len() < b.len() {
        b.len() as int
    } else {
        a.len() as int
    }
}

/// The broadcast of two shapes: aligned from the right, each pair of sizes
/// equal or one of them 1.
pub open spec fn broadcast_shape_spec(a: Seq<usize>, b: Seq<usize>) -> Option<Seq<usize>> {
    let rank = brank(a, b);
    if forall|i: int|
        0 <= i < rank ==> #[trigger] bdim(a, rank, i) == bdim(b, rank, i) || bdim(a, rank, i) == 1
            || bdim(b, rank, i) == 1 {
        Some(
            Seq::new(
                rank as nat,
                |i: int| if bdim(a, rank, i) == 1 { bdim(b, rank, i) } else { bdim(a, rank, i) },
            ),
        )
    } else {
        None
    }
}

/// The broadcast of two shapes.
pub fn broadcast_shape(a: &[usize], b: &[usize]) -> (r: Result<Vec<usize>, VkError>)
    ensures
        match broadcast_shape_spec(a@, b@) {
            Some(s) => r matches Ok(v) && v@ == s,
            None => r == Err::<Vec<usize>, VkError>(VkError::BroadcastIncompatible),
        },
{
    let rank: usize = if a.len() < b.len() {
        b.len()
    } else {
        a.len()
    };
    let ghost rk = rank as int;
    let mut out: Vec<usize> = Vec::new();
    let mut i: usize = 0;
    while i < rank
        invariant
            i <= rank,
            rk == rank,
            rk == brank(a@, b@),
            rank == if a@.len() < b@.len() { b@.len() } else { a@.len() },
            forall|j: int|
                0 <= j < i ==> #[trigger] bdim(a@, rk, j) == bdim(b@, rk, j) || bdim(a@, rk, j) == 1
                    || bdim(b@, rk, j) == 1,
            out@ == Seq::new(
                i as nat,
                |j: int| if bdim(a@, rk, j) == 1 { bdim(b@, rk, j) } else { bdim(a@, rk, j) },
            ),
        decreases rank - i,
    {
        let da = if i < rank - a.len() {
            1
        } else {
            a[i - (rank - a.len())]
        };
        let db = if i < rank - b.len() {
            1
        } else {
            b[i - (rank - b.len())]
        };
        assert(da == bdim(a@, rk, i as int));
        assert(db == bdim(b@, rk, i as int));
        if !(da == db || da == 1 || db == 1) {
            proof {
                let ii = i as int;
                assert(rk == brank(a@, b@));
                assert(0 <= ii < rk);
                assert(!(bdim(a@, rk, ii) == bdim(b@, rk, ii) || bdim(a@, rk, ii) == 1 || bdim(b@, rk, ii) == 1));
                assert(broadcast_shape_spec(a@, b@) is None);
            }
            return Err(VkError::BroadcastIncompatible);
        }
        out.push(if da == 1 { db } else { da });
        i = i + 1;
        assert(out@ =~= Seq::new(
            i as nat,
            |j: int| if bdim(a@, rk, j) == 1 { bdim(b@, rk, j) } else { bdim(a@, rk, j) },
        ));
    }
    Ok(out)
}

/// The `div_by_zero_mask` encodings of a collected attribute map, or zeros.
pub open spec fn mask_of(m: Map<Seq<char>, ScalarAttrBits>) -> ScalarAttrBits {
    if m.contains_key("div_by_zero_mask"@) {
        m["div_by_zero_mask"@]
    } else {
        ScalarAttrBits::zero()
    }
}

/// The plan of a floor division: two inputs that broadcast to the output's
/// shape; the GPU path needs the device checks, the attribute encodings and a target.
pub open spec fn floor_div_plan_spec(
    mode: OpMode,
    attrs: OpAttrs,
    inputs: Seq<TensorValue>,
    output: Option<TensorValue>,
    env: DispatchEnv,
) -> Result<PlanView, VkError> {
    if inputs.len() != 2 {
        Err(VkError::WrongInputCount)
    } else if output is None {
        Err(VkError::MissingOutput)
    } else {
        let out = output->Some_0;
        let a = inputs[0];
        let b = inputs[1];
        match broadcast_shape_spec(a.shape@, b.shape@) {
            None => Err(VkError::BroadcastIncompatible),
            Some(os) => if out.shape@ != os {
                Err(VkError::ShapeMismatch)
            } else {
                let idt = a.dtype;
                let bc = a.shape@ != b.shape@;
                let key = OpKeyView { kind: OpKind::FloorDiv, mode, broadcast: bc, inputs: dtypes_of(inputs), out0: idt, acc_rule: None };
                if !gpu_path_open(os.len() > MAX_DIMS, env, idt, idt) {
                    Ok(PlanView::Fallback(key))
                } else {
                    match collect_spec(env.schema_attrs@, dtype_class_spec(idt), attrs.items@, env.images@, env.schema_attrs@.len()) {
                        Err(e) => Err(e),
                        Ok(m) => match env.target {
                            None => Ok(PlanView::Fallback(key)),
                            Some(t) => {
                                let mask = mask_of(m);
                                let r = os.len();
                                let descs = if mode == OpMode::Inplace {
                                    seq![
                                        tensor_desc_spec(out.dtype, out.shape@, r, offset_at(env, 0)),
                                        tensor_desc_broadcast_spec(b.dtype, b.shape@, os, offset_at(env, 1)),
                                    ]
                                } else {
                                    seq![
                                        tensor_desc_broadcast_spec(a.dtype, a.shape@, os, offset_at(env, 0)),
                                        tensor_desc_broadcast_spec(b.dtype, b.shape@, os, offset_at(env, 1)),
                                        tensor_desc_spec(out.dtype, out.shape@, r, 0),
                                    ]
                                };
                                Ok(PlanView::Launch {
                                    entry: t@,
                                    descs,
                                    push: seq![
                                        len_u32(out.shape@),
                                        descs.len() as u32,
                                        0u32,
                                        0u32,
                                        lo32(mask.u64_bits),
                                        hi32(mask.u64_bits),
                                        lo32(mask.i64_bits),
                                        hi32(mask.i64_bits),
                                        mask.f32_bits,
                                        lo32(mask.f64_bits),
                                        hi32(mask.f64_bits),
                                        mask.u8 as u32,
                                        mask.bool_u32,
                                    ],
                                    len: len_u32(out.shape@),
                                })
                            },
                        },
                    }
                }
            },
        }
    }
}

/// Plan a floor division.
fn dispatch_floor_div(
    mode: OpMode,
    attrs: &OpAttrs,
    inputs: &[TensorValue],
    output: Option<&TensorValue>,
    env: &DispatchEnv,
) -> (r: Result<DispatchPlan, VkError>)
    requires
        forall|i: int| 0 <= i < inputs@.len() ==> (#[trigger] inputs@[i]).wf(),
        output matches Some(o) ==> o.wf(),
        env.images@.len() == attrs.items@.len(),
    ensures
        match floor_div_plan_spec(mode, *attrs, inputs@, match output { Some(o) => Some(*o), None => None }, *env) {
            Ok(p) => r matches Ok(rp) && plan_view(rp) == p,
            Err(e) => r == Err::<DispatchPlan, VkError>(e),
        },
{
    if inputs.len() != 2 {
        return Err(VkError::WrongInputCount);
    }
    let out = match output {
        Some(o) => o,
        None => return Err(VkError::MissingOutput),
    };
    let a = &inputs[0];
    let b = &inputs[1];
    let os = broadcast_shape(a.shape.as_slice(), b.shape.as_slice())?;
    if !crate::cache_table::same_key(out.shape.as_slice(), os.as_slice()) {
        return Err(VkError::ShapeMismatch);
    }
    let idt = a.dtype;
    let bc = !crate::cache_table::same_key(a.shape.as_slice(), b.shape.as_slice());
    let key = OpKey { kind: OpKind::FloorDiv, mode, broadcast: bc, inputs: input_dtypes(inputs), out0: idt, acc_rule: None };
    if !gpu_path_check(os.len() > MAX_DIMS, env, idt, idt) {
        return Ok(DispatchPlan::Fallback(key));
    }
    let m = collect_scalar_attr_bits(env.schema_attrs.as_slice(), idt, attrs, env.images.as_slice())?;
    let mask = match m.get("div_by_zero_mask") {
        Some(b) => *b,
        None => ScalarAttrBits { f64_bits: 0, f32_bits: 0, i64_bits: 0, u64_bits: 0, bool_u32: 0, u8: 0 },
    };
    let t = match &env.target {
        Some(t) => t.clone(),
        None => return Ok(DispatchPlan::Fallback(key)),
    };
    let r = os.len();
    let mut descs: Vec<TensorDesc> = Vec::new();
    if mode == OpMode::Inplace {
        let d0 = build_tensor_desc(out, r, offset_of_input(env, 0))?;
        let d1 = build_tensor_desc_broadcast(b, os.as_slice(), offset_of_input(env, 1))?;
        descs.push(d0);
        descs.push(d1);
    } else {
        let d0 = build_tensor_desc_broadcast(a, os.as_slice(), offset_of_input(env, 0))?;
        let d1 = build_tensor_desc_broadcast(b, os.as_slice(), offset_of_input(env, 1))?;
        let d2 = build_tensor_desc(out, r, 0)?;
        descs.push(d0);
        descs.push(d1);
        descs.push(d2);
    }
    let len = #[verifier::truncate] (out.len() as u32);
    let (ul, uh) = split64(mask.u64_bits);
    let (il, ih) = split64(mask.i64_bits);
    let (fl, fh) = split64(mask.f64_bits);
    let mut push: Vec<u32> = Vec::new();
    push.push(len);
    push.push(descs.len() as u32);
    push.push(0);
    push.push(0);
    push.push(ul);
    push.push(uh);
    push.push(il);
    push.push(ih);
    push.push(mask.f32_bits);
    push.push(fl);
    push.push(fh);
    push.push(mask.u8 as u32);
    push.push(mask.bool_u32);
    let plan = LaunchPlan { entry: t, descs, push, len };
    proof {
        let pv = plan_view(DispatchPlan::Launch(plan));
        let sp = floor_div_plan_spec(mode, *attrs, inputs@, Some(*out), *env);
        assert(pv->descs =~= sp->Ok_0->descs);
        assert(pv->push =~= sp->Ok_0->push);
    }
    Ok(DispatchPlan::Launch(plan))
}

/// Plan a floor division writing a separate output.
pub fn floor_div_normal_dispatch(attrs: &OpAttrs, inputs: &[TensorValue], output: Option<&TensorValue>, env: &DispatchEnv) -> (r: Result<DispatchPlan, VkError>)
    requires
        forall|i: int| 0 <= i < inputs@.len() ==> (#[trigger] inputs@[i]).wf(),
        output matches Some(o) ==> o.wf(),
        env.images@.len() == attrs.items@.len(),
    ensures
        match floor_div_plan_spec(OpMode::Normal, *attrs, inputs@, match output { Some(o) => Some(*o), None => None }, *env) {
            Ok(p) => r matches Ok(rp) && plan_view(rp) == p,
            Err(e) => r == Err::<DispatchPlan, VkError>(e),
        },
{
    dispatch_floor_div(OpMode::Normal, attrs, inputs, output, env)
}

/// Plan a floor division written into its first input.
pub fn floor_div_inplace_dispatch(attrs: &OpAttrs, inputs: &[TensorValue], output: Option<&TensorValue>, env: &DispatchEnv) -> (r: Result<DispatchPlan, VkError>)
    requires
        forall|i: int| 0 <= i < inputs@.len() ==> (#[trigger] inputs@[i]).wf(),
        output matches Some(o) ==> o.wf(),
        env.images@.len() == attrs.items@.len(),
    ensures
        match floor_div_plan_spec(OpMode::Inplace, *attrs, inputs@, match output { Some(o) => Some(*o), None => None }, *env) {
            Ok(p) => r matches Ok(rp) && plan_view(rp) == p,
            Err(e) => r == Err::<DispatchPlan, VkError>(e),
        },
{
    dispatch_floor_div(OpMode::Inplace, attrs, inputs, output, env)
}

/// The requirements common to the plan functions.
pub open spec fn plan_inputs_ok(inputs: Seq<TensorValue>, output: Option<&TensorValue>, attrs: OpAttrs, env: DispatchEnv) -> bool {
    &&& forall|i: int| 0 <= i < inputs.len() ==> (#[trigger] inputs[i]).wf()
    &&& (output matches Some(o) ==> o.wf())
    &&& env.images@.len() == attrs.items@.len()
}

/// The output a plan function was given, as a value.
pub open spec fn out_val(output: Option<&TensorValue>) -> Option<TensorValue> {
    match output {
        Some(o) => Some(*o),
        None => None,
    }
}

/// The plan of a fused multiply-add: three inputs and an output of one
/// shape and type; the GPU path needs the device checks and a target.
pub open spec fn fma_plan_spec(
    mode: OpMode,
    inputs: Seq<TensorValue>,
    output: Option<TensorValue>,
    env: DispatchEnv,
) -> Result<PlanView, VkError> {
    if inputs.len() != 3 {
        Err(VkError::WrongInputCount)
    } else if inputs[0].shape@ != inputs[1].shape@ || inputs[0].shape@ != inputs[2].shape@ {
        Err(VkError::ShapeMismatch)
    } else if output is None {
        Err(VkError::MissingOutput)
    } else {
        let out = output->Some_0;
        let idt = inputs[0].dtype;
        if out.shape@ != inputs[0].shape@ {
            Err(VkError::ShapeMismatch)
        } else if out.dtype != idt {
            Err(VkError::DtypeMismatch)
        } else {
            let r = out.shape@.len();
            let key = OpKeyView { kind: OpKind::Fma, mode, broadcast: false, inputs: dtypes_of(inputs), out0: idt, acc_rule: None };
            if !gpu_path_open(r > MAX_DIMS, env, idt, idt) {
                Ok(PlanView::Fallback(key))
            } else {
                match env.target {
                    None => Ok(PlanView::Fallback(key)),
                    Some(t) => {
                        let first = if mode == OpMode::Inplace { out } else { inputs[0] };
                        let common = seq![
                            tensor_desc_spec(first.dtype, first.shape@, r, offset_at(env, 0)),
                            tensor_desc_spec(inputs[1].dtype, inputs[1].shape@, r, offset_at(env, 1)),
                            tensor_desc_spec(inputs[2].dtype, inputs[2].shape@, r, offset_at(env, 2)),
                        ];
                        let descs = if mode == OpMode::Inplace {
                            common
                        } else {
                            common.push(tensor_desc_spec(out.dtype, out.shape@, r, 0))
                        };
                        Ok(PlanView::Launch {
                            entry: t@,
                            descs,
                            push: seq![len_u32(out.shape@), descs.len() as u32, 0u32, 0u32],
                            len: len_u32(out.shape@),
                        })
                    },
                }
            }
        }
    }
}

/// Plan a fused multiply-add.
fn dispatch_fma(mode: OpMode, inputs: &[TensorValue], output: Option<&TensorValue>, env: &DispatchEnv) -> (r: Result<DispatchPlan, VkError>)
    requires
        forall|i: int| 0 <= i < inputs@.len() ==> (#[trigger] inputs@[i]).wf(),
        output matches Some(o) ==> o.wf(),
    ensures
        match fma_plan_spec(mode, inputs@, out_val(output), *env) {
            Ok(p) => r matches Ok(rp) && plan_view(rp) == p,
            Err(e) => r == Err::<DispatchPlan, VkError>(e),
        },
{
    if inputs.len() != 3 {
        return Err(VkError::WrongInputCount);
    }
    if !crate::cache_table::same_key(inputs[0].shape.as_slice(), inputs[1].shape.as_slice())
        || !crate::cache_table::same_key(inputs[0].shape.as_slice(), inputs[2].shape.as_slice()) {
        return Err(VkError::ShapeMismatch);
    }
    let out = match output {
        Some(o) => o,
        None => return Err(VkError::MissingOutput),
    };
    if !crate::cache_table::same_key(out.shape.as_slice(), inputs[0].shape.as_slice()) {
        return Err(VkError::ShapeMismatch);
    }
    let idt = inputs[0].dtype;
    if out.dtype != idt {
        return Err(VkError::DtypeMismatch);
    }
    let r = out.shape.len();
    let key = OpKey { kind: OpKind::Fma, mode, broadcast: false, inputs: input_dtypes(inputs), out0: idt, acc_rule: None };
    if !gpu_path_check(r > MAX_DIMS, env, idt, idt) {
        return Ok(DispatchPlan::Fallback(key));
    }
    let t = match &env.target {
        Some(t) => t.clone(),
        None => return Ok(DispatchPlan::Fallback(key)),
    };
    let first = if mode == OpMode::Inplace {
        out
    } else {
        &inputs[0]
    };
    let mut descs: Vec<TensorDesc> = Vec::new();
    let d0 = build_tensor_desc(first, r, offset_of_input(env, 0))?;
    let d1 = build_tensor_desc(&inputs[1], r, offset_of_input(env, 1))?;
    let d2 = build_tensor_desc(&inputs[2], r, offset_of_input(env, 2))?;
    descs.push(d0);
    descs.push(d1);
    descs.push(d2);
    if mode != OpMode::Inplace {
        let d3 = build_tensor_desc(out, r, 0)?;
        descs.push(d3);
    }
    let len = #[verifier::truncate] (out.len() as u32);
    let mut push: Vec<u32> = Vec::new();
    push.push(len);
    push.push(descs.len() as u32);
    push.push(0);
    push.push(0);
    let plan = LaunchPlan { entry: t, descs, push, len };
    proof {
        let pv = plan_view(DispatchPlan::Launch(plan));
        let sp = fma_plan_spec(mode, inputs@, out_val(output), *env);
        assert(pv->descs =~= sp->Ok_0->descs);
        assert(pv->push =~= sp->Ok_0->push);
    }
    Ok(DispatchPlan::Launch(plan))
}

/// Plan a fused multiply-add writing a separate output.
pub fn fma_normal_dispatch(attrs: &OpAttrs, inputs: &[TensorValue], output: Option<&TensorValue>, env: &DispatchEnv) -> (r: Result<DispatchPlan, VkError>)
    requires
        plan_inputs_ok(inputs@, output, *attrs, *env),
    ensures
        match fma_plan_spec(OpMode::Normal, inputs@, out_val(output), *env) {
            Ok(p) => r matches Ok(rp) && plan_view(rp) == p,
            Err(e) => r == Err::<DispatchPlan, VkError>(e),
        },
{
    dispatch_fma(OpMode::Normal, inputs, output, env)
}

/// Plan a fused multiply-add written into its first input.
pub fn fma_inplace_dispatch(attrs: &OpAttrs, inputs: &[TensorValue], output: Option<&TensorValue>, env: &DispatchEnv) -> (r: Result<DispatchPlan, VkError>)
    requires
        plan_inputs_ok(inputs@, output, *attrs, *env),
    ensures
        match fma_plan_spec(OpMode::Inplace, inputs@, out_val(output), *env) {
            Ok(p) => r matches Ok(rp) && plan_view(rp) == p,
            Err(e) => r == Err::<DispatchPlan, VkError>(e),
        },
{
    dispatch_fma(OpMode::Inplace, inputs, output, env)
}

/// The value of the first attribute named `name`, if any.
pub open spec fn attr_value(attrs: OpAttrs, name: Seq<char>) -> Option<AttrValue> {
    match attr_pos(attrs.items@, name) {
        Some(i) => Some(attrs.items@[i].value),
        None => None,
    }
}

/// The target type of a cast: attribute `to`, which must hold a dtype.
pub open spec fn to_dtype_attr_spec(attrs: OpAttrs) -> Result<DType, VkError> {
    match attr_value(attrs, "to"@) {
        None => Err(VkError::MissingToAttr),
        Some(AttrValue::DType(d)) => Ok(d),
        Some(_) => Err(VkError::ToAttrNotDtype),
    }
}

/// The rounding mode of a cast: attribute `rounding_mode` (`trunc`,
/// `floor`, `ceil` or `nearest` as 0 to 3), 0 when absent.
pub open spec fn rounding_mode_spec(attrs: OpAttrs) -> Result<u32, VkError> {
    match attr_value(attrs, "rounding_mode"@) {
        None => Ok(0),
        Some(AttrValue::Str(s)) => if s@ == "trunc"@ {
            Ok(0)
        } else if s@ == "floor"@ {
            Ok(1)
        } else if s@ == "ceil"@ {
            Ok(2)
        } else if s@ == "nearest"@ {
            Ok(3)
        } else {
            Err(VkError::BadRoundingMode)
        },
        Some(_) => Err(VkError::RoundingModeNotString),
    }
}

/// Whether a cast saturates: attribute `saturate` (a bool, or an integer
/// that is not zero), true when absent.
pub open spec fn saturate_spec(attrs: OpAttrs) -> Result<bool, VkError> {
    match attr_value(attrs, "saturate"@) {
        None => Ok(true),
        Some(AttrValue::Bool(b)) => Ok(b),
        Some(AttrValue::Int(v)) => Ok(v != 0),
        Some(AttrValue::UInt(v)) => Ok(v != 0),
        Some(_) => Err(VkError::SaturateNotBoolOrInt),
    }
}

/// The value of the first attribute named `name`.
fn get_attr<'a>(attrs: &'a OpAttrs, name: &str) -> (r: Option<&'a AttrValue>)
    ensures
        match r {
            Some(v) => attr_value(*attrs, name@) == Some(*v),
            None => attr_value(*attrs, name@) is None,
        },
{
    match find_attr(attrs, name) {
        Some(i) => Some(&attrs.items[i].value),
        None => None,
    }
}

/// The target type of a cast.
pub fn get_to_dtype(attrs: &OpAttrs) -> (r: Result<DType, VkError>)
    ensures
        r == to_dtype_attr_spec(*attrs),
{
    match get_attr(attrs, "to") {
        None => Err(VkError::MissingToAttr),
        Some(AttrValue::DType(d)) => Ok(*d),
        Some(_) => Err(VkError::ToAttrNotDtype),
    }
}

/// The rounding mode of a cast.
pub fn get_rounding_mode(attrs: &OpAttrs) -> (r: Result<u32, VkError>)
    ensures
        r == rounding_mode_spec(*attrs),
{
    match get_attr(attrs, "rounding_mode") {
        None => Ok(0),
        Some(AttrValue::Str(s)) => {
            if crate::text::str_eq(s.as_str(), "trunc") {
                Ok(0)
            } else if crate::text::str_eq(s.as_str(), "floor") {
                Ok(1)
            } else if crate::text::str_eq(s.as_str(), "ceil") {
                Ok(2)
            } else if crate::text::str_eq(s.as_str(), "nearest") {
                Ok(3)
            } else {
                Err(VkError::BadRoundingMode)
            }
        },
        Some(_) => Err(VkError::RoundingModeNotString),
    }
}

/// Whether a cast saturates.
pub fn get_saturate(attrs: &OpAttrs) -> (r: Result<bool, VkError>)
    ensures
        r == saturate_spec(*attrs),
{
    match get_attr(attrs, "saturate") {
        None => Ok(true),
        Some(AttrValue::Bool(b)) => Ok(*b),
        Some(AttrValue::Int(v)) => Ok(*v != 0),
        Some(AttrValue::UInt(v)) => Ok(*v != 0),
        Some(_) => Err(VkError::SaturateNotBoolOrInt),
    }
}

pub open spec fn is_float_spec(d: DType) -> bool {
    d == DType::F8 || d == DType::F16 || d == DType::BF16 || d == DType::F32 || d == DType::F64
}

pub open spec fn is_signed_int_spec(d: DType) -> bool {
    d == DType::I8 || d == DType::I16 || d == DType::I32 || d == DType::I64
}

pub open spec fn is_unsigned_int_spec(d: DType) -> bool {
    d == DType::U8 || d == DType::U16 || d == DType::U32 || d == DType::U64
}

pub open spec fn is_packed_signed_spec(d: DType) -> bool {
    d == DType::I1 || d == DType::I2 || d == DType::I4
}

pub open spec fn is_packed_unsigned_spec(d: DType) -> bool {
    d == DType::U1 || d == DType::U2 || d == DType::U4
}

/// Casts a kernel performs: anything integer or float into a float; a
/// float, or a narrower integer of the same signedness, into an integer.
pub open spec fn allowed_cast_spec(i: DType, o: DType) -> bool {
    if is_float_spec(o) {
        is_packed_signed_spec(i) || is_packed_unsigned_spec(i) || is_signed_int_spec(i)
            || is_unsigned_int_spec(i) || is_float_spec(i)
    } else if is_signed_int_spec(o) {
        is_float_spec(i) || ((is_packed_signed_spec(i) || is_signed_int_spec(i)) && bits_of(o) > bits_of(i))
    } else if is_unsigned_int_spec(o) {
        is_float_spec(i) || ((is_packed_unsigned_spec(i) || is_unsigned_int_spec(i)) && bits_of(o) > bits_of(i))
    } else {
        false
    }
}

/// Between integers of one signedness (packed inputs included), a cast is
/// done exactly when it widens: the output has more bits than the input.
/// So an integer cast is never done both ways, and never to its own type.
pub proof fn law_integer_casts_only_widen(i: DType, o: DType)
    ensures
        is_signed_int_spec(o) && (is_signed_int_spec(i) || is_packed_signed_spec(i)) ==> (allowed_cast_spec(i, o)
            <==> bits_of(o) > bits_of(i)),
        is_unsigned_int_spec(o) && (is_unsigned_int_spec(i) || is_packed_unsigned_spec(i)) ==> (allowed_cast_spec(i, o)
            <==> bits_of(o) > bits_of(i)),
        (is_signed_int_spec(i) && is_signed_int_spec(o)) || (is_unsigned_int_spec(i) && is_unsigned_int_spec(o))
            ==> !(allowed_cast_spec(i, o) && allowed_cast_spec(o, i)),
        is_signed_int_spec(i) || is_unsigned_int_spec(i) ==> !allowed_cast_spec(i, i),
{
}

/// Every integer and float type casts into every float type; a float
/// casts into every integer type; an integer never changes signedness.
pub proof fn law_casts_by_kind(i: DType, o: DType)
    ensures
        is_float_spec(o) && (is_float_spec(i) || is_signed_int_spec(i) || is_unsigned_int_spec(i)
            || is_packed_signed_spec(i) || is_packed_unsigned_spec(i)) ==> allowed_cast_spec(i, o),
        is_float_spec(i) && (is_signed_int_spec(o) || is_unsigned_int_spec(o)) ==> allowed_cast_spec(i, o),
        (is_signed_int_spec(i) || is_packed_signed_spec(i)) && is_unsigned_int_spec(o) ==> !allowed_cast_spec(i, o),
        (is_unsigned_int_spec(i) || is_packed_unsigned_spec(i)) && is_signed_int_spec(o) ==> !allowed_cast_spec(i, o),
{
}

/// Whether a kernel casts `in_dtype` into `out_dtype`.
pub fn is_allowed_cast(in_dtype: DType, out_dtype: DType) -> (r: bool)
    ensures
        r == allowed_cast_spec(in_dtype, out_dtype),
{
    let fo = matches!(out_dtype, DType::F8 | DType::F16 | DType::BF16 | DType::F32 | DType::F64);
    let fi = matches!(in_dtype, DType::F8 | DType::F16 | DType::BF16 | DType::F32 | DType::F64);
    let si = matches!(in_dtype, DType::I8 | DType::I16 | DType::I32 | DType::I64);
    let so = matches!(out_dtype, DType::I8 | DType::I16 | DType::I32 | DType::I64);
    let ui = matches!(in_dtype, DType::U8 | DType::U16 | DType::U32 | DType::U64);
    let uo = matches!(out_dtype, DType::U8 | DType::U16 | DType::U32 | DType::U64);
    let psi = matches!(in_dtype, DType::I1 | DType::I2 | DType::I4);
    let pui = matches!(in_dtype, DType::U1 | DType::U2 | DType::U4);
    if fo {
        return psi || pui || si || ui || fi;
    }
    if so {
        if fi {
            return true;
        }
        if psi || si {
            return out_dtype.bit_width() > in_dtype.bit_width();
        }
        return false;
    }
    if uo {
        if fi {
            return true;
        }
        if pui || ui {
            return out_dtype.bit_width() > in_dtype.bit_width();
        }
        return false;
    }
    false
}

/// Lower-case name of an element type in kernel entry names.
pub open spec fn dtype_suffix_spec(d: DType) -> Seq<char> {
    match d {
        DType::I8 => "i8"@,
        DType::I16 => "i16"@,
        DType::I32 => "i32"@,
        DType::I64 => "i64"@,
        DType::U8 => "u8"@,
        DType::U16 => "u16"@,
        DType::U32 => "u32"@,
        DType::U64 => "u64"@,
        DType::F16 => "f16"@,
        DType::BF16 => "bf16"@,
        DType::F8 => "f8"@,
        DType::F32 => "f32"@,
        DType::F64 => "f64"@,
        DType::Bool => "bool"@,
        DType::Bitset => "bitset"@,
        DType::I4 => "i4"@,
        DType::I2 => "i2"@,
        DType::I1 => "i1"@,
        DType::U4 => "u4"@,
        DType::U2 => "u2"@,
        DType::U1 => "u1"@,
        DType::T2 => "t2"@,
        DType::T1 => "t1"@,
    }
}

/// Lower-case name of an element type in kernel entry names.
pub fn dtype_suffix(d: DType) -> (r: &'static str)
    ensures
        r@ == dtype_suffix_spec(d),
{
    match d {
        DType::I8 => "i8",
        DType::I16 => "i16",
        DType::I32 => "i32",
        DType::I64 => "i64",
        DType::U8 => "u8",
        DType::U16 => "u16",
        DType::U32 => "u32",
        DType::U64 => "u64",
        DType::F16 => "f16",
        DType::BF16 => "bf16",
        DType::F8 => "f8",
        DType::F32 => "f32",
        DType::F64 => "f64",
        DType::Bool => "bool",
        DType::Bitset => "bitset",
        DType::I4 => "i4",
        DType::I2 => "i2",
        DType::I1 => "i1",
        DType::U4 => "u4",
        DType::U2 => "u2",
        DType::U1 => "u1",
        DType::T2 => "t2",
        DType::T1 => "t1",
    }
}

/// The launch of a cast kernel.
pub open spec fn cast_launch_spec(
    inp: TensorValue,
    out: TensorValue,
    env: DispatchEnv,
    rm: u32,
    sat: bool,
    suffix: Seq<char>,
) -> PlanView {
    let r = out.shape@.len();
    PlanView::Launch {
        entry: "cast_"@ + suffix + if packed(inp.dtype) { "_packed"@ } else { "_normal"@ },
        descs: seq![
            tensor_desc_spec(inp.dtype, inp.shape@, r, offset_at(env, 0)),
            tensor_desc_spec(out.dtype, out.shape@, r, 0),
        ],
        push: seq![len_u32(out.shape@), 2u32, 0u32, ((rm % 4) + if sat { 4u32 } else { 0u32 }) as u32],
        len: len_u32(out.shape@),
    }
}

/// Build the launch of a cast kernel.
fn build_cast_launch(inp: &TensorValue, out: &TensorValue, env: &DispatchEnv, rm: u32, sat: bool) -> (r: Result<
    DispatchPlan,
    VkError,
>)
    requires
        inp.wf(),
        out.wf(),
        out.shape@.len() <= MAX_DIMS,
        rm <= 3,
    ensures
        r matches Ok(p) && plan_view(p) == cast_launch_spec(*inp, *out, *env, rm, sat, dtype_suffix_spec(inp.dtype)),
{
    let r = out.shape.len();
    let mut descs: Vec<TensorDesc> = Vec::new();
    let d0 = build_tensor_desc(inp, r, offset_of_input(env, 0))?;
    let d1 = build_tensor_desc(out, r, 0)?;
    descs.push(d0);
    descs.push(d1);
    let mut entry = String::from_str("cast_");
    entry.append(dtype_suffix(inp.dtype));
    if inp.dtype.is_packed() {
        entry.append("_packed");
    } else {
        entry.append("_normal");
    }
    let len = #[verifier::truncate] (out.len() as u32);
    let flags: u32 = rm % 4 + if sat { 4 } else { 0 };
    let mut push: Vec<u32> = Vec::new();
    push.push(len);
    push.push(2);
    push.push(0);
    push.push(flags);
    let plan = LaunchPlan { entry, descs, push, len };
    proof {
        let pv = plan_view(DispatchPlan::Launch(plan));
        let sp = cast_launch_spec(*inp, *out, *env, rm, sat, dtype_suffix_spec(inp.dtype));
        assert(pv->descs =~= sp->descs);
        assert(pv->push =~= sp->push);
    }
    Ok(DispatchPlan::Launch(plan))
}

/// The plan of a cast: one input, an output of the `to` type and the
/// input's shape, an allowed pair of types; the GPU path needs the device checks.
pub open spec fn cast_plan_spec(
    attrs: OpAttrs,
    inputs: Seq<TensorValue>,
    output: Option<TensorValue>,
    env: DispatchEnv,
    suffix: Seq<char>,
) -> Result<PlanView, VkError> {
    if inputs.len() != 1 {
        Err(VkError::WrongInputCount)
    } else if output is None {
        Err(VkError::MissingOutput)
    } else {
        let out = output->Some_0;
        let inp = inputs[0];
        match to_dtype_attr_spec(attrs) {
            Err(e) => Err(e),
            Ok(to) => match rounding_mode_spec(attrs) {
                Err(e) => Err(e),
                Ok(rm) => match saturate_spec(attrs) {
                    Err(e) => Err(e),
                    Ok(sat) => if out.dtype != to {
                        Err(VkError::DtypeMismatch)
                    } else if !allowed_cast_spec(inp.dtype, to) {
                        Err(VkError::UnsupportedCast)
                    } else if out.shape@ != inp.shape@ {
                        Err(VkError::ShapeMismatch)
                    } else {
                        let r = out.shape@.len();
                        let key = OpKeyView { kind: OpKind::Cast, mode: OpMode::Normal, broadcast: false, inputs: dtypes_of(inputs), out0: to, acc_rule: None };
                        if !gpu_path_open(r > MAX_DIMS, env, inp.dtype, to) {
                            Ok(PlanView::Fallback(key))
                        } else {
                            Ok(cast_launch_spec(inp, out, env, rm, sat, suffix))
                        }
                    },
                },
            },
        }
    }
}

/// Plan a cast writing a separate output.
#[verifier::rlimit(80)]
pub fn cast_normal_dispatch(attrs: &OpAttrs, inputs: &[TensorValue], output: Option<&TensorValue>, env: &DispatchEnv) -> (r: Result<DispatchPlan, VkError>)
    requires
        plan_inputs_ok(inputs@, output, *attrs, *env),
    ensures
        inputs@.len() == 1 ==> match cast_plan_spec(*attrs, inputs@, out_val(output), *env, dtype_suffix_spec(inputs@[0].dtype)) {
            Ok(p) => r matches Ok(rp) && plan_view(rp) == p,
            Err(e) => r == Err::<DispatchPlan, VkError>(e),
        },
        inputs@.len() != 1 ==> r == Err::<DispatchPlan, VkError>(VkError::WrongInputCount),
{
    if inputs.len() != 1 {
        return Err(VkError::WrongInputCount);
    }
    let out = match output {
        Some(o) => o,
        None => return Err(VkError::MissingOutput),
    };
    let inp = &inputs[0];
    let to = get_to_dtype(attrs)?;
    let rm = get_rounding_mode(attrs)?;
    let sat = get_saturate(attrs)?;
    if out.dtype != to {
        return Err(VkError::DtypeMismatch);
    }
    if !is_allowed_cast(inp.dtype, to) {
        return Err(VkError::UnsupportedCast);
    }
    if !crate::cache_table::same_key(out.shape.as_slice(), inp.shape.as_slice()) {
        return Err(VkError::ShapeMismatch);
    }
    let r = out.shape.len();
    let key = OpKey { kind: OpKind::Cast, mode: OpMode::Normal, broadcast: false, inputs: input_dtypes(inputs), out0: to, acc_rule: None };
    if !gpu_path_check(r > MAX_DIMS, env, inp.dtype, to) {
        return Ok(DispatchPlan::Fallback(key));
    }
    build_cast_launch(inp, out, env, rm, sat)
}

/// The accumulation type of an accumulating op: attribute `acc`, a dtype.
pub open spec fn acc_dtype_attr_spec(attrs: OpAttrs) -> Result<DType, VkError> {
    match attr_value(attrs, "acc"@) {
        Some(AttrValue::DType(d)) => Ok(d),
        _ => Err(VkError::MissingAccDtype),
    }
}

/// The accumulation type of an accumulating op.
pub fn acc_dtype(attrs: &OpAttrs) -> (r: Result<DType, VkError>)
    ensures
        r == acc_dtype_attr_spec(*attrs),
{
    match get_attr(attrs, "acc") {
        Some(AttrValue::DType(d)) => Ok(*d),
        _ => Err(VkError::MissingAccDtype),
    }
}

/// The shape a matrix product produces: the broadcast batch dimensions,
/// then the rows of `a` and the columns of `b`.
pub open spec fn matmul_shape_spec(a: Seq<usize>, b: Seq<usize>) -> Result<Seq<usize>, VkError> {
    if a.len() < 2 || b.len() < 2 {
        Err(VkError::RankTooSmall)
    } else if a[a.len() - 1] != b[b.len() - 2] {
        Err(VkError::InnerDimMismatch)
    } else {
        match broadcast_shape_spec(a.subrange(0, a.len() - 2), b.subrange(0, b.len() - 2)) {
            None => Err(VkError::BroadcastIncompatible),
            Some(batch) => Ok(batch.push(a[a.len() - 2]).push(b[b.len() - 1])),
        }
    }
}

/// The plan of a matrix product: two inputs of rank at least two whose
/// inner sizes agree and whose batch dimensions broadcast; the GPU path
/// needs the device checks and a target.
pub open spec fn matmul_plan_spec(
    mode: OpMode,
    attrs: OpAttrs,
    inputs: Seq<TensorValue>,
    output: Option<TensorValue>,
    env: DispatchEnv,
) -> Result<PlanView, VkError> {
    if inputs.len() != 2 {
        Err(VkError::WrongInputCount)
    } else if output is None {
        Err(VkError::MissingOutput)
    } else {
        let out = output->Some_0;
        let a = inputs[0];
        let b = inputs[1];
        let idt = a.dtype;
        let odt_r: Result<DType, VkError> = if mode == OpMode::Accumulate { acc_dtype_attr_spec(attrs) } else { Ok(idt) };
        match odt_r {
            Err(e) => Err(e),
            Ok(odt) => match matmul_shape_spec(a.shape@, b.shape@) {
                Err(e) => Err(e),
                Ok(expected) => if out.shape@ != expected {
                    Err(VkError::ShapeMismatch)
                } else {
                    let r = expected.len();
                    let bc = a.shape@.subrange(0, a.shape@.len() - 2) != b.shape@.subrange(0, b.shape@.len() - 2);
                    let key = OpKeyView { kind: OpKind::Matmul, mode, broadcast: bc, inputs: dtypes_of(inputs), out0: odt, acc_rule: None };
                    if !gpu_path_open(r > MAX_DIMS, env, idt, odt) {
                        Ok(PlanView::Fallback(key))
                    } else {
                        match env.target {
                            None => Ok(PlanView::Fallback(key)),
                            Some(t) => {
                                let first = if mode == OpMode::Inplace { out } else { a };
                                Ok(PlanView::Launch {
                                    entry: t@,
                                    descs: seq![
                                        tensor_desc_spec(first.dtype, first.shape@, r, offset_at(env, 0)),
                                        tensor_desc_spec(b.dtype, b.shape@, r, offset_at(env, 1)),
                                        tensor_desc_spec(out.dtype, out.shape@, r, 0),
                                    ],
                                    push: seq![len_u32(out.shape@), 3u32, 0u32, 0u32],
                                    len: len_u32(out.shape@),
                                })
                            },
                        }
                    }
                },
            },
        }
    }
}

/// The shape a matrix product produces.
fn matmul_shape(a: &[usize], b: &[usize]) -> (r: Result<Vec<usize>, VkError>)
    ensures
        match matmul_shape_spec(a@, b@) {
            Ok(s) => r matches Ok(v) && v@ == s,
            Err(e) => r == Err::<Vec<usize>, VkError>(e),
        },
{
    if a.len() < 2 || b.len() < 2 {
        return Err(VkError::RankTooSmall);
    }
    let ar = a.len();
    let br = b.len();
    if a[ar - 1] != b[br - 2] {
        return Err(VkError::InnerDimMismatch);
    }
    let ab = vstd::slice::slice_subrange(a, 0, ar - 2);
    let bb = vstd::slice::slice_subrange(b, 0, br - 2);
    let mut batch = broadcast_shape(ab, bb)?;
    batch.push(a[ar - 2]);
    batch.push(b[br - 1]);
    Ok(batch)
}

/// Plan a matrix product.
#[verifier::rlimit(80)]
fn dispatch_matmul(mode: OpMode, attrs: &OpAttrs, inputs: &[TensorValue], output: Option<&TensorValue>, env: &DispatchEnv) -> (r: Result<DispatchPlan, VkError>)
    requires
        forall|i: int| 0 <= i < inputs@.len() ==> (#[trigger] inputs@[i]).wf(),
        output matches Some(o) ==> o.wf(),
    ensures
        match matmul_plan_spec(mode, *attrs, inputs@, out_val(output), *env) {
            Ok(p) => r matches Ok(rp) && plan_view(rp) == p,
            Err(e) => r == Err::<DispatchPlan, VkError>(e),
        },
{
    if inputs.len() != 2 {
        return Err(VkError::WrongInputCount);
    }
    let out = match output {
        Some(o) => o,
        None => return Err(VkError::MissingOutput),
    };
    let a = &inputs[0];
    let b = &inputs[1];
    let idt = a.dtype;
    let odt = if mode == OpMode::Accumulate {
        acc_dtype(attrs)?
    } else {
        idt
    };
    let expected = matmul_shape(a.shape.as_slice(), b.shape.as_slice())?;
    if !crate::cache_table::same_key(out.shape.as_slice(), expected.as_slice()) {
        return Err(VkError::ShapeMismatch);
    }
    let r = expected.len();
    let ab = vstd::slice::slice_subrange(a.shape.as_slice(), 0, a.shape.len() - 2);
    let bb = vstd::slice::slice_subrange(b.shape.as_slice(), 0, b.shape.len() - 2);
    let bc = !crate::cache_table::same_key(ab, bb);
    let key = OpKey { kind: OpKind::Matmul, mode, broadcast: bc, inputs: input_dtypes(inputs), out0: odt, acc_rule: None };
    if !gpu_path_check(r > MAX_DIMS, env, idt, odt) {
        return Ok(DispatchPlan::Fallback(key));
    }
    let t = match &env.target {
        Some(t) => t.clone(),
        None => return Ok(DispatchPlan::Fallback(key)),
    };
    let first = if mode == OpMode::Inplace {
        out
    } else {
        a
    };
    let mut descs: Vec<TensorDesc> = Vec::new();
    let d0 = build_tensor_desc(first, r, offset_of_input(env, 0))?;
    let d1 = build_tensor_desc(b, r, offset_of_input(env, 1))?;
    let d2 = build_tensor_desc(out, r, 0)?;
    descs.push(d0);
    descs.push(d1);
    descs.push(d2);
    let len = #[verifier::truncate] (out.len() as u32);
    let mut push: Vec<u32> = Vec::new();
    push.push(len);
    push.push(3);
    push.push(0);
    push.push(0);
    let plan = LaunchPlan { entry: t, descs, push, len };
    proof {
        let pv = plan_view(DispatchPlan::Launch(plan));
        let sp = matmul_plan_spec(mode, *attrs, inputs@, out_val(output), *env);
        assert(pv->descs =~= sp->Ok_0->descs);
        assert(pv->push =~= sp->Ok_0->push);
    }
    Ok(DispatchPlan::Launch(plan))
}

/// Plan a matrix product writing a separate output.
pub fn matmul_normal_dispatch(attrs: &OpAttrs, inputs: &[TensorValue], output: Option<&TensorValue>, env: &DispatchEnv) -> (r: Result<DispatchPlan, VkError>)
    requires
        plan_inputs_ok(inputs@, output, *attrs, *env),
    ensures
        match matmul_plan_spec(OpMode::Normal, *attrs, inputs@, out_val(output), *env) {
            Ok(p) => r matches Ok(rp) && plan_view(rp) == p,
            Err(e) => r == Err::<DispatchPlan, VkError>(e),
        },
{
    dispatch_matmul(OpMode::Normal, attrs, inputs, output, env)
}

/// Plan a matrix product written into its first input.
pub fn matmul_inplace_dispatch(attrs: &OpAttrs, inputs: &[TensorValue], output: Option<&TensorValue>, env: &DispatchEnv) -> (r: Result<DispatchPlan, VkError>)
    requires
        plan_inputs_ok(inputs@, output, *attrs, *env),
    ensures
        match matmul_plan_spec(OpMode::Inplace, *attrs, inputs@, out_val(output), *env) {
            Ok(p) => r matches Ok(rp) && plan_view(rp) == p,
            Err(e) => r == Err::<DispatchPlan, VkError>(e),
        },
{
    dispatch_matmul(OpMode::Inplace, attrs, inputs, output, env)
}

/// Plan a matrix product accumulated into an output of the `acc` type.
pub fn matmul_accumulate_dispatch(attrs: &OpAttrs, inputs: &[TensorValue], output: Option<&TensorValue>, env: &DispatchEnv) -> (r: Result<DispatchPlan, VkError>)
    requires
        plan_inputs_ok(inputs@, output, *attrs, *env),
    ensures
        match matmul_plan_spec(OpMode::Accumulate, *attrs, inputs@, out_val(output), *env) {
            Ok(p) => r matches Ok(rp) && plan_view(rp) == p,
            Err(e) => r == Err::<DispatchPlan, VkError>(e),
        },
{
    dispatch_matmul(OpMode::Accumulate, attrs, inputs, output, env)
}

/// Bits of `f64` infinity, the default clamp of a relu.
pub const F64_INFINITY_BITS: u64 = 0x7FF0_0000_0000_0000;

/// Bits of `f32` infinity.
pub const F32_INFINITY_BITS: u32 = 0x7F80_0000;

/// The relu parameters as push words: slope and clamp as `f32`, `i32`,
/// `i64` and `f64` bits. Float types take them from the float images,
/// signed integer types from the integer encodings; the defaults are a zero
/// slope and an infinite (or `i64::MAX`) clamp.
pub open spec fn relu_params_spec(idt: DType, m: Map<Seq<char>, ScalarAttrBits>) -> Seq<u32> {
    let has_a = m.contains_key("alpha"@);
    let has_c = m.contains_key("clamp_max"@);
    let is_f = dtype_class_spec(idt) == DTypeClass::Float;
    let is_s = idt == DType::I4 || idt == DType::I8 || idt == DType::I16 || idt == DType::I32 || idt == DType::I64;
    let a64: u64 = if is_f && has_a { m["alpha"@].f64_bits } else { 0 };
    let c64: u64 = if is_f && has_c { m["clamp_max"@].f64_bits } else { F64_INFINITY_BITS };
    let a32: u32 = if is_f && has_a { m["alpha"@].f32_bits } else { 0 };
    let c32: u32 = if is_f && has_c { m["clamp_max"@].f32_bits } else { F32_INFINITY_BITS };
    let ai: u64 = if is_s && has_a { m["alpha"@].i64_bits } else { 0 };
    let ci: u64 = if is_s && has_c { m["clamp_max"@].i64_bits } else { 0x7FFF_FFFF_FFFF_FFFF };
    seq![a32, c32, lo32(ai), lo32(ci), lo32(ai), hi32(ai), lo32(ci), hi32(ci), lo32(a64), hi32(a64), lo32(c64), hi32(c64)]
}

/// The plan of a relu: one input and an output of its shape; the GPU path
/// needs the device checks, the attribute encodings and a target.
pub open spec fn relu_plan_spec(
    mode: OpMode,
    attrs: OpAttrs,
    inputs: Seq<TensorValue>,
    output: Option<TensorValue>,
    env: DispatchEnv,
) -> Result<PlanView, VkError> {
    if inputs.len() != 1 {
        Err(VkError::WrongInputCount)
    } else if output is None {
        Err(VkError::MissingOutput)
    } else {
        let out = output->Some_0;
        let inp = inputs[0];
        let idt = inp.dtype;
        if out.shape@ != inp.shape@ {
            Err(VkError::ShapeMismatch)
        } else {
            let r = out.shape@.len();
            let key = OpKeyView { kind: OpKind::Relu, mode, broadcast: false, inputs: dtypes_of(inputs), out0: idt, acc_rule: None };
            if !gpu_path_open(r > MAX_DIMS, env, idt, idt) {
                Ok(PlanView::Fallback(key))
            } else {
                match collect_spec(env.schema_attrs@, dtype_class_spec(idt), attrs.items@, env.images@, env.schema_attrs@.len()) {
                    Err(e) => Err(e),
                    Ok(m) => match env.target {
                        None => Ok(PlanView::Fallback(key)),
                        Some(t) => {
                            let descs = if mode == OpMode::Inplace {
                                seq![tensor_desc_spec(out.dtype, out.shape@, r, offset_at(env, 0))]
                            } else {
                                seq![
                                    tensor_desc_spec(inp.dtype, inp.shape@, r, offset_at(env, 0)),
                                    tensor_desc_spec(out.dtype, out.shape@, r, 0),
                                ]
                            };
                            Ok(PlanView::Launch {
                                entry: t@,
                                descs,
                                push: seq![len_u32(out.shape@), descs.len() as u32, 0u32, 0u32] + relu_params_spec(idt, m),
                                len: len_u32(out.shape@),
                            })
                        },
                    },
                }
            }
        }
    }
}

/// The relu parameter words.
fn relu_params(idt: DType, m: &vstd::hash_map::StringHashMap<ScalarAttrBits>) -> (r: Vec<u32>)
    ensures
        r@ == relu_params_spec(idt, m@),
{
    let alpha = m.get("alpha");
    let clamp = m.get("clamp_max");
    let is_f = dtype_class(idt) == DTypeClass::Float;
    let is_s = match idt {
        DType::I4 | DType::I8 | DType::I16 | DType::I32 | DType::I64 => true,
        _ => false,
    };
    let a64: u64 = match alpha {
        Some(b) if is_f => b.f64_bits,
        _ => 0,
    };
    let c64: u64 = match clamp {
        Some(b) if is_f => b.f64_bits,
        _ => F64_INFINITY_BITS,
    };
    let a32: u32 = match alpha {
        Some(b) if is_f => b.f32_bits,
        _ => 0,
    };
    let c32: u32 = match clamp {
        Some(b) if is_f => b.f32_bits,
        _ => F32_INFINITY_BITS,
    };
    let ai: u64 = match alpha {
        Some(b) if is_s => b.i64_bits,
        _ => 0,
    };
    let ci: u64 = match clamp {
        Some(b) if is_s => b.i64_bits,
        _ => 0x7FFF_FFFF_FFFF_FFFF,
    };
    let (ail, aih) = split64(ai);
    let (cil, cih) = split64(ci);
    let (afl, afh) = split64(a64);
    let (cfl, cfh) = split64(c64);
    let mut out: Vec<u32> = Vec::new();
    out.push(a32);
    out.push(c32);
    out.push(ail);
    out.push(cil);
    out.push(ail);
    out.push(aih);
    out.push(cil);
    out.push(cih);
    out.push(afl);
    out.push(afh);
    out.push(cfl);
    out.push(cfh);
    assert(out@ =~= relu_params_spec(idt, m@));
    out
}

/// Plan a relu.
#[verifier::rlimit(80)]
fn dispatch_relu(mode: OpMode, attrs: &OpAttrs, inputs: &[TensorValue], output: Option<&TensorValue>, env: &DispatchEnv) -> (r: Result<DispatchPlan, VkError>)
    requires
        plan_inputs_ok(inputs@, output, *attrs, *env),
    ensures
        match relu_plan_spec(mode, *attrs, inputs@, out_val(output), *env) {
            Ok(p) => r matches Ok(rp) && plan_view(rp) == p,
            Err(e) => r == Err::<DispatchPlan, VkError>(e),
        },
{
    if inputs.len() != 1 {
        return Err(VkError::WrongInputCount);
    }
    let out = match output {
        Some(o) => o,
        None => return Err(VkError::MissingOutput),
    };
    let inp = &inputs[0];
    let idt = inp.dtype;
    if !crate::cache_table::same_key(out.shape.as_slice(), inp.shape.as_slice()) {
        return Err(VkError::ShapeMismatch);
    }
    let r = out.shape.len();
    let key = OpKey { kind: OpKind::Relu, mode, broadcast: false, inputs: input_dtypes(inputs), out0: idt, acc_rule: None };
    if !gpu_path_check(r > MAX_DIMS, env, idt, idt) {
        return Ok(DispatchPlan::Fallback(key));
    }
    let m = collect_scalar_attr_bits(env.schema_attrs.as_slice(), idt, attrs, env.images.as_slice())?;
    let t = match &env.target {
        Some(t) => t.clone(),
        None => return Ok(DispatchPlan::Fallback(key)),
    };
    let mut descs: Vec<TensorDesc> = Vec::new();
    if mode == OpMode::Inplace {
        let d0 = build_tensor_desc(out, r, offset_of_input(env, 0))?;
        descs.push(d0);
    } else {
        let d0 = build_tensor_desc(inp, r, offset_of_input(env, 0))?;
        let d1 = build_tensor_desc(out, r, 0)?;
        descs.push(d0);
        descs.push(d1);
    }
    let len = #[verifier::truncate] (out.len() as u32);
    let mut push: Vec<u32> = Vec::new();
    push.push(len);
    push.push(descs.len() as u32);
    push.push(0);
    push.push(0);
    let params = relu_params(idt, &m);
    let mut k: usize = 0;
    let ghost head = push@;
    while k < params.len()
        invariant
            k <= params@.len(),
            push@ == head + params@.subrange(0, k as int),
        decreases params@.len() - k,
    {
        push.push(params[k]);
        k = k + 1;
        assert(push@ =~= head + params@.subrange(0, k as int));
    }
    assert(params@.subrange(0, params@.len() as int) =~= params@);
    let plan = LaunchPlan { entry: t, descs, push, len };
    proof {
        let pv = plan_view(DispatchPlan::Launch(plan));
        let sp = relu_plan_spec(mode, *attrs, inputs@, out_val(output), *env);
        assert(pv->descs =~= sp->Ok_0->descs);
        assert(pv->push =~= sp->Ok_0->push);
    }
    Ok(DispatchPlan::Launch(plan))
}

/// Plan a relu writing a separate output.
pub fn relu_normal_dispatch(attrs: &OpAttrs, inputs: &[TensorValue], output: Option<&TensorValue>, env: &DispatchEnv) -> (r: Result<DispatchPlan, VkError>)
    requires
        plan_inputs_ok(inputs@, output, *attrs, *env),
    ensures
        match relu_plan_spec(OpMode::Normal, *attrs, inputs@, out_val(output), *env) {
            Ok(p) => r matches Ok(rp) && plan_view(rp) == p,
            Err(e) => r == Err::<DispatchPlan, VkError>(e),
        },
{
    dispatch_relu(OpMode::Normal, attrs, inputs, output, env)
}

/// Plan a relu written into its input.
pub fn relu_inplace_dispatch(attrs: &OpAttrs, inputs: &[TensorValue], output: Option<&TensorValue>, env: &DispatchEnv) -> (r: Result<DispatchPlan, VkError>)
    requires
        plan_inputs_ok(inputs@, output, *attrs, *env),
    ensures
        match relu_plan_spec(OpMode::Inplace, *attrs, inputs@, out_val(output), *env) {
            Ok(p) => r matches Ok(rp) && plan_view(rp) == p,
            Err(e) => r == Err::<DispatchPlan, VkError>(e),
        },
{
    dispatch_relu(OpMode::Inplace, attrs, inputs, output, env)
}

/// The reduced axes of a tensor of `rank` dimensions: attribute `axes` (a
/// list of integers, negative ones counting from the end), all axes when
/// absent.
pub open spec fn axes_spec(attrs: OpAttrs, rank: nat) -> Result<Seq<usize>, VkError> {
    match attr_value(attrs, "axes"@) {
        None => Ok(Seq::new(rank, |i: int| i as usize)),
        Some(AttrValue::IntList(l)) => if forall|i: int| 0 <= i < l@.len() ==> -(rank as int) <= #[trigger] l@[i] < rank {
            Ok(Seq::new(l@.len(), |i: int| if l@[i] < 0 { (l@[i] + rank) as usize } else { l@[i] as usize }))
        } else {
            Err(VkError::AxisOutOfRange)
        },
        Some(_) => Err(VkError::AxesNotInts),
    }
}

/// Whether reduced axes are kept with size one: attribute `keepdims`.
pub open spec fn keepdims_spec(attrs: OpAttrs) -> bool {
    match attr_value(attrs, "keepdims"@) {
        Some(AttrValue::Bool(b)) => b,
        Some(AttrValue::Int(v)) => v != 0,
        Some(AttrValue::UInt(v)) => v != 0,
        _ => false,
    }
}

/// The first `n` dimensions of a reduction's output shape: a reduced axis
/// becomes 1 (when kept) or goes, the others stay.
pub open spec fn reduce_shape_spec(shape: Seq<usize>, axes: Seq<usize>, keep: bool, n: nat) -> Seq<usize>
    decreases n,
{
    if n == 0 {
        Seq::empty()
    } else {
        reduce_shape_spec(shape, axes, keep, (n - 1) as nat) + if axes.contains((n - 1) as usize) {
            if keep {
                seq![1usize]
            } else {
                Seq::empty()
            }
        } else {
            seq![shape[n - 1]]
        }
    }
}

/// The dimension positions below `n`.
pub open spec fn positions(n: nat) -> Seq<int> {
    Seq::new(n, |d: int| d)
}

/// A position that is not reduced.
pub open spec fn not_reduced(axes: Seq<usize>) -> spec_fn(int) -> bool {
    |d: int| !axes.contains(d as usize)
}

/// The sizes of `shape` at the given positions.
pub open spec fn sizes_at(shape: Seq<usize>, ds: Seq<int>) -> Seq<usize> {
    Seq::new(ds.len(), |k: int| shape[ds[k]])
}

/// With `keepdims`, a reduction's output has the input's rank: each
/// reduced axis has size 1 and every other axis keeps its size.
pub proof fn law_reduce_keepdims_shape(shape: Seq<usize>, axes: Seq<usize>, n: nat)
    requires
        n <= shape.len(),
    ensures
        reduce_shape_spec(shape, axes, true, n) == Seq::new(
            n,
            |d: int| if axes.contains(d as usize) { 1usize } else { shape[d] },
        ),
    decreases n,
{
    if n > 0 {
        law_reduce_keepdims_shape(shape, axes, (n - 1) as nat);
    }
    assert(reduce_shape_spec(shape, axes, true, n) =~= Seq::new(
        n,
        |d: int| if axes.contains(d as usize) { 1usize } else { shape[d] },
    ));
}

/// Without `keepdims`, a reduction's output is the input's shape with the
/// reduced axes taken out: the sizes of the axes that are not reduced, in
/// order.
pub proof fn law_reduce_drops_axes(shape: Seq<usize>, axes: Seq<usize>, n: nat)
    requires
        n <= shape.len(),
    ensures
        reduce_shape_spec(shape, axes, false, n) == sizes_at(shape, positions(n).filter(not_reduced(axes))),
    decreases n,
{
    reveal_with_fuel(Seq::<int>::filter, 1);
    if n > 0 {
        let m = (n - 1) as nat;
        law_reduce_drops_axes(shape, axes, m);
        assert(positions(n).drop_last() =~= positions(m));
        assert(positions(n).last() == m as int);
        let kept = positions(m).filter(not_reduced(axes));
        if axes.contains(m as usize) {
            assert(positions(n).filter(not_reduced(axes)) == kept);
            assert(reduce_shape_spec(shape, axes, false, n) =~= reduce_shape_spec(shape, axes, false, m));
        } else {
            assert(positions(n).filter(not_reduced(axes)) == kept.push(m as int));
            assert(sizes_at(shape, kept.push(m as int)) =~= sizes_at(shape, kept).push(shape[m as int]));
        }
    } else {
        assert(positions(0).filter(not_reduced(axes)) =~= Seq::<int>::empty());
        assert(sizes_at(shape, Seq::<int>::empty()) =~= Seq::<usize>::empty());
    }
}

/// Reducing with and without `keepdims` differ only in the reduced axes:
/// keeping them gives one more dimension of size 1 for each.
pub proof fn law_reduce_ranks(shape: Seq<usize>, axes: Seq<usize>)
    ensures
        reduce_shape_spec(shape, axes, true, shape.len()).len() == shape.len(),
        reduce_shape_spec(shape, axes, false, shape.len()).len() == positions(shape.len()).filter(
            not_reduced(axes),
        ).len(),
{
    law_reduce_keepdims_shape(shape, axes, shape.len());
    law_reduce_drops_axes(shape, axes, shape.len());
}

/// One bit per reduced axis among the first `n`.
pub open spec fn axes_mask_spec(axes: Seq<usize>, n: nat) -> nat
    decreases n,
{
    if n == 0 {
        0
    } else {
        axes_mask_spec(axes, (n - 1) as nat) + if axes.contains((n - 1) as usize) {
            crate::vk_desc::byte_place(0) * pow2_nat((n - 1) as nat)
        } else {
            0
        }
    }
}

/// `2^n`.
pub open spec fn pow2_nat(n: nat) -> nat
    decreases n,
{
    if n == 0 {
        1
    } else {
        2 * pow2_nat((n - 1) as nat)
    }
}

/// The launch of a minimum over axes.
pub open spec fn min_axis_launch_spec(
    inp: TensorValue,
    out: TensorValue,
    env: DispatchEnv,
    axes: Seq<usize>,
    keep: bool,
    entry: Seq<char>,
) -> PlanView {
    let rank = inp.shape@.len();
    let orank = out.shape@.len();
    PlanView::Launch {
        entry,
        descs: seq![
            tensor_desc_spec(inp.dtype, inp.shape@, rank, offset_at(env, 0)),
            tensor_desc_spec(out.dtype, out.shape@, orank, 0),
        ],
        push: seq![
            len_u32(inp.shape@),
            len_u32(out.shape@),
            rank as u32,
            orank as u32,
            axes_mask_spec(axes, rank) as u32,
            if keep { 1u32 } else { 0u32 },
            0u32,
            0u32,
        ],
        len: len_u32(out.shape@),
    }
}

/// Build the launch of a minimum over axes.
fn build_min_axis_launch(
    inp: &TensorValue,
    out: &TensorValue,
    env: &DispatchEnv,
    axes: &Vec<usize>,
    keep: bool,
    t: String,
) -> (r: Result<DispatchPlan, VkError>)
    requires
        inp.wf(),
        out.wf(),
        inp.shape@.len() <= MAX_DIMS,
        out.shape@.len() <= MAX_DIMS,
    ensures
        r matches Ok(p) && plan_view(p) == min_axis_launch_spec(*inp, *out, *env, axes@, keep, t@),
{
    let rank = inp.shape.len();
    let orank = out.shape.len();
    let mut descs: Vec<TensorDesc> = Vec::new();
    let d0 = build_tensor_desc(inp, rank, offset_of_input(env, 0))?;
    let d1 = build_tensor_desc(out, orank, 0)?;
    descs.push(d0);
    descs.push(d1);
    let ilen = #[verifier::truncate] (inp.len() as u32);
    let olen = #[verifier::truncate] (out.len() as u32);
    let mask = axes_mask(axes, rank);
    let mut push: Vec<u32> = Vec::new();
    push.push(ilen);
    push.push(olen);
    push.push(rank as u32);
    push.push(orank as u32);
    push.push(mask);
    push.push(if keep { 1 } else { 0 });
    push.push(0);
    push.push(0);
    let ghost te = t@;
    let plan = LaunchPlan { entry: t, descs, push, len: olen };
    proof {
        let pv = plan_view(DispatchPlan::Launch(plan));
        let sp = min_axis_launch_spec(*inp, *out, *env, axes@, keep, te);
        assert(pv->descs =~= sp->descs);
        assert(pv->push =~= sp->push);
    }
    Ok(DispatchPlan::Launch(plan))
}

/// The plan of a minimum over axes: one input, an output of the reduced
/// shape; the GPU path needs the device checks and a target.
pub open spec fn min_axis_plan_spec(
    attrs: OpAttrs,
    inputs: Seq<TensorValue>,
    output: Option<TensorValue>,
    env: DispatchEnv,
) -> Result<PlanView, VkError> {
    if inputs.len() != 1 {
        Err(VkError::WrongInputCount)
    } else if output is None {
        Err(VkError::MissingOutput)
    } else {
        let out = output->Some_0;
        let inp = inputs[0];
        let rank = inp.shape@.len();
        match axes_spec(attrs, rank) {
            Err(e) => Err(e),
            Ok(axes) => {
                let keep = keepdims_spec(attrs);
                if out.shape@ != reduce_shape_spec(inp.shape@, axes, keep, rank) {
                    Err(VkError::ShapeMismatch)
                } else {
                    let orank = out.shape@.len();
                    let key = OpKeyView { kind: OpKind::MinAxis, mode: OpMode::Normal, broadcast: false, inputs: dtypes_of(inputs), out0: out.dtype, acc_rule: None };
                    if !gpu_path_open(rank > MAX_DIMS || orank > MAX_DIMS, env, inp.dtype, out.dtype) {
                        Ok(PlanView::Fallback(key))
                    } else {
                        match env.target {
                            None => Ok(PlanView::Fallback(key)),
                            Some(t) => Ok(min_axis_launch_spec(inp, out, env, axes, keep, t@)),
                        }
                    }
                }
            },
        }
    }
}

/// The reduced axes of a tensor of `rank` dimensions.
#[verifier::loop_isolation(false)]
fn axes_from_attrs(attrs: &OpAttrs, rank: usize) -> (r: Result<Vec<usize>, VkError>)
    ensures
        match axes_spec(*attrs, rank as nat) {
            Ok(a) => r matches Ok(v) && v@ == a,
            Err(e) => r == Err::<Vec<usize>, VkError>(e),
        },
{
    match get_attr(attrs, "axes") {
        None => {
            let mut out: Vec<usize> = Vec::new();
            let mut i: usize = 0;
            while i < rank
                invariant
                    i <= rank,
                    out@ == Seq::new(i as nat, |j: int| j as usize),
                decreases rank - i,
            {
                out.push(i);
                i = i + 1;
                assert(out@ =~= Seq::new(i as nat, |j: int| j as usize));
            }
            Ok(out)
        },
        Some(AttrValue::IntList(l)) => {
            let rk = rank as i128;
            let mut out: Vec<usize> = Vec::new();
            let mut i: usize = 0;
            while i < l.len()
                invariant
                    i <= l@.len(),
                    rk == rank,
                    forall|j: int| 0 <= j < i ==> -(rank as int) <= #[trigger] l@[j] < rank,
                    out@ == Seq::new(i as nat, |j: int| if l@[j] < 0 { (l@[j] + rank) as usize } else { l@[j] as usize }),
                decreases l@.len() - i,
            {
                let v = l[i] as i128;
                if v < -rk || v >= rk {
                    proof {
                        assert(!(-(rank as int) <= l@[i as int] < rank));
                    }
                    return Err(VkError::AxisOutOfRange);
                }
                out.push(if v < 0 { (v + rk) as usize } else { v as usize });
                assert(v == l@[i as int]);
                i = i + 1;
                assert(out@ =~= Seq::new(i as nat, |j: int| if l@[j] < 0 { (l@[j] + rank) as usize } else { l@[j] as usize }));
            }
            Ok(out)
        },
        Some(_) => Err(VkError::AxesNotInts),
    }
}

/// Whether reduced axes are kept with size one.
fn keepdims_from_attrs(attrs: &OpAttrs) -> (r: bool)
    ensures
        r == keepdims_spec(*attrs),
{
    match get_attr(attrs, "keepdims") {
        Some(AttrValue::Bool(b)) => *b,
        Some(AttrValue::Int(v)) => *v != 0,
        Some(AttrValue::UInt(v)) => *v != 0,
        _ => false,
    }
}

/// Whether `axes` holds `d`.
fn contains_axis(axes: &Vec<usize>, d: usize) -> (r: bool)
    ensures
        r == axes@.contains(d),
{
    let mut i: usize = 0;
    while i < axes.len()
        invariant
            i <= axes@.len(),
            forall|j: int| 0 <= j < i ==> axes@[j] != d,
        decreases axes@.len() - i,
    {
        if axes[i] == d {
            return true;
        }
        i = i + 1;
    }
    false
}

/// A reduction's output shape.
fn reduce_shape(shape: &[usize], axes: &Vec<usize>, keep: bool) -> (r: Vec<usize>)
    ensures
        r@ == reduce_shape_spec(shape@, axes@, keep, shape@.len()),
{
    let mut out: Vec<usize> = Vec::new();
    let mut d: usize = 0;
    while d < shape.len()
        invariant
            d <= shape@.len(),
            out@ == reduce_shape_spec(shape@, axes@, keep, d as nat),
        decreases shape@.len() - d,
    {
        if contains_axis(axes, d) {
            if keep {
                out.push(1);
            }
        } else {
            out.push(shape[d]);
        }
        d = d + 1;
        assert(out@ =~= reduce_shape_spec(shape@, axes@, keep, d as nat));
    }
    out
}

proof fn lemma_pow2_mono(a: nat, b: nat)
    requires
        a <= b,
    ensures
        pow2_nat(a) <= pow2_nat(b),
    decreases b,
{
    if a < b {
        lemma_pow2_mono(a, (b - 1) as nat);
    }
}

/// One bit per reduced axis below `n`.
fn axes_mask(axes: &Vec<usize>, n: usize) -> (r: u32)
    requires
        n <= 8,
    ensures
        r == axes_mask_spec(axes@, n as nat),
{
    let mut mask: u64 = 0;
    let mut bit: u64 = 1;
    let mut d: usize = 0;
    proof {
        reveal_with_fuel(pow2_nat, 9);
        assert(pow2_nat(8) == 256);
    }
    while d < n
        invariant
            d <= n <= 8,
            pow2_nat(8) == 256,
            bit == pow2_nat(d as nat),
            mask == axes_mask_spec(axes@, d as nat),
            mask < bit,
        decreases n - d,
    {
        proof {
            lemma_pow2_mono(d as nat, 8);
        }
        assert(crate::vk_desc::byte_place(0) == 1);
        if contains_axis(axes, d) {
            mask = mask + bit;
        }
        bit = bit * 2;
        d = d + 1;
    }
    proof {
        lemma_pow2_mono(d as nat, 8);
    }
    mask as u32
}

/// The reduced axes and keep flag of a minimum over axes, with the output
/// shape checked.
fn min_axis_shape_check(attrs: &OpAttrs, inp: &TensorValue, out: &TensorValue) -> (r: Result<(Vec<usize>, bool), VkError>)
    requires
        inp.wf(),
    ensures
        match axes_spec(*attrs, inp.shape@.len()) {
            Err(e) => r == Err::<(Vec<usize>, bool), VkError>(e),
            Ok(axes) => if out.shape@ != reduce_shape_spec(inp.shape@, axes, keepdims_spec(*attrs), inp.shape@.len()) {
                r == Err::<(Vec<usize>, bool), VkError>(VkError::ShapeMismatch)
            } else {
                r matches Ok((a, k)) && a@ == axes && k == keepdims_spec(*attrs)
            },
        },
{
    let rank = inp.shape.len();
    proof {
        assert(crate::tensor::shape_fits(inp.shape@));
        assert(inp.shape@.subrange(0, inp.shape@.len() as int) =~= inp.shape@);
    }
    let axes = axes_from_attrs(attrs, rank)?;
    let keep = keepdims_from_attrs(attrs);
    let expected = reduce_shape(inp.shape.as_slice(), &axes, keep);
    if !crate::cache_table::same_key(out.shape.as_slice(), expected.as_slice()) {
        return Err(VkError::ShapeMismatch);
    }
    Ok((axes, keep))
}

/// Plan a minimum over axes.
#[verifier::rlimit(80)]
pub fn min_axis_normal_dispatch(attrs: &OpAttrs, inputs: &[TensorValue], output: Option<&TensorValue>, env: &DispatchEnv) -> (r: Result<DispatchPlan, VkError>)
    requires
        plan_inputs_ok(inputs@, output, *attrs, *env),
    ensures
        match min_axis_plan_spec(*attrs, inputs@, out_val(output), *env) {
            Ok(p) => r matches Ok(rp) && plan_view(rp) == p,
            Err(e) => r == Err::<DispatchPlan, VkError>(e),
        },
{
    if inputs.len() != 1 {
        return Err(VkError::WrongInputCount);
    }
    let out = match output {
        Some(o) => o,
        None => return Err(VkError::MissingOutput),
    };
    let inp = &inputs[0];
    let rank = inp.shape.len();
    let (axes, keep) = min_axis_shape_check(attrs, inp, out)?;
    let orank = out.shape.len();
    let key = OpKey { kind: OpKind::MinAxis, mode: OpMode::Normal, broadcast: false, inputs: input_dtypes(inputs), out0: out.dtype, acc_rule: None };
    if !gpu_path_check(rank > MAX_DIMS || orank > MAX_DIMS, env, inp.dtype, out.dtype) {
        return Ok(DispatchPlan::Fallback(key));
    }
    let t = match &env.target {
        Some(t) => t.clone(),
        None => return Ok(DispatchPlan::Fallback(key)),
    };
    build_min_axis_launch(inp, out, env, &axes, keep, t)
}

} // verus!
