//! Tensor descriptors and dtype codes that Vulkan kernels read, device
//! capabilities, staging buffers, and byte sizes.
use vstd::prelude::*;
use crate::dtype::{bits_of, packed, storage_units, DType};
use crate::tensor::{stride_of, TensorValue};
use crate::vk_common::VkError;

verus! {

/// Most dimensions a Vulkan tensor descriptor holds.
pub const MAX_DIMS: usize = 8;

/// The code of an element type in kernel push constants (0 for types
/// without one).
pub open spec fn dtype_code_spec(d: DType) -> u32 {
    match d {
        DType::I8 => 1,
        DType::I16 => 2,
        DType::I32 => 3,
        DType::I64 => 4,
        DType::U8 => 5,
        DType::U16 => 6,
        DType::U32 => 7,
        DType::U64 => 8,
        DType::F16 => 9,
        DType::BF16 => 10,
        DType::F32 => 11,
        DType::F64 => 12,
        DType::F8 => 13,
        DType::Bool => 14,
        DType::I4 => 16,
        DType::U4 => 19,
        _ => 0,
    }
}

/// The code of an element type in kernel push constants.
pub fn dtype_code(dtype: DType) -> (r: u32)
    ensures
        r == dtype_code_spec(dtype),
{
    match dtype {
        DType::I8 => 1,
        DType::I16 => 2,
        DType::I32 => 3,
        DType::I64 => 4,
        DType::U8 => 5,
        DType::U16 => 6,
        DType::U32 => 7,
        DType::U64 => 8,
        DType::F16 => 9,
        DType::BF16 => 10,
        DType::F32 => 11,
        DType::F64 => 12,
        DType::F8 => 13,
        DType::Bool => 14,
        DType::I4 => 16,
        DType::U4 => 19,
        _ => 0,
    }
}

/// `256^i`.
pub open spec fn byte_place(i: nat) -> nat
    decreases i,
{
    if i == 0 {
        1
    } else {
        256 * byte_place((i - 1) as nat)
    }
}

/// The accumulation rule packed one code per byte, first type in the
/// lowest byte; only the first four types count.
pub open spec fn acc_rule_spec(rule: Seq<DType>, n: nat) -> nat
    decreases n,
{
    if n == 0 {
        0
    } else {
        acc_rule_spec(rule, (n - 1) as nat) + (dtype_code_spec(rule[n - 1]) as nat) * byte_place((n - 1) as nat)
    }
}

/// Pack an accumulation rule into a `u32`, one dtype code per byte.
pub fn encode_acc_rule(rule: &[DType]) -> (r: u32)
    ensures
        r == acc_rule_spec(rule@, if rule@.len() < 4 { rule@.len() } else { 4 }),
{
    let n: usize = if rule.len() < 4 {
        rule.len()
    } else {
        4
    };
    let mut acc: u64 = 0;
    let mut place: u64 = 1;
    let mut i: usize = 0;
    while i < n
        invariant
            i <= n <= 4,
            n <= rule@.len(),
            place == byte_place(i as nat),
            place <= 0x1_0000_0000,
            acc == acc_rule_spec(rule@, i as nat),
            acc < place,
        decreases n - i,
    {
        let code = dtype_code(rule[i]);
        assert(code <= 19);
        assert(byte_place(0) == 1);
        assert(byte_place(1) == 256);
        assert(byte_place(2) == 65536);
        assert(byte_place(3) == 0x100_0000);
        assert(byte_place(4) == 0x1_0000_0000);
        assert(place <= 0x100_0000);
        assert(acc + code * place < 256 * place) by (nonlinear_arith)
            requires
                acc < place,
                code <= 19,
        ;
        acc = acc + code as u64 * place;
        place = place * 256;
        i = i + 1;
    }
    acc as u32
}

/// The code in byte `i` of a packed rule: the `i`-th type's, or zero past
/// the rule's end.
pub open spec fn code_at(rule: Seq<DType>, i: int) -> u32 {
    if 0 <= i < rule.len() {
        dtype_code_spec(rule[i])
    } else {
        0
    }
}

/// A packed rule is its first four codes, one per byte.
proof fn lemma_acc_rule_sum(rule: Seq<DType>)
    ensures
        acc_rule_spec(rule, if rule.len() < 4 { rule.len() } else { 4 }) == code_at(rule, 0) + code_at(rule, 1) * 256
            + code_at(rule, 2) * 0x1_0000 + code_at(rule, 3) * 0x100_0000,
{
    assert(byte_place(0) == 1);
    assert(byte_place(1) == 256);
    assert(byte_place(2) == 0x1_0000);
    assert(byte_place(3) == 0x100_0000);
    reveal_with_fuel(acc_rule_spec, 5);
}

/// Byte `i` of a packed accumulation rule (for `i` below 4) holds the code
/// of the rule's `i`-th type, or zero when the rule is shorter; types past
/// the fourth do not count.
pub proof fn law_acc_rule_bytes(rule: Seq<DType>)
    ensures
        ({
            let r = acc_rule_spec(rule, if rule.len() < 4 { rule.len() } else { 4 }) as u32;
            &&& r & 0xff == code_at(rule, 0)
            &&& (r >> 8u32) & 0xff == code_at(rule, 1)
            &&& (r >> 16u32) & 0xff == code_at(rule, 2)
            &&& (r >> 24u32) & 0xff == code_at(rule, 3)
        }),
        acc_rule_spec(rule, if rule.len() < 4 { rule.len() } else { 4 }) == acc_rule_spec(
            rule.take(if rule.len() < 4 { rule.len() as int } else { 4 }),
            if rule.len() < 4 { rule.len() } else { 4 },
        ),
{
    lemma_acc_rule_sum(rule);
    let t = rule.take(if rule.len() < 4 { rule.len() as int } else { 4 });
    lemma_acc_rule_sum(t);
    assert(code_at(t, 0) == code_at(rule, 0));
    assert(code_at(t, 1) == code_at(rule, 1));
    assert(code_at(t, 2) == code_at(rule, 2));
    assert(code_at(t, 3) == code_at(rule, 3));
    let c0 = code_at(rule, 0);
    let c1 = code_at(rule, 1);
    let c2 = code_at(rule, 2);
    let c3 = code_at(rule, 3);
    assert(c0 < 256 && c1 < 256 && c2 < 256 && c3 < 256);
    let r = (c0 + c1 * 256 + c2 * 0x1_0000 + c3 * 0x100_0000) as u32;
    assert(r & 0xff == c0 && (r >> 8u32) & 0xff == c1 && (r >> 16u32) & 0xff == c2 && (r >> 24u32) & 0xff == c3)
        by (bit_vector)
        requires
            c0 < 256,
            c1 < 256,
            c2 < 256,
            c3 < 256,
            r == (c0 + c1 * 256 + c2 * 0x1_0000 + c3 * 0x100_0000) as u32,
    ;
}

/// The accumulation type an op uses when none is given: 32-bit of the
/// input's kind (float, signed or unsigned) for inputs of at most 16 bits,
/// otherwise 64-bit when the device has it.
pub open spec fn default_accum_spec(input: DType, supports_64bit: bool) -> DType {
    if bits_of(input) <= 16 {
        match input {
            DType::F8 | DType::BF16 | DType::F16 => DType::F32,
            DType::I1 | DType::I2 | DType::I4 | DType::I8 | DType::I16 => DType::I32,
            DType::U1 | DType::U2 | DType::U4 | DType::U8 | DType::U16 => DType::U32,
            _ => DType::F32,
        }
    } else if supports_64bit {
        match input {
            DType::F64 | DType::I64 | DType::U64 => input,
            DType::F32 => DType::F64,
            DType::I32 => DType::I64,
            DType::U32 => DType::U64,
            _ => DType::I64,
        }
    } else {
        match input {
            DType::F32 | DType::F64 => DType::F32,
            DType::I32 | DType::I64 => DType::I32,
            DType::U32 | DType::U64 => DType::U32,
            _ => DType::I32,
        }
    }
}

/// The accumulation type an op uses when none is given.
pub fn default_accum_dtype(input_dtype: DType, supports_64bit: bool) -> (r: DType)
    ensures
        r == default_accum_spec(input_dtype, supports_64bit),
{
    let bits = input_dtype.bit_width();
    if bits <= 16 {
        match input_dtype {
            DType::F8 | DType::BF16 | DType::F16 => DType::F32,
            DType::I1 | DType::I2 | DType::I4 | DType::I8 | DType::I16 => DType::I32,
            DType::U1 | DType::U2 | DType::U4 | DType::U8 | DType::U16 => DType::U32,
            _ => DType::F32,
        }
    } else if supports_64bit {
        match input_dtype {
            DType::F64 | DType::I64 | DType::U64 => input_dtype,
            DType::F32 => DType::F64,
            DType::I32 => DType::I64,
            DType::U32 => DType::U64,
            _ => DType::I64,
        }
    } else {
        match input_dtype {
            DType::F32 | DType::F64 => DType::F32,
            DType::I32 | DType::I64 => DType::I32,
            DType::U32 | DType::U64 => DType::U32,
            _ => DType::I32,
        }
    }
}

/// What a kernel reads of one tensor: rank, dtype code, element width,
/// byte offset in its buffer, and `MAX_DIMS` shape and stride slots.
#[derive(Clone, Debug)]
pub struct TensorDesc {
    pub rank: u32,
    pub dtype: u32,
    pub elem_bits: u32,
    pub byte_offset: u32,
    pub shape: Vec<u32>,
    pub strides: Vec<u32>,
}

/// Strides of a tensor of `shape` (with row-major `strides`) seen with
/// `out_rank` dimensions: missing leading dimensions and dimensions of size
/// one repeat, so their stride is zero.
pub open spec fn broadcast_strides_spec(shape: Seq<usize>, strides: Seq<usize>, out_rank: nat) -> Seq<usize> {
    let offset: int = if out_rank > shape.len() { out_rank - shape.len() } else { 0 };
    Seq::new(
        out_rank,
        |i: int|
            if i < offset || shape[i - offset] == 1 {
                0usize
            } else {
                strides[i - offset]
            },
    )
}

/// The memory position of an index under strides: the sum of each index
/// times its stride, over the first `n` dimensions.
pub open spec fn lin(idx: Seq<usize>, st: Seq<usize>, n: nat) -> int
    decreases n,
{
    if n == 0 {
        0
    } else {
        lin(idx, st, (n - 1) as nat) + idx[n - 1] * st[n - 1]
    }
}

/// The index of the input element that an output index of a broadcast
/// reads: the trailing dimensions of the output index, with 0 along every
/// dimension of size 1.
pub open spec fn broadcast_source(a: Seq<usize>, shape: Seq<usize>, offset: int) -> Seq<usize> {
    Seq::new(shape.len(), |j: int| if shape[j] == 1 { 0usize } else { a[offset + j] })
}

proof fn lemma_lin_leading(a: Seq<usize>, st: Seq<usize>, n: nat)
    requires
        n <= st.len(),
        forall|i: int| 0 <= i < n ==> st[i] == 0,
    ensures
        lin(a, st, n) == 0,
    decreases n,
{
    if n > 0 {
        lemma_lin_leading(a, st, (n - 1) as nat);
    }
}

proof fn lemma_lin_broadcast(shape: Seq<usize>, strides: Seq<usize>, out_rank: nat, a: Seq<usize>, m: nat)
    requires
        strides.len() == shape.len(),
        out_rank >= shape.len(),
        m <= shape.len(),
    ensures
        lin(a, broadcast_strides_spec(shape, strides, out_rank), (out_rank - shape.len() + m) as nat) == lin(
            broadcast_source(a, shape, out_rank - shape.len()),
            strides,
            m,
        ),
    decreases m,
{
    let off = (out_rank - shape.len()) as nat;
    let st = broadcast_strides_spec(shape, strides, out_rank);
    if m == 0 {
        lemma_lin_leading(a, st, off);
    } else {
        lemma_lin_broadcast(shape, strides, out_rank, a, (m - 1) as nat);
        let j = m - 1;
        let src = broadcast_source(a, shape, off as int);
        assert(st[off + j] == if shape[j] == 1 { 0usize } else { strides[j] });
        if shape[j] == 1 {
            assert(a[off + j] * st[off + j] == 0);
            assert(src[j] * strides[j] == 0);
        } else {
            assert(src[j] == a[off + j]);
        }
    }
}

/// With broadcast strides, an output index reads the input element that
/// broadcasting gives it: a dimension the input lacks, or has of size 1,
/// never moves in memory, and every other dimension moves by its stride.
pub proof fn law_broadcast_reads_source(shape: Seq<usize>, strides: Seq<usize>, out_rank: nat, a: Seq<usize>)
    requires
        strides.len() == shape.len(),
        out_rank >= shape.len(),
    ensures
        lin(a, broadcast_strides_spec(shape, strides, out_rank), out_rank) == lin(
            broadcast_source(a, shape, out_rank - shape.len()),
            strides,
            shape.len(),
        ),
{
    lemma_lin_broadcast(shape, strides, out_rank, a, shape.len());
}

/// Two output indices that differ only along broadcast dimensions (those
/// the input lacks or has of size 1) read the same input element.
pub proof fn law_broadcast_repeats(shape: Seq<usize>, strides: Seq<usize>, out_rank: nat, a: Seq<usize>, b: Seq<usize>)
    requires
        strides.len() == shape.len(),
        out_rank >= shape.len(),
        a.len() == out_rank,
        b.len() == out_rank,
        forall|i: int|
            0 <= i < out_rank && a[i] != b[i] ==> i < out_rank - shape.len() || shape[i - (out_rank - shape.len())] == 1,
    ensures
        lin(a, broadcast_strides_spec(shape, strides, out_rank), out_rank) == lin(
            b,
            broadcast_strides_spec(shape, strides, out_rank),
            out_rank,
        ),
{
    let off = out_rank - shape.len();
    law_broadcast_reads_source(shape, strides, out_rank, a);
    law_broadcast_reads_source(shape, strides, out_rank, b);
    assert(broadcast_source(a, shape, off) =~= broadcast_source(b, shape, off));
}

/// Strides of a tensor seen with `out_rank` dimensions.
pub fn broadcast_strides(shape: &[usize], strides: &[usize], out_rank: usize) -> (r: Vec<usize>)
    requires
        strides@.len() == shape@.len(),
    ensures
        r@ == broadcast_strides_spec(shape@, strides@, out_rank as nat),
{
    let offset: usize = if out_rank > shape.len() {
        out_rank - shape.len()
    } else {
        0
    };
    let mut out: Vec<usize> = Vec::new();
    let mut i: usize = 0;
    while i < out_rank
        invariant
            i <= out_rank,
            offset == if out_rank > shape@.len() { out_rank - shape@.len() } else { 0 },
            strides@.len() == shape@.len(),
            out@ == broadcast_strides_spec(shape@, strides@, out_rank as nat).subrange(0, i as int),
        decreases out_rank - i,
    {
        if i < offset {
            out.push(0);
        } else if i - offset >= shape.len() {
            out.push(0);
        } else if shape[i - offset] == 1 {
            out.push(0);
        } else {
            out.push(strides[i - offset]);
        }
        i = i + 1;
        assert(out@ =~= broadcast_strides_spec(shape@, strides@, out_rank as nat).subrange(0, i as int));
    }
    assert(out@ =~= broadcast_strides_spec(shape@, strides@, out_rank as nat));
    out
}

/// Row-major strides of `shape`.
pub open spec fn row_strides_of(shape: Seq<usize>) -> Seq<usize> {
    Seq::new(shape.len(), |d: int| stride_of(shape, d) as usize)
}

/// The descriptor of a tensor seen with `out_rank` dimensions; shapes and
/// strides are truncated to `u32`, unused slots hold zero.
pub open spec fn tensor_desc_spec(t_dtype: DType, shape: Seq<usize>, out_rank: nat, byte_offset: u32) -> (u32, u32, u32, u32, Seq<u32>, Seq<u32>) {
    let offset: int = if out_rank > shape.len() { out_rank - shape.len() } else { 0 };
    let st = broadcast_strides_spec(shape, row_strides_of(shape), out_rank);
    (
        out_rank as u32,
        dtype_code_spec(t_dtype),
        bits_of(t_dtype) as u32,
        byte_offset,
        Seq::new(
            MAX_DIMS as nat,
            |i: int|
                if i >= out_rank {
                    0u32
                } else if i < offset {
                    1u32
                } else {
                    shape[i - offset] as u32
                },
        ),
        Seq::new(MAX_DIMS as nat, |i: int| if i >= out_rank { 0u32 } else { st[i] as u32 }),
    )
}

/// A descriptor as its parts.
pub open spec fn desc_view(d: TensorDesc) -> (u32, u32, u32, u32, Seq<u32>, Seq<u32>) {
    (d.rank, d.dtype, d.elem_bits, d.byte_offset, d.shape@, d.strides@)
}

/// The descriptor of a tensor seen with `out_rank` dimensions.
pub fn build_tensor_desc(value: &TensorValue, out_rank: usize, byte_offset: u32) -> (r: Result<
    TensorDesc,
    VkError,
>)
    requires
        value.wf(),
    ensures
        out_rank > MAX_DIMS ==> r == Err::<TensorDesc, VkError>(VkError::TooManyDims),
        out_rank <= MAX_DIMS ==> (r matches Ok(d) && desc_view(d) == tensor_desc_spec(
            value.dtype,
            value.shape@,
            out_rank as nat,
            byte_offset,
        )),
{
    if out_rank > MAX_DIMS {
        return Err(VkError::TooManyDims);
    }
    let shape = value.shape.as_slice();
    let rs = value.strides();
    let strides = broadcast_strides(shape, rs.as_slice(), out_rank);
    proof {
        assert(rs@ =~= row_strides_of(value.shape@));
    }
    let offset: usize = if out_rank > shape.len() {
        out_rank - shape.len()
    } else {
        0
    };
    let ghost spec = tensor_desc_spec(value.dtype, value.shape@, out_rank as nat, byte_offset);
    let mut dshape: Vec<u32> = Vec::new();
    let mut dstrides: Vec<u32> = Vec::new();
    let mut i: usize = 0;
    while i < MAX_DIMS
        invariant
            i <= MAX_DIMS,
            out_rank <= MAX_DIMS,
            offset == if out_rank > shape@.len() { out_rank - shape@.len() } else { 0 },
            shape@ == value.shape@,
            strides@ == broadcast_strides_spec(shape@, row_strides_of(shape@), out_rank as nat),
            spec == tensor_desc_spec(value.dtype, value.shape@, out_rank as nat, byte_offset),
            dshape@ == spec.4.subrange(0, i as int),
            dstrides@ == spec.5.subrange(0, i as int),
        decreases MAX_DIMS - i,
    {
        if i >= out_rank {
            dshape.push(0);
            dstrides.push(0);
        } else {
            if i < offset {
                dshape.push(1);
            } else {
                dshape.push(#[verifier::truncate] (shape[i - offset] as u32));
            }
            dstrides.push(#[verifier::truncate] (strides[i] as u32));
        }
        i = i + 1;
        assert(dshape@ =~= spec.4.subrange(0, i as int));
        assert(dstrides@ =~= spec.5.subrange(0, i as int));
    }
    assert(dshape@ =~= spec.4);
    assert(dstrides@ =~= spec.5);
    Ok(
        TensorDesc {
            rank: out_rank as u32,
            dtype: dtype_code(value.dtype),
            elem_bits: value.dtype.bit_width(),
            byte_offset,
            shape: dshape,
            strides: dstrides,
        },
    )
}

/// The descriptor of a tensor broadcast to `out_shape`; shapes and strides
/// are truncated to `u32`, unused slots hold zero.
pub open spec fn tensor_desc_broadcast_spec(t_dtype: DType, shape: Seq<usize>, out_shape: Seq<usize>, byte_offset: u32) -> (u32, u32, u32, u32, Seq<u32>, Seq<u32>) {
    let out_rank = out_shape.len();
    let st = broadcast_strides_spec(shape, row_strides_of(shape), out_rank);
    (
        out_rank as u32,
        dtype_code_spec(t_dtype),
        bits_of(t_dtype) as u32,
        byte_offset,
        Seq::new(MAX_DIMS as nat, |i: int| if i >= out_rank { 0u32 } else { out_shape[i] as u32 }),
        Seq::new(MAX_DIMS as nat, |i: int| if i >= out_rank { 0u32 } else { st[i] as u32 }),
    )
}

/// The descriptor of a tensor broadcast to `out_shape`.
pub fn build_tensor_desc_broadcast(value: &TensorValue, out_shape: &[usize], byte_offset: u32) -> (r:
    Result<TensorDesc, VkError>)
    requires
        value.wf(),
    ensures
        out_shape@.len() > MAX_DIMS ==> r == Err::<TensorDesc, VkError>(VkError::TooManyDims),
        out_shape@.len() <= MAX_DIMS ==> (r matches Ok(d) && desc_view(d) == tensor_desc_broadcast_spec(
            value.dtype,
            value.shape@,
            out_shape@,
            byte_offset,
        )),
{
    let out_rank = out_shape.len();
    if out_rank > MAX_DIMS {
        return Err(VkError::TooManyDims);
    }
    let rs = value.strides();
    let strides = broadcast_strides(value.shape.as_slice(), rs.as_slice(), out_rank);
    proof {
        assert(rs@ =~= row_strides_of(value.shape@));
    }
    let ghost spec = tensor_desc_broadcast_spec(value.dtype, value.shape@, out_shape@, byte_offset);
    let mut dshape: Vec<u32> = Vec::new();
    let mut dstrides: Vec<u32> = Vec::new();
    let mut i: usize = 0;
    while i < MAX_DIMS
        invariant
            i <= MAX_DIMS,
            out_rank == out_shape@.len() <= MAX_DIMS,
            strides@ == broadcast_strides_spec(value.shape@, row_strides_of(value.shape@), out_rank as nat),
            spec == tensor_desc_broadcast_spec(value.dtype, value.shape@, out_shape@, byte_offset),
            dshape@ == spec.4.subrange(0, i as int),
            dstrides@ == spec.5.subrange(0, i as int),
        decreases MAX_DIMS - i,
    {
        if i >= out_rank {
            dshape.push(0);
            dstrides.push(0);
        } else {
            dshape.push(#[verifier::truncate] (out_shape[i] as u32));
            dstrides.push(#[verifier::truncate] (strides[i] as u32));
        }
        i = i + 1;
        assert(dshape@ =~= spec.4.subrange(0, i as int));
        assert(dstrides@ =~= spec.5.subrange(0, i as int));
    }
    assert(dshape@ =~= spec.4);
    assert(dstrides@ =~= spec.5);
    Ok(
        TensorDesc {
            rank: out_rank as u32,
            dtype: dtype_code(value.dtype),
            elem_bits: value.dtype.bit_width(),
            byte_offset,
            shape: dshape,
            strides: dstrides,
        },
    )
}

/// What the Vulkan device supports.
#[derive(Clone, Copy, Debug, PartialEq, Eq, Structural)]
pub struct VulkanCaps {
    pub int64: bool,
    pub float64: bool,
    pub subgroup: bool,
}

impl VulkanCaps {
    /// Whether the device handles elements of `dtype`.
    pub open spec fn supports_spec(self, dtype: DType) -> bool {
        match dtype {
            DType::I64 | DType::U64 => self.int64,
            DType::F64 => self.float64,
            _ => true,
        }
    }

    /// Whether the device handles elements of `dtype`: 64-bit integers and
    /// doubles need their capability, everything else is supported.
    pub fn supports_dtype(&self, dtype: DType) -> (r: bool)
        ensures
            r == self.supports_spec(dtype),
    {
        match dtype {
            DType::I64 | DType::U64 => self.int64,
            DType::F64 => self.float64,
            _ => true,
        }
    }
}

/// The staging buffers reused between dispatches.
#[derive(Debug)]
pub struct StagingBuffers {
    pub input: Vec<u8>,
    pub output: Vec<u8>,
}

/// The pool after the staging buffers were taken, and what was taken.
pub open spec fn take_spec(pool: (Seq<u8>, Seq<u8>)) -> ((Seq<u8>, Seq<u8>), (Seq<u8>, Seq<u8>)) {
    (pool, (Seq::empty(), Seq::empty()))
}

/// The pool after buffers were returned to it.
pub open spec fn return_spec(pool: (Seq<u8>, Seq<u8>), buffers: (Seq<u8>, Seq<u8>)) -> (Seq<u8>, Seq<u8>) {
    buffers
}

/// Take the pooled staging buffers, leaving the pool empty.
pub fn take_staging(pool: &mut StagingBuffers) -> (r: StagingBuffers)
    ensures
        ((r.input@, r.output@), (final(pool).input@, final(pool).output@)) == take_spec(
            (old(pool).input@, old(pool).output@),
        ),
{
    let mut input: Vec<u8> = Vec::new();
    let mut output: Vec<u8> = Vec::new();
    std::mem::swap(&mut input, &mut pool.input);
    std::mem::swap(&mut output, &mut pool.output);
    StagingBuffers { input, output }
}

/// Put staging buffers back into the pool.
pub fn return_staging(pool: &mut StagingBuffers, buffers: StagingBuffers)
    ensures
        (final(pool).input@, final(pool).output@) == return_spec(
            (old(pool).input@, old(pool).output@),
            (buffers.input@, buffers.output@),
        ),
{
    pool.input = buffers.input;
    pool.output = buffers.output;
}

/// Taking the pooled buffers right after returning some gives back exactly
/// those buffers and leaves the pool empty.
pub proof fn law_staging_return_then_take(pool: (Seq<u8>, Seq<u8>), buffers: (Seq<u8>, Seq<u8>))
    ensures
        take_spec(return_spec(pool, buffers)).0 == buffers,
        take_spec(return_spec(pool, buffers)).1.0.len() == 0,
        take_spec(return_spec(pool, buffers)).1.1.len() == 0,
{
}

/// Take the duration of the last dispatch, if one was recorded.
pub fn take_last_dispatch_duration(slot: &mut Option<u64>) -> (r: Option<u64>)
    ensures
        r == *old(slot),
        *final(slot) == None::<u64>,
{
    let r = *slot;
    *slot = None;
    r
}

/// `a * b`, held at `usize::MAX`.
pub open spec fn mul_sat(a: nat, b: nat) -> usize {
    if a * b > usize::MAX {
        usize::MAX
    } else {
        (a * b) as usize
    }
}

/// Bytes that `logical_len` elements of `dtype` occupy: the packed storage
/// for sub-byte types, otherwise the elements times their whole-byte width
/// (held at `usize::MAX`).
pub open spec fn tensor_byte_len_spec(dtype: DType, logical_len: usize) -> usize {
    if packed(dtype) {
        storage_units(dtype, logical_len as nat) as usize
    } else {
        mul_sat(logical_len as nat, ((bits_of(dtype) + 7) / 8) as nat)
    }
}

/// Bytes that `logical_len` elements of `dtype` occupy.
pub fn tensor_byte_len(dtype: DType, logical_len: usize) -> (r: usize)
    ensures
        r == tensor_byte_len_spec(dtype, logical_len),
{
    if dtype.is_packed() {
        dtype.storage_len(logical_len)
    } else {
        let elem_bytes = (dtype.bit_width() as usize + 7) / 8;
        match logical_len.checked_mul(elem_bytes) {
            Some(v) => v,
            None => usize::MAX,
        }
    }
}

/// Where a compiled kernel is found and how it is launched.
#[derive(Clone, Debug)]
pub struct VulkanOpSpec {
    pub entry: String,
    pub spv_dir: String,
    pub workgroup_x: u32,
    pub workgroup_y: u32,
    pub workgroup_z: u32,
    pub push_constant_size: u32,
}

/// The number of workgroups along x that cover `len` invocations with
/// groups of `group` (taken as one when zero): the quotient rounded up, and
/// never fewer than one.
pub open spec fn group_count_spec(len: u32, group: u32) -> u32 {
    let g: int = if group == 0 { 1 } else { group as int };
    let c = (len as int + g - 1) / g;
    if c == 0 {
        1
    } else {
        c as u32
    }
}

/// Workgroups to dispatch for `dispatch_len` invocations (see
/// `group_count_spec`).
pub fn dispatch_groups(dispatch_len: u32, workgroup_x: u32) -> (r: u32)
    ensures
        r == group_count_spec(dispatch_len, workgroup_x),
{
    let g: u64 = if workgroup_x == 0 { 1 } else { workgroup_x as u64 };
    let c = (dispatch_len as u64 + g - 1) / g;
    assert(c <= dispatch_len || c == 0) by (nonlinear_arith)
        requires
            g >= 1,
            c == (dispatch_len + g - 1) / (g as int),
    ;
    if c == 0 {
        1
    } else {
        c as u32
    }
}

/// Whether push constants of `len` bytes fit the kernel's push-constant
/// block.
pub fn push_constants_fit(spec: &VulkanOpSpec, len: usize) -> (r: bool)
    ensures
        r == (len <= spec.push_constant_size),
{
    len as u64 <= spec.push_constant_size as u64
}

/// How a buffer is bound to a kernel.
#[derive(Debug)]
pub enum BindingBytes {
    ReadOnly(Vec<u8>),
    ReadWrite(Vec<u8>),
    Alias { source_binding: usize, offset: u64, bytes: Vec<u8> },
}

} // verus!
