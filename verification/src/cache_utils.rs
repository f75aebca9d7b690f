//! Scalar reads and updates of cached tensors, slicing by index
//! selections, and growing a tensor into a larger shape.
use vstd::prelude::*;
use vstd::arithmetic::div_mod::lemma_mod_multiples_vanish;
use crate::cache::{CacheError, TensorIndexSelection};
use crate::dtype::{bits_of, packed, DType};
use crate::tensor::{elem_max, numel, numel_exec, pow2, row_major_strides, shape_fits, shape_fits_exec, signed_of, stride_of, copy_usizes, TensorValue, TensorView};

verus! {

/// Two's-complement value of the `bits`-bit pattern `v`, for a pattern that
/// fits in `bits` bits.
pub fn signed_value(v: u64, bits: u32) -> (r: i64)
    requires
        bits == 8 || bits == 16 || bits == 32 || bits == 64,
        v < pow2(bits as nat),
    ensures
        r == signed_of(v, bits as nat),
{
    let half: u64 = if bits == 8 {
        0x80
    } else if bits == 16 {
        0x8000
    } else if bits == 32 {
        0x8000_0000
    } else {
        0x8000_0000_0000_0000
    };
    if v < half {
        v as i64
    } else {
        let m: i128 = if bits == 8 {
            0x100
        } else if bits == 16 {
            0x1_0000
        } else if bits == 32 {
            0x1_0000_0000
        } else {
            0x1_0000_0000_0000_0000
        };
        (v as i128 - m) as i64
    }
}

/// The single element of a one-element tensor read as an `i64`: signed
/// types by their two's-complement value, unsigned ones as their pattern
/// reinterpreted in 64 bits, booleans as 0 or 1.
pub open spec fn scalar_i64_spec(t: TensorView) -> Result<i64, CacheError> {
    if numel(t.shape) != 1 {
        Err(CacheError::NotScalar)
    } else if packed(t.dtype) {
        Err(CacheError::PackedUnsupported)
    } else {
        match t.dtype {
            DType::I8 | DType::I16 | DType::I32 | DType::I64 | DType::U64 => Ok(
                signed_of(t.data[0], bits_of(t.dtype)) as i64,
            ),
            DType::U8 | DType::U16 | DType::U32 | DType::Bool => Ok(t.data[0] as i64),
            _ => Err(CacheError::NotInteger),
        }
    }
}

/// Read a one-element integer tensor as an `i64`.
pub fn scalar_to_i64(value: &TensorValue) -> (r: Result<i64, CacheError>)
    requires
        value.wf(),
    ensures
        r == scalar_i64_spec(value@),
{
    if value.len() != 1 {
        return Err(CacheError::NotScalar);
    }
    if value.dtype.is_packed() {
        return Err(CacheError::PackedUnsupported);
    }
    let v = value.data[0];
    match value.dtype {
        DType::I8 | DType::I16 | DType::I32 | DType::I64 | DType::U64 => {
            Ok(signed_value(v, value.dtype.bit_width()))
        },
        DType::U8 | DType::U16 | DType::U32 | DType::Bool => Ok(v as i64),
        _ => Err(CacheError::NotInteger),
    }
}

/// `v + delta` wrapped into `bits` bits.
pub open spec fn wrap_add(v: u64, delta: int, bits: nat) -> u64 {
    ((v as int + delta) % pow2(bits)) as u64
}

/// The one element of a scalar integer tensor moved by `amount` (or by
/// `-amount` when decrementing), wrapping around the element width.
/// Floating-point elements are left to the caller.
pub open spec fn increment_spec(t: TensorView, amount: i64, decrement: bool) -> Result<TensorView, CacheError> {
    let delta: int = if decrement {
        -amount
    } else {
        amount as int
    };
    if numel(t.shape) != 1 {
        Err(CacheError::IncrementNeedsScalar)
    } else {
        match t.dtype {
            DType::I8 | DType::I16 | DType::I32 | DType::I64 | DType::U8 | DType::U16 | DType::U32
            | DType::U64 => Ok(
                TensorView {
                    dtype: t.dtype,
                    shape: t.shape,
                    data: seq![wrap_add(t.data[0], delta, bits_of(t.dtype))],
                },
            ),
            DType::F16 | DType::BF16 | DType::F8 | DType::F32 | DType::F64 => Err(
                CacheError::FloatIncrement,
            ),
            _ => if packed(t.dtype) {
                Err(CacheError::PackedUnsupported)
            } else {
                Err(CacheError::IncrementUnsupported)
            },
        }
    }
}

/// Add `amount` (or subtract it) to the single element of an integer tensor.
pub fn increment_scalar(value: TensorValue, amount: i64, decrement: bool) -> (r: Result<
    TensorValue,
    CacheError,
>)
    requires
        value.wf(),
        !(decrement && amount == i64::MIN),
    ensures
        match increment_spec(value@, amount, decrement) {
            Ok(t) => r matches Ok(rt) && rt@ == t && rt.wf(),
            Err(e) => r == Err::<TensorValue, CacheError>(e),
        },
{
    if value.len() != 1 {
        return Err(CacheError::IncrementNeedsScalar);
    }
    let signed_amount: i64 = if decrement {
        -amount
    } else {
        amount
    };
    match value.dtype {
        DType::I8 | DType::I16 | DType::I32 | DType::I64 | DType::U8 | DType::U16 | DType::U32
        | DType::U64 => {
            let bits = value.dtype.bit_width();
            let m: i128 = if bits == 8 {
                0x100
            } else if bits == 16 {
                0x1_0000
            } else if bits == 32 {
                0x1_0000_0000
            } else {
                0x1_0000_0000_0000_0000
            };
            let v = value.data[0];
            let x: i128 = v as i128 + signed_amount as i128;
            let big: i128 = 0x1_0000_0000_0000_0000;
            let y: i128 = x + big;
            let w = (y % m) as u64;
            proof {
                let k = big / m;
                assert(big == m * k);
                lemma_mod_multiples_vanish(k as int, x as int, m as int);
                assert(y as int == m * k + x);
                assert(pow2(bits_of(value.dtype)) == m);
            }
            let mut data: Vec<u64> = Vec::new();
            data.push(w);
            let out = TensorValue { dtype: value.dtype, shape: value.shape, data };
            proof {
                assert(out.data@ =~= seq![wrap_add(v, signed_amount as int, bits_of(value.dtype))]);
                assert(out.data@[0] < m);
            }
            Ok(out)
        },
        DType::F16 | DType::BF16 | DType::F8 | DType::F32 | DType::F64 => Err(
            CacheError::FloatIncrement,
        ),
        _ => {
            if value.dtype.is_packed() {
                Err(CacheError::PackedUnsupported)
            } else {
                Err(CacheError::IncrementUnsupported)
            }
        },
    }
}

/// Tensor selections as values: positions and whether a single one was named.
pub open spec fn tsel_view(sels: Seq<TensorIndexSelection>) -> Seq<(Seq<usize>, bool)> {
    Seq::new(sels.len(), |d: int| (sels[d].indices@, sels[d].is_scalar))
}

/// Number of positions each selection picks.
pub open spec fn tensor_sel_counts(sels: Seq<(Seq<usize>, bool)>) -> Seq<usize> {
    Seq::new(sels.len(), |d: int| sels[d].0.len() as usize)
}

/// The index tuple at row-major position `t` of the product of selections.
pub open spec fn tensor_key(sels: Seq<(Seq<usize>, bool)>, t: int) -> Seq<usize> {
    let c = tensor_sel_counts(sels);
    Seq::new(
        sels.len(),
        |d: int| sels[d].0[(t / (stride_of(c, d) as int)) % (c[d] as int)],
    )
}

/// Sum of `key[d] * strides[d]` over the first `n` positions.
pub open spec fn dot_offset(key: Seq<usize>, strides: Seq<usize>, n: nat) -> int
    decreases n,
{
    if n == 0 {
        0
    } else {
        dot_offset(key, strides, (n - 1) as nat) + key[n - 1] as int * strides[n - 1] as int
    }
}

/// Offset of an index tuple under `strides`, over the positions both have.
pub open spec fn offset_of(key: Seq<usize>, strides: Seq<usize>) -> int {
    dot_offset(key, strides, if key.len() < strides.len() { key.len() } else { strides.len() })
}

/// Every index tuple of the product of selections lands inside `data_len`.
pub open spec fn offsets_in_bounds(sels: Seq<(Seq<usize>, bool)>, strides: Seq<usize>, data_len: int) -> bool {
    forall|t: int|
        0 <= t < numel(tensor_sel_counts(sels)) ==> #[trigger] offset_of(tensor_key(sels, t), strides)
            < data_len
}

proof fn lemma_dot_mono(key: Seq<usize>, strides: Seq<usize>, i: nat, n: nat)
    requires
        i <= n,
    ensures
        dot_offset(key, strides, i) <= dot_offset(key, strides, n),
    decreases n - i,
{
    if i < n {
        lemma_dot_mono(key, strides, i, (n - 1) as nat);
        assert(key[n - 1] as int * strides[n - 1] as int >= 0) by (nonlinear_arith);
    }
}

proof fn lemma_counts_pos_t(c: Seq<usize>)
    requires
        numel(c) > 0,
    ensures
        forall|d: int| 0 <= d < c.len() ==> #[trigger] c[d] > 0,
        forall|d: int| 0 <= d < c.len() ==> #[trigger] stride_of(c, d) > 0,
    decreases c.len(),
{
    if c.len() > 0 {
        let r = c.drop_first();
        assert(numel(c) == c[0] as nat * numel(r));
        assert(c[0] > 0 && numel(r) > 0) by (nonlinear_arith)
            requires
                numel(c) == c[0] as nat * numel(r),
                numel(c) > 0,
        ;
        lemma_counts_pos_t(r);
        assert forall|d: int| 0 <= d < c.len() implies #[trigger] c[d] > 0 by {
            if d > 0 {
                assert(c[d] == r[d - 1]);
            }
        }
        assert forall|d: int| 0 <= d < c.len() implies #[trigger] stride_of(c, d) > 0 by {
            if d > 0 {
                assert(c.subrange(d + 1, c.len() as int) =~= r.subrange(d, r.len() as int));
                assert(stride_of(r, d - 1) > 0);
            } else {
                assert(c.subrange(1, c.len() as int) =~= r);
            }
        }
    }
}

/// The elements of `data` at every index tuple of the product of the
/// selections, in row-major order.
pub fn slice_tensor_data(data: &[u64], strides: &[usize], selections: &[TensorIndexSelection]) -> (r:
    Result<Vec<u64>, CacheError>)
    requires
        offsets_in_bounds(tsel_view(selections@), strides@, data@.len() as int),
    ensures
        !shape_fits(tensor_sel_counts(tsel_view(selections@))) ==> r == Err::<Vec<u64>, CacheError>(
            CacheError::SelectionTooLarge,
        ),
        shape_fits(tensor_sel_counts(tsel_view(selections@))) ==> (r matches Ok(v) && v@ == Seq::new(
            numel(tensor_sel_counts(tsel_view(selections@))),
            |t: int| data@[offset_of(tensor_key(tsel_view(selections@), t), strides@)],
        )),
{
    let ghost sels = tsel_view(selections@);
    let mut counts: Vec<usize> = Vec::new();
    let mut d: usize = 0;
    while d < selections.len()
        invariant
            d <= sels.len(),
            sels == tsel_view(selections@),
            counts@ == tensor_sel_counts(sels).subrange(0, d as int),
        decreases sels.len() - d,
    {
        counts.push(selections[d].indices.len());
        d = d + 1;
        assert(counts@ =~= tensor_sel_counts(sels).subrange(0, d as int));
    }
    assert(counts@ =~= tensor_sel_counts(sels));
    if !shape_fits_exec(&counts) {
        return Err(CacheError::SelectionTooLarge);
    }
    let total = numel_exec(&counts);
    let cstrides = row_major_strides(&counts);
    let n = if selections.len() < strides.len() {
        selections.len()
    } else {
        strides.len()
    };
    let dlen = data.len();
    let mut out: Vec<u64> = Vec::new();
    let mut t: usize = 0;
    while t < total
        invariant
            dlen == data@.len(),
            t <= total == numel(counts@),
            counts@ == tensor_sel_counts(sels),
            sels == tsel_view(selections@),
            cstrides@.len() == counts@.len(),
            forall|e: int| 0 <= e < cstrides@.len() ==> cstrides@[e] == stride_of(counts@, e),
            offsets_in_bounds(sels, strides@, data@.len() as int),
            n == if sels.len() < strides@.len() { sels.len() } else { strides@.len() },
            out@ == Seq::new(t as nat, |s: int| data@[offset_of(tensor_key(sels, s), strides@)]),
        decreases total - t,
    {
        proof {
            lemma_counts_pos_t(counts@);
        }
        let ghost key = tensor_key(sels, t as int);
        assert(offset_of(key, strides@) < data@.len());
        let mut off: usize = 0;
        let mut e: usize = 0;
        while e < n
            invariant
                e <= n <= sels.len(),
                n <= strides@.len(),
                t < total == numel(counts@),
                counts@ == tensor_sel_counts(sels),
                sels == tsel_view(selections@),
                cstrides@.len() == counts@.len(),
                forall|q: int| 0 <= q < cstrides@.len() ==> cstrides@[q] == stride_of(counts@, q),
                forall|q: int| 0 <= q < counts@.len() ==> #[trigger] counts@[q] > 0,
                forall|q: int| 0 <= q < counts@.len() ==> #[trigger] stride_of(counts@, q) > 0,
                key == tensor_key(sels, t as int),
                dlen == data@.len(),
                offset_of(key, strides@) < data@.len(),
                offset_of(key, strides@) == dot_offset(key, strides@, n as nat),
                off == dot_offset(key, strides@, e as nat),
            decreases n - e,
        {
            proof {
                lemma_dot_mono(key, strides@, (e + 1) as nat, n as nat);
            }
            assert(stride_of(counts@, e as int) > 0);
            let digit = (t / cstrides[e]) % counts[e];
            let idx = selections[e].indices[digit];
            assert(idx == key[e as int]);
            proof {
                assert(dot_offset(key, strides@, (e + 1) as nat) == off + idx as int * strides@[e as int] as int);
                lemma_dot_mono(key, strides@, 0, e as nat);
                assert(off + idx as int * strides@[e as int] as int <= dot_offset(key, strides@, n as nat));
                assert(idx as int * strides@[e as int] as int >= 0) by (nonlinear_arith);
            }
            off = off + idx * strides[e];
            e = e + 1;
        }
        out.push(data[off]);
        t = t + 1;
        assert(out@ =~= Seq::new(t as nat, |s: int| data@[offset_of(tensor_key(sels, s), strides@)]));
    }
    Ok(out)
}

/// Row-major strides of `shape`.
pub open spec fn row_strides(shape: Seq<usize>) -> Seq<usize> {
    Seq::new(shape.len(), |d: int| stride_of(shape, d) as usize)
}

/// One selection per dimension, each position inside its dimension.
pub open spec fn selections_in_shape(sels: Seq<(Seq<usize>, bool)>, shape: Seq<usize>) -> bool {
    &&& sels.len() == shape.len()
    &&& forall|d: int, i: int|
        0 <= d < sels.len() && 0 <= i < sels[d].0.len() ==> #[trigger] sels[d].0[i]
            < shape[d]
}

/// Sizes of the selections that are not single positions.
pub open spec fn tensor_nonscalar_counts(sels: Seq<(Seq<usize>, bool)>) -> Seq<usize>
    decreases sels.len(),
{
    if sels.len() == 0 {
        Seq::empty()
    } else {
        tensor_nonscalar_counts(sels.drop_last()) + if sels.last().1 {
            Seq::empty()
        } else {
            seq![sels.last().0.len() as usize]
        }
    }
}

proof fn lemma_offset_prefix(shape: Seq<usize>, key: Seq<usize>, i: nat)
    requires
        shape_fits(shape),
        key.len() == shape.len(),
        i <= shape.len(),
        forall|d: int| 0 <= d < shape.len() ==> #[trigger] key[d] < shape[d],
    ensures
        dot_offset(key, row_strides(shape), i) <= numel(shape) - numel(
            shape.subrange(i as int, shape.len() as int),
        ),
    decreases i,
{
    let n = shape.len() as int;
    if i == 0 {
        assert(shape.subrange(0, n) =~= shape);
    } else {
        let j = (i - 1) as int;
        lemma_offset_prefix(shape, key, j as nat);
        crate::tensor::lemma_numel_split(shape, j);
        let big = numel(shape.subrange(j, n));
        let small = numel(shape.subrange(j + 1, n));
        assert(shape_fits(shape));
        assert(numel(shape.subrange(j + 1, n)) <= usize::MAX);
        assert(row_strides(shape)[j] == small);
        let k = key[j];
        assert(k as int * small <= big - small) by (nonlinear_arith)
            requires
                big == shape[j] as nat * small,
                k < shape[j],
                small >= 0,
        ;
    }
}

/// Every index tuple drawn from selections inside `shape` lands inside it.
pub proof fn lemma_offsets_in_bounds(sels: Seq<(Seq<usize>, bool)>, shape: Seq<usize>)
    requires
        shape_fits(shape),
        selections_in_shape(sels, shape),
    ensures
        offsets_in_bounds(sels, row_strides(shape), numel(shape) as int),
{
    let c = tensor_sel_counts(sels);
    assert forall|t: int| 0 <= t < numel(c) implies #[trigger] offset_of(tensor_key(sels, t), row_strides(shape))
        < numel(shape) by {
        lemma_counts_pos_t(c);
        let key = tensor_key(sels, t);
        assert forall|d: int| 0 <= d < shape.len() implies #[trigger] key[d] < shape[d] by {
            assert(c[d] > 0);
            assert(stride_of(c, d) > 0);
            let digit = (t / (stride_of(c, d) as int)) % (c[d] as int);
            assert(0 <= digit < c[d]);
            assert(key[d] == sels[d].0[digit]);
        }
        lemma_offset_prefix(shape, key, shape.len());
        assert(shape.subrange(shape.len() as int, shape.len() as int) =~= Seq::<usize>::empty());
    }
}

/// The elements at every index tuple of the product of the selections, as a
/// tensor whose shape is the sizes of the non-single selections.
pub open spec fn slice_spec(t: TensorView, sels: Seq<(Seq<usize>, bool)>) -> Result<TensorView, CacheError> {
    let c = tensor_sel_counts(sels);
    let out_shape = tensor_nonscalar_counts(sels);
    if packed(t.dtype) {
        Err(CacheError::PackedUnsupported)
    } else if !shape_fits(c) {
        Err(CacheError::SelectionTooLarge)
    } else if !shape_fits(out_shape) || numel(out_shape) != numel(c) {
        Err(CacheError::MalformedTensor)
    } else {
        Ok(
            TensorView {
                dtype: t.dtype,
                shape: out_shape,
                data: Seq::new(
                    numel(c),
                    |i: int| t.data[offset_of(tensor_key(sels, i), row_strides(t.shape))],
                ),
            },
        )
    }
}

/// Slice a tensor by one selection per dimension.
pub fn slice_tensor_value(value: &TensorValue, selections: &[TensorIndexSelection]) -> (r: Result<
    TensorValue,
    CacheError,
>)
    requires
        value.wf(),
        !packed(value.dtype) ==> offsets_in_bounds(tsel_view(selections@), row_strides(value.shape@), value.data@.len() as int),
    ensures
        match slice_spec(value@, tsel_view(selections@)) {
            Ok(v) => r matches Ok(rt) && rt@ == v && rt.wf(),
            Err(e) => r == Err::<TensorValue, CacheError>(e),
        },
{
    let ghost sels = tsel_view(selections@);
    let mut out_shape: Vec<usize> = Vec::new();
    let mut d: usize = 0;
    while d < selections.len()
        invariant
            d <= sels.len(),
            sels == tsel_view(selections@),
            out_shape@ == tensor_nonscalar_counts(sels.subrange(0, d as int)),
        decreases sels.len() - d,
    {
        proof {
            let sub = sels.subrange(0, d + 1);
            assert(sub.drop_last() =~= sels.subrange(0, d as int));
        }
        if !selections[d].is_scalar {
            out_shape.push(selections[d].indices.len());
        }
        d = d + 1;
        assert(out_shape@ =~= tensor_nonscalar_counts(sels.subrange(0, d as int)));
    }
    assert(sels.subrange(0, sels.len() as int) =~= sels);
    if value.dtype.is_packed() {
        return Err(CacheError::PackedUnsupported);
    }
    let strides = value.strides();
    proof {
        assert(strides@ =~= row_strides(value.shape@));
    }
    let sliced = slice_tensor_data(value.data.as_slice(), strides.as_slice(), selections)?;
    if !shape_fits_exec(&out_shape) {
        return Err(CacheError::MalformedTensor);
    }
    if numel_exec(&out_shape) != sliced.len() {
        return Err(CacheError::MalformedTensor);
    }
    let out = TensorValue { dtype: value.dtype, shape: out_shape, data: sliced };
    proof {
        let c = tensor_sel_counts(sels);
        assert forall|i: int| 0 <= i < out.data@.len() implies #[trigger] out.data@[i] <= elem_max(out.dtype) by {
            let key = tensor_key(sels, i);
            let off = offset_of(key, row_strides(value.shape@));
            assert(off < value.data@.len());
            lemma_dot_mono(key, row_strides(value.shape@), 0, if key.len() < row_strides(value.shape@).len() { key.len() } else { row_strides(value.shape@).len() });
            assert(0 <= off);
            assert(!packed(value.dtype));
            assert(value.data@.len() == numel(value.shape@));
            assert(value.data@[off] <= elem_max(value.dtype));
        }
    }
    Ok(out)
}

/// Position of each dimension of row-major element `j` of `shape`.
pub open spec fn unravel(shape: Seq<usize>, j: int) -> Seq<usize> {
    Seq::new(shape.len(), |d: int| ((j / (stride_of(shape, d) as int)) % (shape[d] as int)) as usize)
}

/// A tensor grown (never shrunk) into `shape`: each element keeps its
/// position, and the new positions hold zero.
pub open spec fn expand_spec(t: TensorView, shape: Seq<usize>) -> Result<TensorView, CacheError> {
    if t.shape == shape {
        Ok(t)
    } else if t.shape.len() != shape.len() {
        Err(CacheError::ResizeRankMismatch)
    } else if exists|d: int| 0 <= d < shape.len() && #[trigger] shape[d] < t.shape[d] {
        Err(CacheError::ResizeShrink)
    } else if packed(t.dtype) {
        Err(CacheError::PackedUnsupported)
    } else if !shape_fits(shape) {
        Err(CacheError::MalformedTensor)
    } else {
        Ok(
            TensorView {
                dtype: t.dtype,
                shape,
                data: Seq::new(
                    numel(shape),
                    |j: int|
                        {
                            let idx = unravel(shape, j);
                            if forall|d: int| 0 <= d < shape.len() ==> #[trigger] idx[d] < t.shape[d] {
                                t.data[offset_of(idx, row_strides(t.shape))]
                            } else {
                                0u64
                            }
                        },
                ),
            },
        )
    }
}

/// Grow a tensor into a larger shape of the same rank.
#[verifier::loop_isolation(false)]
pub fn expand_tensor_value(value: &TensorValue, shape: &[usize]) -> (r: Result<TensorValue, CacheError>)
    requires
        value.wf(),
    ensures
        match expand_spec(value@, shape@) {
            Ok(v) => r matches Ok(rt) && rt@ == v && rt.wf(),
            Err(e) => r == Err::<TensorValue, CacheError>(e),
        },
{
    let old_shape = value.shape.as_slice();
    if crate::cache_table::same_key(old_shape, shape) {
        return Ok(value.clone_value());
    }
    if old_shape.len() != shape.len() {
        return Err(CacheError::ResizeRankMismatch);
    }
    let mut d: usize = 0;
    while d < shape.len()
        invariant
            d <= shape@.len() == value.shape@.len(),
            forall|e: int| 0 <= e < d ==> shape@[e] >= value.shape@[e],
        decreases shape@.len() - d,
    {
        if shape[d] < old_shape[d] {
            return Err(CacheError::ResizeShrink);
        }
        d = d + 1;
    }
    if value.dtype.is_packed() {
        return Err(CacheError::PackedUnsupported);
    }
    let new_shape = copy_usizes(shape);
    if !shape_fits_exec(&new_shape) {
        return Err(CacheError::MalformedTensor);
    }
    let total = numel_exec(&new_shape);
    let new_strides = row_major_strides(&new_shape);
    let old_strides = value.strides();
    let ghost os = value.shape@;
    let ghost ns = shape@;
    let ghost target = expand_spec(value@, shape@)->Ok_0.data;
    proof {
        assert(os.subrange(0, os.len() as int) =~= os);
        assert(numel(os.subrange(0, os.len() as int)) <= usize::MAX);
    }
    let mut out: Vec<u64> = Vec::new();
    let mut j: usize = 0;
    while j < total
        invariant
            j <= total == numel(ns),
            numel(os) <= usize::MAX,
            new_shape@ == ns,
            new_strides@ == row_strides(ns),
            old_strides@ == row_strides(os),
            out@ == target.subrange(0, j as int),
            forall|i: int| 0 <= i < out@.len() ==> #[trigger] out@[i] <= elem_max(value.dtype),
        decreases total - j,
    {
        proof {
            lemma_counts_pos_t(ns);
        }
        let ghost idx = unravel(ns, j as int);
        proof {
            assert(os.subrange(0, os.len() as int) =~= os);
            assert(numel(os.subrange(0, os.len() as int)) <= usize::MAX);
        }
        let mut inside = true;
        let mut off: usize = 0;
        let mut e: usize = 0;
        while e < new_shape.len()
            invariant
                e <= ns.len() == os.len(),
                j < total,
                inside <==> forall|q: int| 0 <= q < e ==> #[trigger] idx[q] < os[q],
                inside ==> off == dot_offset(idx, row_strides(os), e as nat),
                inside ==> dot_offset(idx, row_strides(os), e as nat) <= numel(os) - numel(
                    os.subrange(e as int, os.len() as int),
                ),
            decreases ns.len() - e,
        {
            assert(stride_of(ns, e as int) > 0);
            let digit = (j / new_strides[e]) % new_shape[e];
            assert(digit == idx[e as int]);
            if digit >= old_shape[e] {
                inside = false;
            } else if inside {
                proof {
                    crate::tensor::lemma_numel_split(os, e as int);
                    let big = numel(os.subrange(e as int, os.len() as int));
                    let small = numel(os.subrange(e + 1, os.len() as int));
                    assert(row_strides(os)[e as int] == small);
                    assert(digit as int * small <= big - small) by (nonlinear_arith)
                        requires
                            big == os[e as int] as nat * small,
                            digit < os[e as int],
                            small >= 0,
                    ;
                    assert(numel(os) <= usize::MAX);
                }
                off = off + digit * old_strides[e];
            }
            e = e + 1;
        }
        proof {
            assert(os.subrange(os.len() as int, os.len() as int) =~= Seq::<usize>::empty());
        }
        if inside {
            out.push(value.data[off]);
        } else {
            out.push(0);
        }
        j = j + 1;
        assert(out@ =~= target.subrange(0, j as int));
    }
    assert(target.subrange(0, total as int) =~= target);
    Ok(TensorValue { dtype: value.dtype, shape: new_shape, data: out })
}

/// Moving a wrapped value by `delta` and then by `-delta` gives it back.
proof fn lemma_wrap_add_back(v: u64, delta: int, bits: nat)
    requires
        v < pow2(bits),
    ensures
        wrap_add(wrap_add(v, delta, bits), -delta, bits) == v,
{
    let m = pow2(bits);
    assert(0 < m <= 0x1_0000_0000_0000_0000);
    let x = (v as int + delta) % m;
    vstd::arithmetic::div_mod::lemma_fundamental_div_mod(v as int + delta, m);
    let q = (v as int + delta) / m;
    assert(0 <= x < m);
    assert(wrap_add(v, delta, bits) as int == x);
    assert(x - delta == m * (-q) + v as int) by (nonlinear_arith)
        requires
            v as int + delta == m * q + x,
    ;
    lemma_mod_multiples_vanish(-q, v as int, m);
    vstd::arithmetic::div_mod::lemma_small_mod(v as nat, m as nat);
}

/// Incrementing a scalar integer counter by `amount` and then decrementing
/// it by the same amount gives the counter back, wrap-around included.
pub proof fn law_increment_then_decrement(t: TensorView, amount: i64)
    requires
        amount != i64::MIN,
        t.data.len() == 1,
        t.data[0] < pow2(bits_of(t.dtype)),
        increment_spec(t, amount, false) is Ok,
    ensures
        increment_spec(increment_spec(t, amount, false)->Ok_0, amount, true) == Ok::<TensorView, CacheError>(t),
{
    let u = increment_spec(t, amount, false)->Ok_0;
    lemma_wrap_add_back(t.data[0], amount as int, bits_of(t.dtype));
    assert(u.data[0] == wrap_add(t.data[0], amount as int, bits_of(t.dtype)));
    assert(seq![wrap_add(u.data[0], -amount, bits_of(u.dtype))] =~= t.data);
}

} // verus!
