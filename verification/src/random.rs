//! Random integer tensors from a seeded generator: the shape checks, the
//! sampling loop and the element encoding are here; the generator is
//! `rand`'s `StdRng`.
use vstd::prelude::*;
use rand::rngs::StdRng;
use rand::Rng;
use rand::SeedableRng;
use crate::dtype::{bits_of, DType};
use crate::tensor::{elem_max, numel, pow2, shape_fits, shape_fits_exec, copy_usizes, signed_of, TensorValue};

verus! {

#[verifier::external_type_specification]
#[verifier::external_body]
pub struct ExStdRng(StdRng);

/// `StdRng::seed_from_u64`: a generator whose stream is fixed by the seed.
/// Trusted: nothing is stated of the generator's state.
#[verifier::external_body]
fn seeded_rng(seed: u64) -> (r: StdRng) {
    StdRng::seed_from_u64(seed)
}

/// `Rng::gen_range` over `lo..=hi` for `i8`: a value in the range (the
/// call panics on an empty range, which `requires` leaves out).
#[verifier::external_body]
fn sample_i8(rng: &mut StdRng, lo: i8, hi: i8) -> (r: i8)
    requires
        lo <= hi,
    ensures
        lo <= r <= hi,
{
    rng.gen_range(lo..=hi)
}

/// `Rng::gen_range` over `lo..=hi` for `i16`, likewise.
#[verifier::external_body]
fn sample_i16(rng: &mut StdRng, lo: i16, hi: i16) -> (r: i16)
    requires
        lo <= hi,
    ensures
        lo <= r <= hi,
{
    rng.gen_range(lo..=hi)
}

/// `Rng::gen_range` over `lo..=hi` for `i32`, likewise.
#[verifier::external_body]
fn sample_i32(rng: &mut StdRng, lo: i32, hi: i32) -> (r: i32)
    requires
        lo <= hi,
    ensures
        lo <= r <= hi,
{
    rng.gen_range(lo..=hi)
}

/// `Rng::gen_range` over `lo..=hi` for `i64`, likewise.
#[verifier::external_body]
fn sample_i64(rng: &mut StdRng, lo: i64, hi: i64) -> (r: i64)
    requires
        lo <= hi,
    ensures
        lo <= r <= hi,
{
    rng.gen_range(lo..=hi)
}

/// `Rng::gen_range` over `lo..=hi` for `u8`, likewise.
#[verifier::external_body]
fn sample_u8(rng: &mut StdRng, lo: u8, hi: u8) -> (r: u8)
    requires
        lo <= hi,
    ensures
        lo <= r <= hi,
{
    rng.gen_range(lo..=hi)
}

/// `Rng::gen_range` over `lo..=hi` for `u16`, likewise.
#[verifier::external_body]
fn sample_u16(rng: &mut StdRng, lo: u16, hi: u16) -> (r: u16)
    requires
        lo <= hi,
    ensures
        lo <= r <= hi,
{
    rng.gen_range(lo..=hi)
}

/// `Rng::gen_range` over `lo..=hi` for `u32`, likewise.
#[verifier::external_body]
fn sample_u32(rng: &mut StdRng, lo: u32, hi: u32) -> (r: u32)
    requires
        lo <= hi,
    ensures
        lo <= r <= hi,
{
    rng.gen_range(lo..=hi)
}

/// `Rng::gen_range` over `lo..=hi` for `u64`, likewise.
#[verifier::external_body]
fn sample_u64(rng: &mut StdRng, lo: u64, hi: u64) -> (r: u64)
    requires
        lo <= hi,
    ensures
        lo <= r <= hi,
{
    rng.gen_range(lo..=hi)
}

/// Why a random tensor cannot be made.
#[derive(Clone, Copy, Debug, PartialEq, Eq, Structural)]
pub enum RandomError {
    StridesNeedShape,
    ShapeLenMismatch,
}

/// Layout asked of a random tensor: an explicit shape, and whether explicit
/// strides were given.
#[derive(Clone, Debug)]
pub struct RandomOpts {
    pub shape: Option<Vec<usize>>,
    pub has_strides: bool,
}

/// The shape of a random tensor of `len` values: the explicit one, which
/// must hold exactly `len` values, else one dimension of `len`; strides
/// need an explicit shape.
pub open spec fn random_shape_spec(opts: RandomOpts, len: usize) -> Result<Seq<usize>, RandomError> {
    match opts.shape {
        None => if opts.has_strides {
            Err(RandomError::StridesNeedShape)
        } else {
            Ok(seq![len])
        },
        Some(s) => if !shape_fits(s@) || numel(s@) != len {
            Err(RandomError::ShapeLenMismatch)
        } else {
            Ok(s@)
        },
    }
}

/// The signed integer element types.
pub open spec fn is_signed_int(d: DType) -> bool {
    d == DType::I8 || d == DType::I16 || d == DType::I32 || d == DType::I64
}

/// The unsigned integer element types.
pub open spec fn is_unsigned_int(d: DType) -> bool {
    d == DType::U8 || d == DType::U16 || d == DType::U32 || d == DType::U64
}

/// The smallest and largest values of a signed integer type.
pub open spec fn least_signed(d: DType) -> int {
    -(pow2(bits_of(d)) / 2)
}

pub open spec fn greatest_signed(d: DType) -> int {
    pow2(bits_of(d)) / 2 - 1
}

pub fn shape_for(opts: &RandomOpts, len: usize) -> (r: Result<Vec<usize>, RandomError>)
    ensures
        match random_shape_spec(*opts, len) {
            Ok(s) => r matches Ok(v) && v@ == s,
            Err(e) => r == Err::<Vec<usize>, RandomError>(e),
        },
{
    match &opts.shape {
        None => {
            if opts.has_strides {
                return Err(RandomError::StridesNeedShape);
            }
            let mut v: Vec<usize> = Vec::new();
            v.push(len);
            assert(v@ =~= seq![len]);
            Ok(v)
        },
        Some(s) => {
            if !shape_fits_exec(s) || crate::tensor::numel_exec(s) != len {
                return Err(RandomError::ShapeLenMismatch);
            }
            Ok(copy_usizes(s.as_slice()))
        },
    }
}

/// The bit pattern of a signed value of `bits` bits.
fn signed_pattern(v: i64, d: DType) -> (r: u64)
    requires
        is_signed_int(d),
        least_signed(d) <= v <= greatest_signed(d),
    ensures
        signed_of(r, bits_of(d)) == v,
        r <= elem_max(d),
{
    if v >= 0 {
        v as u64
    } else if d == DType::I64 {
        let r = v as u64;
        assert(v < 0 ==> r as int == v + 0x1_0000_0000_0000_0000) by (bit_vector)
            requires
                r == v as u64,
        ;
        r
    } else {
        let m: i64 = if d == DType::I8 {
            0x100
        } else if d == DType::I16 {
            0x1_0000
        } else {
            0x1_0000_0000
        };
        (v + m) as u64
    }
}

/// A generator whose stream is fixed by a seed.
pub struct Random {
    rng: StdRng,
    seed: Ghost<u64>,
    drawn: Ghost<nat>,
}

impl Random {
    /// The seed the generator was made with.
    pub closed spec fn seed(&self) -> u64 {
        self.seed@
    }

    /// How many values the generator has drawn from its stream.
    pub closed spec fn drawn(&self) -> nat {
        self.drawn@
    }

    /// A generator seeded with `seed`, at the start of its stream.
    pub fn with_seed(seed: u64) -> (r: Random)
        ensures
            r.seed() == seed,
            r.drawn() == 0,
    {
        Random { rng: seeded_rng(seed), seed: Ghost(seed), drawn: Ghost(0) }
    }

    /// The next `len` values drawn uniformly from `lo..=hi` as a tensor of a
    /// signed integer type, in the shape `random_shape_spec` gives.
    pub fn next_signed(&mut self, dtype: DType, lo: i64, hi: i64, len: usize, opts: &RandomOpts) -> (r: Result<
        TensorValue,
        RandomError,
    >)
        requires
            is_signed_int(dtype),
            least_signed(dtype) <= lo <= hi <= greatest_signed(dtype),
        ensures
            final(self).seed() == old(self).seed(),
            final(self).drawn() == if r is Ok { old(self).drawn() + len as nat } else { old(self).drawn() },
            match random_shape_spec(*opts, len) {
                Err(e) => r == Err::<TensorValue, RandomError>(e),
                Ok(shape) => r matches Ok(t) && t.wf() && t.dtype == dtype && t.shape@ == shape && t.data@.len() == len
                    && forall|i: int| 0 <= i < len ==> lo <= #[trigger] signed_of(t.data@[i], bits_of(dtype)) <= hi,
            },
    {
        let r = generate_signed(&mut self.rng, dtype, lo, hi, len, opts);
        proof {
            if r is Ok {
                self.drawn@ = self.drawn@ + len as nat;
            }
        }
        r
    }

    /// The next `len` values drawn uniformly from `lo..=hi` as a tensor of an
    /// unsigned integer type, in the shape `random_shape_spec` gives.
    pub fn next_unsigned(&mut self, dtype: DType, lo: u64, hi: u64, len: usize, opts: &RandomOpts) -> (r: Result<
        TensorValue,
        RandomError,
    >)
        requires
            is_unsigned_int(dtype),
            lo <= hi <= elem_max(dtype),
        ensures
            final(self).seed() == old(self).seed(),
            final(self).drawn() == if r is Ok { old(self).drawn() + len as nat } else { old(self).drawn() },
            match random_shape_spec(*opts, len) {
                Err(e) => r == Err::<TensorValue, RandomError>(e),
                Ok(shape) => r matches Ok(t) && t.wf() && t.dtype == dtype && t.shape@ == shape && t.data@.len() == len
                    && forall|i: int| 0 <= i < len ==> lo <= #[trigger] t.data@[i] <= hi,
            },
    {
        let r = generate_unsigned(&mut self.rng, dtype, lo, hi, len, opts);
        proof {
            if r is Ok {
                self.drawn@ = self.drawn@ + len as nat;
            }
        }
        r
    }
}

/// A tensor of `len` signed values drawn from `lo..=hi` with a fresh
/// generator seeded with `seed`.
pub fn generate_signed_with_seed(seed: u64, dtype: DType, lo: i64, hi: i64, len: usize, opts: &RandomOpts) -> (r: Result<
    TensorValue,
    RandomError,
>)
    requires
        is_signed_int(dtype),
        least_signed(dtype) <= lo <= hi <= greatest_signed(dtype),
    ensures
        match random_shape_spec(*opts, len) {
            Err(e) => r == Err::<TensorValue, RandomError>(e),
            Ok(shape) => r matches Ok(t) && t.wf() && t.dtype == dtype && t.shape@ == shape && t.data@.len() == len
                && forall|i: int| 0 <= i < len ==> lo <= #[trigger] signed_of(t.data@[i], bits_of(dtype)) <= hi,
        },
{
    let mut rng = seeded_rng(seed);
    generate_signed(&mut rng, dtype, lo, hi, len, opts)
}

/// A tensor of `len` unsigned values drawn from `lo..=hi` with a fresh
/// generator seeded with `seed`.
pub fn generate_unsigned_with_seed(seed: u64, dtype: DType, lo: u64, hi: u64, len: usize, opts: &RandomOpts) -> (r:
    Result<TensorValue, RandomError>)
    requires
        is_unsigned_int(dtype),
        lo <= hi <= elem_max(dtype),
    ensures
        match random_shape_spec(*opts, len) {
            Err(e) => r == Err::<TensorValue, RandomError>(e),
            Ok(shape) => r matches Ok(t) && t.wf() && t.dtype == dtype && t.shape@ == shape && t.data@.len() == len
                && forall|i: int| 0 <= i < len ==> lo <= #[trigger] t.data@[i] <= hi,
        },
{
    let mut rng = seeded_rng(seed);
    generate_unsigned(&mut rng, dtype, lo, hi, len, opts)
}

/// Draw `len` signed values from `lo..=hi` with `rng` into a tensor.
pub fn generate_signed(rng: &mut StdRng, dtype: DType, lo: i64, hi: i64, len: usize, opts: &RandomOpts) -> (r: Result<
    TensorValue,
    RandomError,
>)
    requires
        is_signed_int(dtype),
        least_signed(dtype) <= lo <= hi <= greatest_signed(dtype),
    ensures
        match random_shape_spec(*opts, len) {
            Err(e) => r == Err::<TensorValue, RandomError>(e),
            Ok(shape) => r matches Ok(t) && t.wf() && t.dtype == dtype && t.shape@ == shape && t.data@.len() == len
                && forall|i: int| 0 <= i < len ==> lo <= #[trigger] signed_of(t.data@[i], bits_of(dtype)) <= hi,
        },
{
    let shape = match shape_for(opts, len) {
        Ok(s) => s,
        Err(e) => return Err(e),
    };
    let mut data: Vec<u64> = Vec::new();
    let mut i: usize = 0;
    while i < len
        invariant
            i <= len,
            data@.len() == i,
            random_shape_spec(*opts, len) == Ok::<Seq<usize>, RandomError>(shape@),
            is_signed_int(dtype),
            least_signed(dtype) <= lo <= hi <= greatest_signed(dtype),
            forall|j: int| 0 <= j < i ==> lo <= #[trigger] signed_of(data@[j], bits_of(dtype)) <= hi,
            forall|j: int| 0 <= j < i ==> #[trigger] data@[j] <= elem_max(dtype),
        decreases len - i,
    {
        let v: i64 = match dtype {
            DType::I8 => sample_i8(rng, lo as i8, hi as i8) as i64,
            DType::I16 => sample_i16(rng, lo as i16, hi as i16) as i64,
            DType::I32 => sample_i32(rng, lo as i32, hi as i32) as i64,
            _ => sample_i64(rng, lo, hi),
        };
        data.push(signed_pattern(v, dtype));
        i = i + 1;
    }
    proof {
        assert(numel(shape@) == len && shape_fits(shape@)) by {
            if opts.shape is None {
                assert(seq![len].drop_first() =~= Seq::<usize>::empty());
                assert(numel(seq![len]) == len as nat * 1) by {
                    assert(numel(Seq::<usize>::empty()) == 1);
                }
                assert forall|k: int| 0 <= k <= 1 implies #[trigger] numel(seq![len].subrange(k, 1)) <= usize::MAX by {
                    if k == 0 {
                        assert(seq![len].subrange(0, 1) =~= seq![len]);
                    } else {
                        assert(seq![len].subrange(1, 1) =~= Seq::<usize>::empty());
                    }
                }
            }
        }
    }
    Ok(TensorValue { dtype, shape, data })
}

/// Draw `len` unsigned values from `lo..=hi` with `rng` into a tensor.
pub fn generate_unsigned(rng: &mut StdRng, dtype: DType, lo: u64, hi: u64, len: usize, opts: &RandomOpts) -> (r: Result<
    TensorValue,
    RandomError,
>)
    requires
        is_unsigned_int(dtype),
        lo <= hi <= elem_max(dtype),
    ensures
        match random_shape_spec(*opts, len) {
            Err(e) => r == Err::<TensorValue, RandomError>(e),
            Ok(shape) => r matches Ok(t) && t.wf() && t.dtype == dtype && t.shape@ == shape && t.data@.len() == len
                && forall|i: int| 0 <= i < len ==> lo <= #[trigger] t.data@[i] <= hi,
        },
{
    let shape = match shape_for(opts, len) {
        Ok(s) => s,
        Err(e) => return Err(e),
    };
    let mut data: Vec<u64> = Vec::new();
    let mut i: usize = 0;
    while i < len
        invariant
            i <= len,
            data@.len() == i,
            random_shape_spec(*opts, len) == Ok::<Seq<usize>, RandomError>(shape@),
            is_unsigned_int(dtype),
            lo <= hi <= elem_max(dtype),
            forall|j: int| 0 <= j < i ==> lo <= #[trigger] data@[j] <= hi,
        decreases len - i,
    {
        let v: u64 = match dtype {
            DType::U8 => sample_u8(rng, lo as u8, hi as u8) as u64,
            DType::U16 => sample_u16(rng, lo as u16, hi as u16) as u64,
            DType::U32 => sample_u32(rng, lo as u32, hi as u32) as u64,
            _ => sample_u64(rng, lo, hi),
        };
        data.push(v);
        i = i + 1;
    }
    proof {
        assert(numel(shape@) == len && shape_fits(shape@)) by {
            if opts.shape is None {
                assert(seq![len].drop_first() =~= Seq::<usize>::empty());
                assert(numel(seq![len]) == len as nat * 1) by {
                    assert(numel(Seq::<usize>::empty()) == 1);
                }
                assert forall|k: int| 0 <= k <= 1 implies #[trigger] numel(seq![len].subrange(k, 1)) <= usize::MAX by {
                    if k == 0 {
                        assert(seq![len].subrange(0, 1) =~= seq![len]);
                    } else {
                        assert(seq![len].subrange(1, 1) =~= Seq::<usize>::empty());
                    }
                }
            }
        }
    }
    Ok(TensorValue { dtype, shape, data })
}

} // verus!
