//! Cache index selections, auto-growing dimensions and slice bounds.
use vstd::prelude::*;
use crate::graph::{CacheIndexExpr, VarDecl};
use crate::text::str_eq;

verus! {

/// Everything that makes a cache access fail.
#[derive(Clone, Copy, Debug, PartialEq, Eq, Structural)]
pub enum CacheError {
    AutoDimRankMismatch,
    SliceStartNegative,
    SliceEndNegative,
    SliceEndUnderflow,
    SliceEndBeforeStart,
    IndicesRequired,
    TooManyIndices,
    ExceedsFixedSize,
    ResetNeedsScalarIndices,
    PackedUnsupported,
    EntryDtypeMismatch,
    EntryLengthMismatch,
    InitFailed,
    SelectionTooLarge,
    WriteNeedsScalarIndices,
    WriteShapeMismatch,
    NotScalar,
    NotInteger,
    IncrementNeedsScalar,
    IncrementUnsupported,
    FloatIncrement,
    ResizeRankMismatch,
    ResizeShrink,
    ExpandDtypeMismatch,
    IndexOutOfBounds,
    MalformedTensor,
    MissingAutoDimState,
    UnknownSize,
    ShapeTooLarge,
    UnknownVariable,
    NotPersistent,
    MissingTable,
    UnknownCacheIndex,
    NegativeCacheIndex,
    IndexedAccessUnsupported,
    IndexedWriteUnsupported,
    ScalarIndicesRequired,
    IndexCountMismatch,
}

/// Positions chosen along one dimension of a cache table.
#[derive(Clone, Debug)]
pub struct TableIndexSelection {
    pub indices: Vec<usize>,
    pub is_scalar: bool,
}

/// Positions chosen along one dimension of a tensor.
#[derive(Clone, Debug)]
pub struct TensorIndexSelection {
    pub indices: Vec<usize>,
    pub is_scalar: bool,
}

/// A cache index whose names have been replaced by numbers.
#[derive(Clone, Copy, Debug, PartialEq, Eq, Structural)]
pub enum ResolvedCacheIndexExpr {
    Single(usize),
    Slice { start: Option<i64>, end: Option<i64> },
}

/// Whether an index picks a single position.
pub fn cache_index_is_single(expr: &CacheIndexExpr) -> (r: bool)
    ensures
        r == (expr is Single),
{
    match expr {
        CacheIndexExpr::Single(_) => true,
        _ => false,
    }
}

/// State of a variable whose dimensions grow as it is indexed: the declared
/// shape, how far each growing dimension has grown, and its fixed limit.
#[derive(Clone, Debug)]
pub struct AutoDimState {
    pub base_shape: Vec<usize>,
    pub counts: Vec<usize>,
    pub max: Vec<Option<usize>>,
}

/// `a + b`, held at `usize::MAX`.
pub open spec fn sat_add(a: usize, b: usize) -> usize {
    if a + b > usize::MAX {
        usize::MAX
    } else {
        (a + b) as usize
    }
}

/// The grown shape: each base dimension plus its count.
pub fn auto_dim_shape(base: &[usize], counts: &[usize]) -> (r: Result<Vec<usize>, CacheError>)
    ensures
        base@.len() != counts@.len() <==> r == Err::<Vec<usize>, CacheError>(
            CacheError::AutoDimRankMismatch,
        ),
        base@.len() == counts@.len() ==> r is Ok,
        r matches Ok(v) ==> v@ == Seq::new(base@.len(), |i: int| sat_add(base@[i], counts@[i])),
{
    if base.len() != counts.len() {
        return Err(CacheError::AutoDimRankMismatch);
    }
    let mut out: Vec<usize> = Vec::new();
    let mut i: usize = 0;
    while i < base.len()
        invariant
            i <= base@.len() == counts@.len(),
            out@ == Seq::new(i as nat, |j: int| sat_add(base@[j], counts@[j])),
        decreases base@.len() - i,
    {
        out.push(base[i].saturating_add(counts[i]));
        i = i + 1;
        assert(out@ =~= Seq::new(i as nat, |j: int| sat_add(base@[j], counts@[j])));
    }
    Ok(out)
}

/// The size that the first entry of `fixed` named `index` gives.
pub open spec fn fixed_size_spec(fixed: Seq<(String, usize)>, index: Seq<char>) -> Option<usize>
    decreases fixed.len(),
{
    if fixed.len() == 0 {
        None
    } else if fixed[0].0@ == index {
        Some(fixed[0].1)
    } else {
        fixed_size_spec(fixed.drop_first(), index)
    }
}

/// The fixed size the declaration gives to the index named `index`, if any.
pub fn fixed_size_for(decl: &VarDecl, index: &str) -> (r: Option<usize>)
    ensures
        r == fixed_size_spec(decl.fixed@, index@),
{
    let n = decl.fixed.len();
    let mut i: usize = 0;
    assert(decl.fixed@.subrange(0, n as int) =~= decl.fixed@);
    while i < n
        invariant
            i <= n == decl.fixed@.len(),
            fixed_size_spec(decl.fixed@, index@) == fixed_size_spec(
                decl.fixed@.subrange(i as int, n as int),
                index@,
            ),
        decreases n - i,
    {
        let ghost rest = decl.fixed@.subrange(i as int, n as int);
        assert(rest.drop_first() =~= decl.fixed@.subrange(i + 1, n as int));
        if str_eq(decl.fixed[i].0.as_str(), index) {
            return Some(decl.fixed[i].1);
        }
        i = i + 1;
    }
    None
}

/// Fixed sizes of the named table indices, and the starting sizes (the fixed
/// size, or zero).
pub fn init_cache_table_sizes(decl: &VarDecl, table_indices: &[String]) -> (r: Result<
    (Vec<Option<usize>>, Vec<usize>),
    CacheError,
>)
    ensures
        r matches Ok((fixed, sizes)) && fixed@.len() == table_indices@.len() && sizes@.len()
            == table_indices@.len() && forall|i: int|
            0 <= i < table_indices@.len() ==> fixed@[i] == fixed_size_spec(
                decl.fixed@,
                #[trigger] table_indices@[i]@,
            ) && sizes@[i] == match fixed@[i] {
                Some(v) => v,
                None => 0usize,
            },
{
    let mut fixed_sizes: Vec<Option<usize>> = Vec::new();
    let mut sizes: Vec<usize> = Vec::new();
    let mut i: usize = 0;
    while i < table_indices.len()
        invariant
            i <= table_indices@.len(),
            fixed_sizes@.len() == i,
            sizes@.len() == i,
            forall|j: int|
                0 <= j < i ==> fixed_sizes@[j] == fixed_size_spec(
                    decl.fixed@,
                    #[trigger] table_indices@[j]@,
                ) && sizes@[j] == match fixed_sizes@[j] {
                    Some(v) => v,
                    None => 0usize,
                },
        decreases table_indices@.len() - i,
    {
        let fixed = fixed_size_for(decl, table_indices[i].as_str());
        fixed_sizes.push(fixed);
        sizes.push(
            match fixed {
                Some(v) => v,
                None => 0,
            },
        );
        i = i + 1;
    }
    Ok((fixed_sizes, sizes))
}

/// Bounds of a slice `start..end` of a dimension of `size`: a missing start
/// is 0, a missing end is `size`, a negative end counts back from `size`
/// when `allow_negative_end` holds.
pub open spec fn slice_bounds_spec(
    size: usize,
    start: Option<i64>,
    end: Option<i64>,
    allow_negative_end: bool,
) -> Result<(usize, usize), CacheError> {
    let s: i64 = match start {
        Some(v) => v,
        None => 0,
    };
    if s < 0 {
        Err(CacheError::SliceStartNegative)
    } else {
        let e: Result<i64, CacheError> = match end {
            Some(v) => if v < 0 {
                if !allow_negative_end {
                    Err(CacheError::SliceEndNegative)
                } else if -(v as int) > size {
                    Err(CacheError::SliceEndUnderflow)
                } else {
                    Ok((size + v) as i64)
                }
            } else {
                Ok(v)
            },
            None => Ok(size as i64),
        };
        match e {
            Err(err) => Err(err),
            Ok(e) => if e < 0 {
                Err(CacheError::SliceEndNegative)
            } else if (e as usize) < (s as usize) {
                Err(CacheError::SliceEndBeforeStart)
            } else {
                Ok((s as usize, e as usize))
            },
        }
    }
}

/// Resolve the bounds of a slice of a dimension of `size`.
pub fn resolve_slice_bounds(
    size: usize,
    start: Option<i64>,
    end: Option<i64>,
    allow_negative_end: bool,
) -> (r: Result<(usize, usize), CacheError>)
    ensures
        r == slice_bounds_spec(size, start, end, allow_negative_end),
{
    let s: i64 = match start {
        Some(v) => v,
        None => 0,
    };
    if s < 0 {
        return Err(CacheError::SliceStartNegative);
    }
    let e: i64 = match end {
        Some(v) => {
            if v < 0 {
                if !allow_negative_end {
                    return Err(CacheError::SliceEndNegative);
                }
                let abs: u64 = if v == i64::MIN {
                    0x8000_0000_0000_0000u64
                } else {
                    (-v) as u64
                };
                if abs as u128 > size as u128 {
                    return Err(CacheError::SliceEndUnderflow);
                }
                #[verifier::truncate]
                ((size - abs as usize) as i64)
            } else {
                v
            }
        },
        None => #[verifier::truncate] (size as i64),
    };
    if e < 0 {
        return Err(CacheError::SliceEndNegative);
    }
    let su = s as usize;
    let eu = e as usize;
    if eu < su {
        return Err(CacheError::SliceEndBeforeStart);
    }
    Ok((su, eu))
}

/// The positions `start..end`.
pub fn range_vec(start: usize, end: usize) -> (r: Vec<usize>)
    requires
        start <= end,
    ensures
        r@ == Seq::new((end - start) as nat, |i: int| (start + i) as usize),
{
    let mut out: Vec<usize> = Vec::new();
    let mut k: usize = start;
    while k < end
        invariant
            start <= k <= end,
            out@ == Seq::new((k - start) as nat, |i: int| (start + i) as usize),
        decreases end - k,
    {
        out.push(k);
        k = k + 1;
        assert(out@ =~= Seq::new((k - start) as nat, |i: int| (start + i) as usize));
    }
    out
}

} // verus!
