//! Dense tensors: an element type, a shape, and the element bit patterns in
//! row-major order.
use vstd::prelude::*;
use crate::dtype::{bits_of, packed, storage_units, DType};

verus! {

/// Product of the dimensions of `shape`.
pub open spec fn numel(shape: Seq<usize>) -> nat
    decreases shape.len(),
{
    if shape.len() == 0 {
        1
    } else {
        shape[0] as nat * numel(shape.drop_first())
    }
}

/// Product of the dimensions after position `i`: the row-major stride of axis `i`.
pub open spec fn stride_of(shape: Seq<usize>, i: int) -> nat {
    numel(shape.subrange(i + 1, shape.len() as int))
}

/// Every suffix product of `shape` fits in a `usize`, so the element count
/// and every row-major stride can be computed without overflow.
pub open spec fn shape_fits(shape: Seq<usize>) -> bool {
    forall|i: int| 0 <= i <= shape.len() ==> #[trigger] numel(shape.subrange(i, shape.len() as int)) <= usize::MAX
}

/// Largest bit pattern an element of `d` may hold (packed types hold storage bytes).
pub open spec fn elem_max(d: DType) -> nat {
    if packed(d) {
        0xFF
    } else if d == DType::Bool {
        1
    } else if bits_of(d) == 8 {
        0xFF
    } else if bits_of(d) == 16 {
        0xFFFF
    } else if bits_of(d) == 32 {
        0xFFFF_FFFF
    } else {
        0xFFFF_FFFF_FFFF_FFFF
    }
}

/// Signed value of the low `bits` bits of `v` in two's complement.
pub open spec fn signed_of(v: u64, bits: nat) -> int {
    let m = pow2(bits);
    if (v as int) < m / 2 {
        v as int
    } else {
        v as int - m
    }
}

pub open spec fn pow2(bits: nat) -> int {
    if bits == 8 {
        0x100
    } else if bits == 16 {
        0x1_0000
    } else if bits == 32 {
        0x1_0000_0000
    } else {
        0x1_0000_0000_0000_0000
    }
}

/// A tensor: element type, shape, and element bit patterns in row-major order
/// (for packed types, the storage bytes).
#[derive(Clone, Debug)]
pub struct TensorValue {
    pub dtype: DType,
    pub shape: Vec<usize>,
    pub data: Vec<u64>,
}

/// A tensor as a mathematical value.
pub struct TensorView {
    pub dtype: DType,
    pub shape: Seq<usize>,
    pub data: Seq<u64>,
}

impl View for TensorValue {
    type V = TensorView;

    open spec fn view(&self) -> TensorView {
        TensorView { dtype: self.dtype, shape: self.shape@, data: self.data@ }
    }
}

/// Well-formed tensor view: see `TensorValue::wf`.
pub open spec fn view_wf(t: TensorView) -> bool {
    &&& shape_fits(t.shape)
    &&& t.data.len() == storage_units(t.dtype, numel(t.shape))
    &&& forall|i: int| 0 <= i < t.data.len() ==> #[trigger] t.data[i] <= elem_max(t.dtype)
}

/// A copy of `v`.
pub fn copy_u64s(v: &[u64]) -> (r: Vec<u64>)
    ensures
        r@ == v@,
{
    let mut out: Vec<u64> = Vec::with_capacity(v.len());
    let mut i: usize = 0;
    while i < v.len()
        invariant
            i <= v@.len(),
            out@ == v@.subrange(0, i as int),
        decreases v@.len() - i,
    {
        out.push(v[i]);
        i = i + 1;
    }
    assert(out@ =~= v@);
    out
}

/// A copy of `v`.
pub fn copy_usizes(v: &[usize]) -> (r: Vec<usize>)
    ensures
        r@ == v@,
{
    let mut out: Vec<usize> = Vec::with_capacity(v.len());
    let mut i: usize = 0;
    while i < v.len()
        invariant
            i <= v@.len(),
            out@ == v@.subrange(0, i as int),
        decreases v@.len() - i,
    {
        out.push(v[i]);
        i = i + 1;
    }
    assert(out@ =~= v@);
    out
}

impl TensorValue {
    /// A copy of this tensor.
    pub fn clone_value(&self) -> (r: TensorValue)
        ensures
            r@ == self@,
            r.wf() == self.wf(),
    {
        TensorValue {
            dtype: self.dtype,
            shape: copy_usizes(self.shape.as_slice()),
            data: copy_u64s(self.data.as_slice()),
        }
    }

    /// Well-formed: the shape's products fit, the data holds exactly the
    /// storage of `numel(shape)` elements, and every element fits its type.
    pub open spec fn wf(&self) -> bool {
        &&& shape_fits(self.shape@)
        &&& self.data@.len() == storage_units(self.dtype, numel(self.shape@))
        &&& forall|i: int| 0 <= i < self.data@.len() ==> #[trigger] self.data@[i] <= elem_max(self.dtype)
    }

    /// Number of logical elements.
    pub fn len(&self) -> (r: usize)
        requires
            self.wf(),
        ensures
            r == numel(self.shape@),
    {
        numel_exec(&self.shape)
    }

    /// Element type.
    pub fn dtype(&self) -> (r: DType)
        ensures
            r == self.dtype,
    {
        self.dtype
    }

    /// Shape.
    pub fn shape(&self) -> (r: &[usize])
        ensures
            r@ == self.shape@,
    {
        self.shape.as_slice()
    }

    /// Row-major strides of the shape.
    pub fn strides(&self) -> (r: Vec<usize>)
        requires
            self.wf(),
        ensures
            r@.len() == self.shape@.len(),
            forall|i: int| 0 <= i < r@.len() ==> r@[i] == stride_of(self.shape@, i),
    {
        row_major_strides(&self.shape)
    }

    /// A tensor of the given type and shape with every element zero.
    pub fn zeros(dtype: DType, shape: &[usize]) -> (r: TensorValue)
        requires
            shape_fits(shape@),
        ensures
            r.wf(),
            r.dtype == dtype,
            r.shape@ == shape@,
            forall|i: int| 0 <= i < r.data@.len() ==> r.data@[i] == 0,
    {
        let n = numel_exec_slice(shape);
        let len = dtype.storage_len(n);
        let data = vec_of(len, 0);
        let mut s: Vec<usize> = Vec::new();
        let mut i: usize = 0;
        while i < shape.len()
            invariant
                i <= shape@.len(),
                s@ == shape@.subrange(0, i as int),
            decreases shape@.len() - i,
        {
            s.push(shape[i]);
            i = i + 1;
        }
        assert(s@ =~= shape@);
        TensorValue { dtype, shape: s, data }
    }

    /// A tensor from its parts, or `None` when the parts are not well formed.
    pub fn new(dtype: DType, shape: Vec<usize>, data: Vec<u64>) -> (r: Option<TensorValue>)
        ensures
            match r {
                Some(t) => t.wf() && t.dtype == dtype && t.shape@ == shape@ && t.data@ == data@,
                None => !(TensorValue { dtype, shape, data }).wf(),
            },
    {
        if !shape_fits_exec(&shape) {
            return None;
        }
        let n = numel_exec(&shape);
        if data.len() != dtype.storage_len(n) {
            return None;
        }
        let max = elem_max_exec(dtype);
        let mut i: usize = 0;
        while i < data.len()
            invariant
                i <= data@.len(),
                max == elem_max(dtype),
                forall|j: int| 0 <= j < i ==> data@[j] <= max,
            decreases data@.len() - i,
        {
            if data[i] > max {
                return None;
            }
            i = i + 1;
        }
        Some(TensorValue { dtype, shape, data })
    }
}

/// `len` copies of `v`.
pub fn vec_of(len: usize, v: u64) -> (r: Vec<u64>)
    ensures
        r@.len() == len,
        forall|i: int| 0 <= i < len ==> r@[i] == v,
{
    let mut out: Vec<u64> = Vec::with_capacity(len);
    let mut i: usize = 0;
    while i < len
        invariant
            i <= len,
            out@.len() == i,
            forall|j: int| 0 <= j < i ==> out@[j] == v,
        decreases len - i,
    {
        out.push(v);
        i = i + 1;
    }
    out
}

/// Largest bit pattern an element of `d` may hold.
pub fn elem_max_exec(d: DType) -> (r: u64)
    ensures
        r == elem_max(d),
{
    if d.is_packed() {
        0xFF
    } else if d == DType::Bool {
        1
    } else {
        let b = d.bit_width();
        if b == 8 {
            0xFF
        } else if b == 16 {
            0xFFFF
        } else if b == 32 {
            0xFFFF_FFFF
        } else {
            0xFFFF_FFFF_FFFF_FFFF
        }
    }
}

pub proof fn lemma_numel_split(s: Seq<usize>, i: int)
    requires
        0 <= i < s.len(),
    ensures
        numel(s.subrange(i, s.len() as int)) == s[i] as nat * numel(s.subrange(i + 1, s.len() as int)),
{
    let a = s.subrange(i, s.len() as int);
    assert(a.drop_first() =~= s.subrange(i + 1, s.len() as int));
}

/// Whether every suffix product of `shape` fits in a `usize`.
pub fn shape_fits_exec(shape: &Vec<usize>) -> (r: bool)
    ensures
        r == shape_fits(shape@),
{
    let n = shape.len();
    let mut acc: usize = 1;
    let mut i: usize = n;
    assert(shape@.subrange(n as int, n as int).len() == 0);
    while i > 0
        invariant
            i <= n == shape@.len(),
            acc == numel(shape@.subrange(i as int, n as int)),
            forall|k: int| i <= k <= n ==> #[trigger] numel(shape@.subrange(k, n as int)) <= usize::MAX,
        decreases i,
    {
        proof {
            lemma_numel_split(shape@, i - 1);
        }
        let d = shape[i - 1];
        match acc.checked_mul(d) {
            Some(p) => {
                proof {
                    let whole = numel(shape@.subrange(i - 1, n as int));
                    assert(p == whole) by (nonlinear_arith)
                        requires
                            whole == d as nat * acc as nat,
                            p == acc as nat * d as nat,
                    ;
                }
                acc = p;
            },
            None => {
                assert(numel(shape@.subrange(i - 1, n as int)) > usize::MAX) by (nonlinear_arith)
                    requires
                        numel(shape@.subrange(i - 1, n as int)) == d as nat * acc as nat,
                        acc as nat * d as nat > usize::MAX,
                ;
                return false;
            },
        }
        i = i - 1;
    }
    true
}

/// Number of elements of a shape whose suffix products fit.
pub fn numel_exec(shape: &Vec<usize>) -> (r: usize)
    requires
        shape_fits(shape@),
    ensures
        r == numel(shape@),
{
    numel_exec_slice(shape.as_slice())
}

/// Number of elements of a shape whose suffix products fit.
pub fn numel_exec_slice(shape: &[usize]) -> (r: usize)
    requires
        shape_fits(shape@),
    ensures
        r == numel(shape@),
{
    let n = shape.len();
    let mut acc: usize = 1;
    let mut i: usize = n;
    assert(shape@.subrange(n as int, n as int).len() == 0);
    while i > 0
        invariant
            i <= n == shape@.len(),
            shape_fits(shape@),
            acc == numel(shape@.subrange(i as int, n as int)),
        decreases i,
    {
        proof {
            lemma_numel_split(shape@, i - 1);
            let d = shape@[i - 1];
            let whole = numel(shape@.subrange(i - 1, n as int));
            assert(whole <= usize::MAX);
            assert(acc * d == whole) by (nonlinear_arith)
                requires
                    whole == d as nat * acc as nat,
            ;
        }
        acc = acc * shape[i - 1];
        i = i - 1;
    }
    assert(shape@.subrange(0, n as int) =~= shape@);
    acc
}

/// Row-major strides of a shape whose suffix products fit.
pub fn row_major_strides(shape: &Vec<usize>) -> (r: Vec<usize>)
    requires
        shape_fits(shape@),
    ensures
        r@.len() == shape@.len(),
        forall|i: int| 0 <= i < r@.len() ==> r@[i] == stride_of(shape@, i),
{
    let n = shape.len();
    let mut out: Vec<usize> = Vec::new();
    let mut k: usize = 0;
    while k < n
        invariant
            k <= n,
            out@.len() == k,
        decreases n - k,
    {
        out.push(0);
        k = k + 1;
    }
    let mut acc: usize = 1;
    let mut i: usize = n;
    assert(shape@.subrange(n as int, n as int).len() == 0);
    while i > 0
        invariant
            i <= n == shape@.len(),
            out@.len() == n,
            shape_fits(shape@),
            acc == numel(shape@.subrange(i as int, n as int)),
            forall|j: int| i <= j < n ==> out@[j] == stride_of(shape@, j),
        decreases i,
    {
        out.set(i - 1, acc);
        proof {
            lemma_numel_split(shape@, i - 1);
            let d = shape@[i - 1];
            let whole = numel(shape@.subrange(i - 1, n as int));
            assert(whole <= usize::MAX);
            assert(acc * d == whole) by (nonlinear_arith)
                requires
                    whole == d as nat * acc as nat,
            ;
        }
        acc = acc * shape[i - 1];
        i = i - 1;
    }
    out
}

} // verus!
