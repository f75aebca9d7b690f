//! The parts of a graph that the runtime's cache and validation logic read:
//! variable declarations and cache access expressions.
use vstd::prelude::*;
use crate::dtype::{packed, DType};
use crate::vk_common::OpAttrs;
use crate::vk_dispatch::OpKind;
use crate::tensor::{elem_max, elem_max_exec, numel, shape_fits, TensorValue, vec_of, numel_exec_slice};

verus! {

/// Storage class of a declared variable.
#[derive(Clone, Copy, Debug, PartialEq, Eq, Structural)]
pub enum MemoryKind {
    Dynamic,
    Volatile,
    Constant,
    Persistent,
}

/// An initial value of a declared variable, held as the element bit pattern
/// of the variable's element type.
#[derive(Clone, Copy, Debug, PartialEq, Eq, Structural)]
pub struct ScalarValue {
    pub bits: u64,
}

/// Why a scalar initializer cannot fill a tensor.
#[derive(Clone, Copy, Debug, PartialEq, Eq, Structural)]
pub enum InitError {
    PackedUnsupported,
    ValueOutOfRange,
}

impl ScalarValue {
    /// A tensor of `dtype` and `shape` whose every element is this value;
    /// packed element types and patterns wider than the type are refused.
    pub open spec fn fill_spec(self, dtype: DType) -> Result<(), InitError> {
        if packed(dtype) {
            Err(InitError::PackedUnsupported)
        } else if self.bits > elem_max(dtype) {
            Err(InitError::ValueOutOfRange)
        } else {
            Ok(())
        }
    }

    /// Fill a tensor of the given type and shape with this value.
    pub fn to_tensor_value(&self, dtype: DType, shape: &[usize]) -> (r: Result<TensorValue, InitError>)
        requires
            shape_fits(shape@),
        ensures
            match self.fill_spec(dtype) {
                Ok(_) => r matches Ok(t) && t.wf() && t.dtype == dtype && t.shape@ == shape@
                    && t.data@ == Seq::new(numel(shape@), |i: int| self.bits),
                Err(e) => r == Err::<TensorValue, InitError>(e),
            },
    {
        if dtype.is_packed() {
            return Err(InitError::PackedUnsupported);
        }
        if self.bits > elem_max_exec(dtype) {
            return Err(InitError::ValueOutOfRange);
        }
        let n = numel_exec_slice(shape);
        let data = vec_of(n, self.bits);
        let mut s: Vec<usize> = Vec::new();
        let mut i: usize = 0;
        while i < shape.len()
            invariant
                i <= shape@.len(),
                s@ == shape@.subrange(0, i as int),
            decreases shape@.len() - i,
        {
            s.push(shape[i]);
            i = i + 1;
        }
        assert(s@ =~= shape@);
        assert(data@ =~= Seq::new(numel(shape@), |i: int| self.bits));
        Ok(TensorValue { dtype, shape: s, data })
    }
}

/// A declared variable of the graph.
#[derive(Clone, Debug)]
pub struct VarDecl {
    pub name: String,
    pub dtype: DType,
    pub dims: Vec<String>,
    pub kind: MemoryKind,
    pub init: Option<ScalarValue>,
    /// Fixed sizes of named table or auto-growing dimensions.
    pub fixed: Vec<(String, usize)>,
    /// Index names of a cache table; empty for a plain variable.
    pub table_indices: Vec<String>,
    /// Index names of the dimensions that grow on access.
    pub auto_dim: Vec<String>,
    /// Declared as a cache table.
    pub table: bool,
    /// The model variable it is bound to, when named apart from its own name.
    pub ref_name: Option<String>,
}

/// A copy of a list of strings.
pub fn copy_strings(v: &Vec<String>) -> (r: Vec<String>)
    ensures
        r@ == v@,
{
    let mut out: Vec<String> = Vec::new();
    let mut i: usize = 0;
    while i < v.len()
        invariant
            i <= v@.len(),
            out@ == v@.subrange(0, i as int),
        decreases v@.len() - i,
    {
        out.push(v[i].clone());
        i = i + 1;
    }
    assert(out@ =~= v@);
    out
}

impl VarDecl {
    /// A copy of the declaration.
    pub fn copy_decl(&self) -> (r: VarDecl)
        ensures
            r.name == self.name,
            r.dtype == self.dtype,
            r.dims@ == self.dims@,
            r.kind == self.kind,
            r.init == self.init,
            r.fixed@ == self.fixed@,
            r.table_indices@ == self.table_indices@,
            r.auto_dim@ == self.auto_dim@,
            r.table == self.table,
            r.ref_name == self.ref_name,
    {
        let mut fixed: Vec<(String, usize)> = Vec::new();
        let mut i: usize = 0;
        while i < self.fixed.len()
            invariant
                i <= self.fixed@.len(),
                fixed@ == self.fixed@.subrange(0, i as int),
            decreases self.fixed@.len() - i,
        {
            fixed.push((self.fixed[i].0.clone(), self.fixed[i].1));
            i = i + 1;
        }
        assert(fixed@ =~= self.fixed@);
        VarDecl {
            name: self.name.clone(),
            dtype: self.dtype,
            dims: copy_strings(&self.dims),
            kind: self.kind,
            init: self.init,
            fixed,
            table_indices: copy_strings(&self.table_indices),
            auto_dim: copy_strings(&self.auto_dim),
            table: self.table,
            ref_name: match &self.ref_name {
                Some(n) => Some(n.clone()),
                None => None,
            },
        }
    }

    pub open spec fn is_cache_table_spec(&self) -> bool {
        self.table_indices@.len() > 0
    }

    pub open spec fn has_auto_dim_spec(&self) -> bool {
        self.auto_dim@.len() > 0
    }

    /// Whether the variable is a cache table.
    pub fn is_cache_table(&self) -> (r: bool)
        ensures
            r == self.is_cache_table_spec(),
    {
        self.table_indices.len() > 0
    }

    /// Whether some dimension of the variable grows on access.
    pub fn has_auto_dim(&self) -> (r: bool)
        ensures
            r == self.has_auto_dim_spec(),
    {
        self.auto_dim.len() > 0
    }
}

/// A value inside a cache index: a literal or a name.
#[derive(Clone, Debug)]
pub enum CacheIndexValue {
    Lit(i64),
    Ident(String),
}

/// One index of a cache access: a single position or a slice.
#[derive(Clone, Debug)]
pub enum CacheIndexExpr {
    Single(CacheIndexValue),
    Slice { start: Option<CacheIndexValue>, end: Option<CacheIndexValue> },
}

/// An access to a cached variable, `base[indices]`.
#[derive(Clone, Debug)]
pub struct CacheAccess {
    pub base: String,
    pub indices: Vec<CacheIndexExpr>,
    pub bracketed: bool,
}

/// What a node of a block does. A loop's body is given by the positions of
/// its nodes in the graph's node table.
#[derive(Clone, Debug)]
pub enum NodeKind {
    Assign { name: String, dtype: DType, dims: Vec<String> },
    Op { op: OpKind, attrs: OpAttrs, inputs: Vec<String>, output: String },
    Branch { cond: Option<String>, then_block: String, else_block: Option<String> },
    Loop { name: String, index: String, start: String, end: String, body: Vec<usize> },
    CacheRead { src: CacheAccess, dst: String },
    CacheWrite { src: String, dst: CacheAccess },
    CacheIncrement { target: String, amount: i64 },
    CacheDecrement { target: String, amount: i64 },
    CacheReset { target: CacheAccess },
    Barrier,
    Dep { after: String, before: String },
    Transfer { src: String, dst: String },
    Yield { vars: Vec<String> },
    Await { vars: Vec<String> },
    Return,
}

/// A node of the graph: its position, its identifier, and what it does.
#[derive(Clone, Debug)]
pub struct Node {
    pub index: usize,
    pub uuid: u128,
    pub kind: NodeKind,
}

} // verus!
